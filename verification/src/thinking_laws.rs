//! What holds of the thinking-text functions across all replies: the parts
//! rejoin into the reply, replies without markers pass unchanged, a closing
//! marker alone ends a thinking part, and a leading thinking block (such as
//! injected reasoning) is removed by stripping.
use vstd::prelude::*;

use crate::text::{
    first_match, is_blank_seq, lemma_first_match_found, lemma_first_match_skip, matches_at,
    occurs_in,
};
use crate::thinking::{
    any_delimiter_occurs, delimiter_occurs, dim_seq, earliest, earliest_among, ends,
    first_full_pair, lemma_earliest_among, lemma_render_concat, lemma_render_pair,
    lemma_render_single, merged_content, piece_raw, render_colored, render_raw, render_stripped, starts,
    stripped_text, colored_text, thinking_pieces, wrapped_reasoning, Piece,
};

verus! {

/// A match position moved by `d`.
pub open spec fn shift_pos(o: Option<int>, d: int) -> Option<int> {
    match o {
        Some(p) => Some(p + d),
        None => None,
    }
}

/// A found position and index, the position moved by `d`.
pub open spec fn shift_found(o: Option<(int, int)>, d: int) -> Option<(int, int)> {
    match o {
        Some(f) => Some((f.0 + d, f.1)),
        None => None,
    }
}

/// Searching `p + t` from inside `t` is searching `t`.
pub proof fn lemma_first_match_shift(p: Seq<char>, t: Seq<char>, pat: Seq<char>, i: int)
    requires
        0 <= i,
    ensures
        first_match(p + t, pat, p.len() + i) == shift_pos(first_match(t, pat, i), p.len() as int),
    decreases t.len() - i,
{
    let s = p + t;
    let q = p.len() + i;
    if i + pat.len() > t.len() {
    } else {
        assert(matches_at(s, pat, q) == matches_at(t, pat, i)) by {
            if matches_at(t, pat, i) {
                assert forall|j: int| 0 <= j < pat.len() implies #[trigger] s[q + j] == pat[j] by {
                    assert(s[q + j] == t[i + j]);
                }
            }
            if matches_at(s, pat, q) {
                assert forall|j: int| 0 <= j < pat.len() implies #[trigger] t[i + j] == pat[j] by {
                    assert(s[q + j] == t[i + j]);
                }
            }
        }
        if !matches_at(t, pat, i) {
            lemma_first_match_shift(p, t, pat, i + 1);
        }
    }
}

/// The earliest marker in `p + t` from inside `t` is the earliest in `t`, moved.
pub proof fn lemma_earliest_among_shift(
    p: Seq<char>,
    t: Seq<char>,
    pats: Seq<Seq<char>>,
    i: int,
    k: int,
)
    requires
        0 <= i,
    ensures
        earliest_among(p + t, pats, p.len() + i, k) == shift_found(
            earliest_among(t, pats, i, k),
            p.len() as int,
        ),
    decreases k,
{
    if k > 0 {
        lemma_earliest_among_shift(p, t, pats, i, k - 1);
        lemma_first_match_shift(p, t, pats[k - 1], i);
    }
}

/// Cutting `p + t` from inside `t` cuts `t` the same way.
pub proof fn lemma_pieces_shift(
    p: Seq<char>,
    t: Seq<char>,
    ds: Seq<(Seq<char>, Seq<char>)>,
    i: int,
)
    requires
        0 <= i,
    ensures
        thinking_pieces(p + t, ds, p.len() + i) == thinking_pieces(t, ds, i),
    decreases t.len() - i,
{
    let s = p + t;
    let n = p.len() as int;
    if i < t.len() {
        lemma_earliest_among_shift(p, t, starts(ds), i, starts(ds).len() as int);
        lemma_earliest_among_shift(p, t, ends(ds), i, ends(ds).len() as int);
        lemma_earliest_among(t, starts(ds), i, starts(ds).len() as int);
        lemma_earliest_among(t, ends(ds), i, ends(ds).len() as int);
        let st = earliest(t, starts(ds), i);
        let en = earliest(t, ends(ds), i);
        match (st, en) {
            (Some((sp, sk)), Some((ep, _))) if sp <= ep => {
                let d = ds[sk];
                let after = sp + d.0.len();
                lemma_first_match_shift(p, t, d.1, after);
                lemma_first_match_found(t, d.1, after);
                assert(s.subrange(n + i, n + sp) == t.subrange(i, sp));
                match first_match(t, d.1, after) {
                    Some(r) => {
                        let e = r + d.1.len();
                        assert(s.subrange(n + sp, n + e) == t.subrange(sp, e));
                        lemma_pieces_shift(p, t, ds, e);
                    },
                    None => {
                        assert(s.subrange(n + sp, s.len() as int) == t.subrange(
                            sp,
                            t.len() as int,
                        ));
                    },
                }
            },
            (_, Some((ep, ek))) => {
                let e = ep + ds[ek].1.len();
                assert(s.subrange(n + i, n + e) == t.subrange(i, e));
                lemma_pieces_shift(p, t, ds, e);
            },
            _ => {
                assert(s.subrange(n + i, s.len() as int) == t.subrange(i, t.len() as int));
            },
        }
    }
}

/// A match found within `p` is still the first one once text is appended.
pub proof fn lemma_first_match_prefix(p: Seq<char>, t: Seq<char>, pat: Seq<char>, from: int)
    requires
        0 <= from,
        first_match(p, pat, from) is Some,
    ensures
        first_match(p + t, pat, from) == first_match(p, pat, from),
{
    let s = p + t;
    lemma_first_match_found(p, pat, from);
    let q = first_match(p, pat, from)->0;
    assert forall|k: int| from <= k < q implies !matches_at(s, pat, k) by {
        if matches_at(s, pat, k) {
            assert forall|j: int| 0 <= j < pat.len() implies #[trigger] p[k + j] == pat[j] by {
                assert(s[k + j] == p[k + j]);
            }
            assert(matches_at(p, pat, k));
        }
    }
    assert forall|j: int| 0 <= j < pat.len() implies #[trigger] s[q + j] == pat[j] by {
        assert(s[q + j] == p[q + j]);
    }
    lemma_first_match_skip(s, pat, from, q);
}

/// The parts from `index` on, joined without markers, are the reply from `index` on.
pub proof fn lemma_pieces_cover(s: Seq<char>, ds: Seq<(Seq<char>, Seq<char>)>, index: int)
    requires
        0 <= index <= s.len(),
    ensures
        render_raw(thinking_pieces(s, ds, index)) == s.subrange(index, s.len() as int),
    decreases s.len() - index,
{
    if index < s.len() {
        lemma_earliest_among(s, starts(ds), index, starts(ds).len() as int);
        lemma_earliest_among(s, ends(ds), index, ends(ds).len() as int);
        let st = earliest(s, starts(ds), index);
        let en = earliest(s, ends(ds), index);
        match (st, en) {
            (Some((sp, sk)), Some((ep, _))) if sp <= ep => {
                let d = ds[sk];
                let after = sp + d.0.len();
                lemma_first_match_found(s, d.1, after);
                let p0 = Piece::Plain(s.subrange(index, sp));
                match first_match(s, d.1, after) {
                    Some(r) => {
                        let e = r + d.1.len();
                        let p1 = Piece::Thinking(s.subrange(sp, e));
                        lemma_pieces_cover(s, ds, e);
                        lemma_render_concat(seq![p0, p1], thinking_pieces(s, ds, e));
                        lemma_render_pair(p0, p1);
                        assert(s.subrange(index, sp) + s.subrange(sp, e) + s.subrange(
                            e,
                            s.len() as int,
                        ) == s.subrange(index, s.len() as int));
                    },
                    None => {
                        let p1 = Piece::Thinking(s.subrange(sp, s.len() as int));
                        lemma_render_pair(p0, p1);
                        assert(s.subrange(index, sp) + s.subrange(sp, s.len() as int)
                            == s.subrange(index, s.len() as int));
                    },
                }
            },
            (_, Some((ep, ek))) => {
                let e = ep + ds[ek].1.len();
                let p0 = Piece::Thinking(s.subrange(index, e));
                lemma_pieces_cover(s, ds, e);
                lemma_render_concat(seq![p0], thinking_pieces(s, ds, e));
                lemma_render_single(p0);
                assert(s.subrange(index, e) + s.subrange(e, s.len() as int) == s.subrange(
                    index,
                    s.len() as int,
                ));
            },
            _ => {
                lemma_render_single(Piece::Plain(s.subrange(index, s.len() as int)));
            },
        }
    } else {
        assert(s.subrange(index, s.len() as int) == Seq::<char>::empty());
    }
}

/// The parts that `color_thinking` and `strip_thinking_text` render are the
/// reply cut into consecutive pieces: joined back without markers they give
/// the reply unchanged. So coloring only adds terminal codes around whole
/// parts, and stripping only leaves whole parts out.
pub proof fn law_parts_rejoin_into_reply(s: Seq<char>, ds: Seq<(Seq<char>, Seq<char>)>)
    ensures
        render_raw(thinking_pieces(s, ds, 0)) == s,
        colored_text(s, ds) == render_colored(thinking_pieces(s, ds, 0)),
        stripped_text(s, ds) == render_stripped(thinking_pieces(s, ds, 0)),
{
    lemma_pieces_cover(s, ds, 0);
    assert(s.subrange(0, s.len() as int) == s);
}

/// No nonempty pattern occurring means no earliest occurrence.
proof fn lemma_earliest_none(s: Seq<char>, pats: Seq<Seq<char>>, k: int)
    requires
        k <= pats.len(),
        forall|j: int| 0 <= j < k ==> (#[trigger] pats[j]).len() == 0 || !occurs_in(s, pats[j]),
    ensures
        earliest_among(s, pats, 0, k) is None,
    decreases k,
{
    if k > 0 {
        lemma_earliest_none(s, pats, k - 1);
    }
}

/// A reply in which no delimiter occurs is shown and stripped unchanged
/// (so is every reply when no delimiters are configured).
pub proof fn law_reply_without_markers_unchanged(s: Seq<char>, ds: Seq<(Seq<char>, Seq<char>)>)
    requires
        !any_delimiter_occurs(s, ds),
    ensures
        colored_text(s, ds) == s,
        stripped_text(s, ds) == s,
{
    assert forall|j: int| 0 <= j < starts(ds).len() implies (#[trigger] starts(ds)[j]).len() == 0
        || !occurs_in(s, starts(ds)[j]) by {
        assert(!delimiter_occurs(s, ds[j]));
    }
    assert forall|j: int| 0 <= j < ends(ds).len() implies (#[trigger] ends(ds)[j]).len() == 0
        || !occurs_in(s, ends(ds)[j]) by {
        assert(!delimiter_occurs(s, ds[j]));
    }
    lemma_earliest_none(s, starts(ds), starts(ds).len() as int);
    lemma_earliest_none(s, ends(ds), ends(ds).len() as int);
    if s.len() > 0 {
        let p0 = Piece::Plain(s.subrange(0, s.len() as int));
        assert(thinking_pieces(s, ds, 0) == seq![p0]);
        lemma_render_single(p0);
        assert(s.subrange(0, s.len() as int) == s);
    } else {
        assert(s == Seq::<char>::empty());
    }
}

/// With a single delimiter pair: text up to the first end marker, in which no
/// start marker begins, is one thinking part, and the rest is cut on its own.
/// This is the case of a reply that holds only the closing marker.
pub proof fn law_closing_marker_alone_ends_thinking(
    d: (Seq<char>, Seq<char>),
    a: Seq<char>,
    rest: Seq<char>,
)
    requires
        d.1.len() > 0,
        first_match(a + d.1, d.1, 0) == Some(a.len() as int),
        d.0.len() == 0 || forall|i: int| 0 <= i <= a.len() ==> !matches_at(a + d.1 + rest, d.0, i),
    ensures
        thinking_pieces(a + d.1 + rest, seq![d], 0) == seq![Piece::Thinking(a + d.1)]
            + thinking_pieces(rest, seq![d], 0),
        stripped_text(a + d.1 + rest, seq![d]) == stripped_text(rest, seq![d]),
        colored_text(a + d.1 + rest, seq![d]) == dim_seq(a + d.1) + colored_text(rest, seq![d]),
{
    let ds = seq![d];
    let head = a + d.1;
    let s = head + rest;
    assert(a + d.1 + rest == s);
    assert(starts(ds) == seq![d.0]);
    assert(ends(ds) == seq![d.1]);
    lemma_first_match_prefix(head, rest, d.1, 0);
    lemma_first_match_found(s, d.0, 0);
    lemma_pieces_shift(head, rest, ds, 0);
    assert(s.subrange(0, head.len() as int) == head);
    let p0 = Piece::Thinking(head);
    assert(earliest_among(s, ends(ds), 0, 0) is None);
    assert(earliest(s, ends(ds), 0) == Some((a.len() as int, 0int)));
    assert(earliest_among(s, starts(ds), 0, 0) is None);
    assert(earliest(s, starts(ds), 0) matches Some(f) ==> f.0 > a.len());
    assert(s.len() > 0);
    assert(thinking_pieces(s, ds, 0) == seq![p0] + thinking_pieces(s, ds, head.len() as int));
    lemma_render_concat(seq![p0], thinking_pieces(rest, ds, 0));
    lemma_render_single(p0);
    assert(Seq::<char>::empty() + stripped_text(rest, ds) == stripped_text(rest, ds));
}

/// No occurrence of a nonempty pattern among the first `k` comes before what
/// `earliest_among` reports; on a tie, what it reports is listed no later.
pub proof fn lemma_earliest_among_min(
    s: Seq<char>,
    pats: Seq<Seq<char>>,
    from: int,
    k: int,
    j: int,
    q: int,
)
    requires
        0 <= from,
        0 <= j < k <= pats.len(),
        pats[j].len() > 0,
        first_match(s, pats[j], from) == Some(q),
    ensures
        earliest_among(s, pats, from, k) matches Some(f) && (f.0 < q || (f.0 == q && f.1 <= j)),
    decreases k,
{
    if j < k - 1 {
        lemma_earliest_among_min(s, pats, from, k - 1, j, q);
    } else {
        lemma_earliest_among(s, pats, from, k - 1);
    }
}

/// For any list of delimiter pairs and any pair in it with a nonempty end
/// marker: text up to that end marker, before which no start marker begins
/// (nor at its place) and no end marker occurs, is one thinking part, and the
/// rest of the reply is cut on its own. Stripping removes that part; coloring
/// dims it. An end marker of a pair listed earlier that stands at the same
/// place would close the part instead, so it must be the same marker.
pub proof fn law_closing_marker_of_any_pair_ends_thinking(
    ds: Seq<(Seq<char>, Seq<char>)>,
    k: int,
    a: Seq<char>,
    rest: Seq<char>,
)
    requires
        0 <= k < ds.len(),
        ds[k].1.len() > 0,
        forall|j: int, i: int|
            0 <= j < ds.len() && 0 <= i <= a.len() && ds[j].0.len() > 0 ==> !(
            #[trigger] matches_at(a + ds[k].1 + rest, ds[j].0, i)),
        forall|j: int, i: int|
            0 <= j < ds.len() && 0 <= i < a.len() && ds[j].1.len() > 0 ==> !(
            #[trigger] matches_at(a + ds[k].1 + rest, ds[j].1, i)),
        forall|j: int|
            0 <= j < k && ds[j].1.len() > 0 && #[trigger] matches_at(
                a + ds[k].1 + rest,
                ds[j].1,
                a.len() as int,
            ) ==> ds[j].1 == ds[k].1,
    ensures
        thinking_pieces(a + ds[k].1 + rest, ds, 0) == seq![Piece::Thinking(a + ds[k].1)]
            + thinking_pieces(rest, ds, 0),
        stripped_text(a + ds[k].1 + rest, ds) == stripped_text(rest, ds),
        colored_text(a + ds[k].1 + rest, ds) == dim_seq(a + ds[k].1) + colored_text(rest, ds),
{
    let d = ds[k];
    let head = a + d.1;
    let s = head + rest;
    let n = a.len() as int;
    assert(a + ds[k].1 + rest == s);
    assert forall|j: int| 0 <= j < d.1.len() implies #[trigger] s[n + j] == d.1[j] by {
        assert(s[n + j] == head[n + j]);
    }
    assert(matches_at(s, d.1, n));
    assert forall|i: int| 0 <= i < n implies !matches_at(s, d.1, i) by {
        assert(!matches_at(a + ds[k].1 + rest, ds[k].1, i));
    }
    lemma_first_match_skip(s, d.1, 0, n);
    assert(first_match(s, d.1, n) == Some(n));
    let ens = ends(ds);
    let sts = starts(ds);
    assert(ens[k] == d.1);
    lemma_earliest_among_min(s, ens, 0, ens.len() as int, k, n);
    lemma_earliest_among(s, ens, 0, ens.len() as int);
    lemma_earliest_among(s, sts, 0, sts.len() as int);
    let f = earliest(s, ens, 0)->0;
    assert(ens[f.1] == ds[f.1].1);
    if f.0 < n {
        assert(!matches_at(a + ds[k].1 + rest, ds[f.1].1, f.0));
    }
    assert(f.0 == n);
    if f.1 < k {
        assert(matches_at(a + ds[k].1 + rest, ds[f.1].1, a.len() as int));
    }
    assert(ds[f.1].1 == d.1);
    if earliest(s, sts, 0) is Some {
        let g = earliest(s, sts, 0)->0;
        assert(sts[g.1] == ds[g.1].0);
        if g.0 <= n {
            assert(!matches_at(a + ds[k].1 + rest, ds[g.1].0, g.0));
        }
        assert(g.0 > n);
    }
    assert(s.len() > 0);
    let p0 = Piece::Thinking(head);
    assert(s.subrange(0, head.len() as int) == head);
    assert(thinking_pieces(s, ds, 0) == seq![p0] + thinking_pieces(s, ds, head.len() as int));
    lemma_pieces_shift(head, rest, ds, 0);
    lemma_render_concat(seq![p0], thinking_pieces(rest, ds, 0));
    lemma_render_single(p0);
    assert(Seq::<char>::empty() + stripped_text(rest, ds) == stripped_text(rest, ds));
}

/// With a single delimiter pair of nonempty markers: a thinking block at the
/// very front (start marker, text, and the first end marker after it) is one
/// thinking part, and stripping removes exactly that block.
pub proof fn law_leading_block_is_removed(d: (Seq<char>, Seq<char>), r: Seq<char>, rest: Seq<char>)
    requires
        d.0.len() > 0,
        d.1.len() > 0,
        first_match(d.0 + r + d.1, d.1, d.0.len() as int) == Some((d.0.len() + r.len()) as int),
    ensures
        thinking_pieces(d.0 + r + d.1 + rest, seq![d], 0) == seq![
            Piece::Plain(seq![]),
            Piece::Thinking(d.0 + r + d.1),
        ] + thinking_pieces(rest, seq![d], 0),
        stripped_text(d.0 + r + d.1 + rest, seq![d]) == stripped_text(rest, seq![d]),
        colored_text(d.0 + r + d.1 + rest, seq![d]) == dim_seq(d.0 + r + d.1) + colored_text(
            rest,
            seq![d],
        ),
{
    let ds = seq![d];
    let block = d.0 + r + d.1;
    let s = block + rest;
    assert(starts(ds) == seq![d.0]);
    assert(ends(ds) == seq![d.1]);
    assert forall|j: int| 0 <= j < d.0.len() implies #[trigger] s[0 + j] == d.0[j] by {
        assert(s[j] == block[j]);
    }
    assert(matches_at(s, d.0, 0));
    assert(first_match(s, d.0, 0) == Some(0int));
    lemma_first_match_prefix(block, rest, d.1, d.0.len() as int);
    let q = (d.0.len() + r.len()) as int;
    assert forall|j: int| 0 <= j < d.1.len() implies #[trigger] s[q + j] == d.1[j] by {
        assert(s[q + j] == block[q + j]);
    }
    assert(matches_at(s, d.1, q));
    lemma_first_match_found(s, d.1, 0);
    lemma_pieces_shift(block, rest, ds, 0);
    assert(s.subrange(0, 0) == Seq::<char>::empty());
    assert(s.subrange(0, block.len() as int) == block);
    let p0 = Piece::Plain(seq![]);
    let p1 = Piece::Thinking(block);
    assert(earliest_among(s, starts(ds), 0, 0) is None);
    assert(earliest(s, starts(ds), 0) == Some((0int, 0int)));
    assert(earliest_among(s, ends(ds), 0, 0) is None);
    assert(first_match(s, d.1, 0) is Some);
    assert(earliest(s, ends(ds), 0) matches Some(f) && f.0 >= 0);
    assert(first_match(s, d.1, d.0.len() as int) == Some(q));
    assert(thinking_pieces(s, ds, 0) == seq![p0, p1] + thinking_pieces(s, ds, block.len() as int));
    lemma_render_concat(seq![p0, p1], thinking_pieces(rest, ds, 0));
    lemma_render_pair(p0, p1);
    assert(Seq::<char>::empty() + Seq::<char>::empty() + stripped_text(rest, ds) == stripped_text(
        rest,
        ds,
    ));
    assert(Seq::<char>::empty() + dim_seq(block) + colored_text(rest, ds) == dim_seq(block)
        + colored_text(rest, ds));
}

/// Reasoning that was injected in front of a reply (with a single delimiter
/// pair of nonempty markers, and reasoning in which the end marker first
/// occurs where it was put) is removed again by stripping: what is left is
/// the line break and the reply, or nothing when the reply was blank.
pub proof fn law_stripping_removes_injected_reasoning(
    d: (Seq<char>, Seq<char>),
    r: Seq<char>,
    content: Seq<char>,
)
    requires
        d.0.len() > 0,
        d.1.len() > 0,
        first_match(d.0 + r + d.1, d.1, d.0.len() as int) == Some((d.0.len() + r.len()) as int),
        !any_delimiter_occurs(content, seq![d]),
        !is_blank_seq(d.0 + r + d.1),
    ensures
        stripped_text(merged_content(content, Some(r), seq![d]), seq![d]) == if is_blank_seq(
            content,
        ) {
            Seq::<char>::empty()
        } else {
            stripped_text(seq!['\n'] + content, seq![d])
        },
{
    let ds = seq![d];
    let block = d.0 + r + d.1;
    assert(first_full_pair(ds, 0) == Some(0int));
    assert(wrapped_reasoning(r, ds) == block);
    if is_blank_seq(content) {
        assert(block + Seq::<char>::empty() == block);
        law_leading_block_is_removed(d, r, Seq::<char>::empty());
        assert(stripped_text(Seq::<char>::empty(), ds) == Seq::<char>::empty());
    } else {
        assert(block + seq!['\n'] + content == block + (seq!['\n'] + content));
        law_leading_block_is_removed(d, r, seq!['\n'] + content);
    }
}

/// The code that turns dim on.
pub open spec fn open_code() -> Seq<char> {
    seq!['\x1b', '[', '2', 'm']
}

/// The code that turns all styles off.
pub open spec fn close_code() -> Seq<char> {
    seq!['\x1b', '[', '0', 'm']
}

/// `s` holds no escape character.
pub open spec fn free_of_escape(s: Seq<char>) -> bool {
    forall|i: int| 0 <= i < s.len() ==> s[i] != '\x1b'
}

/// `s` begins with `p`.
pub open spec fn starts_with(s: Seq<char>, p: Seq<char>) -> bool {
    p.len() <= s.len() && s.take(p.len() as int) == p
}

/// `s` with every dim-on and style-off code taken out.
pub open spec fn without_codes(s: Seq<char>) -> Seq<char>
    decreases s.len(),
{
    if s.len() == 0 {
        seq![]
    } else if starts_with(s, open_code()) || starts_with(s, close_code()) {
        without_codes(s.skip(4))
    } else {
        seq![s[0]] + without_codes(s.drop_first())
    }
}

/// The codes in `s`, in order: `true` for dim on, `false` for styles off.
pub open spec fn codes_in(s: Seq<char>) -> Seq<bool>
    decreases s.len(),
{
    if s.len() == 0 {
        seq![]
    } else if starts_with(s, open_code()) {
        seq![true] + codes_in(s.skip(4))
    } else if starts_with(s, close_code()) {
        seq![false] + codes_in(s.skip(4))
    } else {
        codes_in(s.drop_first())
    }
}

/// The codes alternate: on, off, on, off, ..., and the last one is off.
pub open spec fn codes_alternate(cs: Seq<bool>) -> bool {
    &&& cs.len() % 2 == 0
    &&& forall|i: int| 0 <= i < cs.len() ==> #[trigger] cs[i] == (i % 2 == 0)
}

/// `n` pairs of on and off.
pub open spec fn on_off_pairs(n: nat) -> Seq<bool>
    decreases n,
{
    if n == 0 {
        seq![]
    } else {
        seq![true, false] + on_off_pairs((n - 1) as nat)
    }
}

proof fn lemma_on_off_pairs_alternate(n: nat)
    ensures
        codes_alternate(on_off_pairs(n)),
        on_off_pairs(n).len() == 2 * n,
    decreases n,
{
    if n > 0 {
        let rest = on_off_pairs((n - 1) as nat);
        lemma_on_off_pairs_alternate((n - 1) as nat);
        let all = seq![true, false] + rest;
        assert forall|i: int| 0 <= i < all.len() implies #[trigger] all[i] == (i % 2 == 0) by {
            if i >= 2 {
                assert(all[i] == rest[i - 2]);
                assert((i - 2) % 2 == i % 2);
            }
        }
    }
}

/// How many thinking parts there are.
pub open spec fn thinking_count(ps: Seq<Piece>) -> nat
    decreases ps.len(),
{
    if ps.len() == 0 {
        0
    } else {
        (if ps[0] is Thinking {
            1nat
        } else {
            0nat
        }) + thinking_count(ps.drop_first())
    }
}

proof fn lemma_free_concat(x: Seq<char>, y: Seq<char>)
    ensures
        free_of_escape(x + y) == (free_of_escape(x) && free_of_escape(y)),
{
    if free_of_escape(x + y) {
        assert forall|i: int| 0 <= i < y.len() implies y[i] != '\x1b' by {
            assert((x + y)[x.len() + i] == y[i]);
        }
        assert forall|i: int| 0 <= i < x.len() implies x[i] != '\x1b' by {
            assert((x + y)[i] == x[i]);
        }
    }
}

/// Text without escapes in front passes through the code scans unchanged.
proof fn lemma_plain_prefix(x: Seq<char>, y: Seq<char>)
    requires
        free_of_escape(x),
    ensures
        without_codes(x + y) == x + without_codes(y),
        codes_in(x + y) == codes_in(y),
        without_dimmed_spans(x + y) == x + without_dimmed_spans(y),
    decreases x.len(),
{
    if x.len() == 0 {
        assert(x + y == y);
    } else {
        let s = x + y;
        assert(s[0] == x[0]);
        assert(!starts_with(s, open_code())) by {
            if starts_with(s, open_code()) {
                assert(s.take(4)[0] == s[0]);
            }
        }
        assert(!starts_with(s, close_code())) by {
            if starts_with(s, close_code()) {
                assert(s.take(4)[0] == s[0]);
            }
        }
        assert(s.drop_first() == x.drop_first() + y);
        lemma_plain_prefix(x.drop_first(), y);
        assert(seq![x[0]] + x.drop_first() == x);
    }
}

/// The first escape character in `s` at or after `from`.
pub open spec fn first_escape(s: Seq<char>, from: int) -> Option<int>
    decreases s.len() - from,
{
    if from < 0 || from >= s.len() {
        None
    } else if s[from] == '\x1b' {
        Some(from)
    } else {
        first_escape(s, from + 1)
    }
}

proof fn lemma_first_escape_found(s: Seq<char>, from: int, k: int)
    requires
        0 <= from <= k < s.len(),
        s[k] == '\x1b',
        forall|i: int| from <= i < k ==> s[i] != '\x1b',
    ensures
        first_escape(s, from) == Some(k),
    decreases k - from,
{
    if from < k {
        lemma_first_escape_found(s, from + 1, k);
    }
}

pub proof fn lemma_first_escape_bounds(s: Seq<char>, from: int)
    ensures
        first_escape(s, from) matches Some(k) ==> from <= k < s.len(),
    decreases s.len() - from,
{
    if 0 <= from < s.len() && s[from] != '\x1b' {
        lemma_first_escape_bounds(s, from + 1);
    }
}

/// `s` with every dimmed span (a dim-on code, text without escapes, and a
/// style-off code) deleted.
pub open spec fn without_dimmed_spans(s: Seq<char>) -> Seq<char>
    decreases s.len(),
{
    if s.len() == 0 {
        seq![]
    } else {
        proof {
            lemma_first_escape_bounds(s, 4);
        }
        if starts_with(s, open_code()) && first_escape(s, 4) is Some && starts_with(
            s.skip(first_escape(s, 4)->0),
            close_code(),
        ) {
            without_dimmed_spans(s.skip(first_escape(s, 4)->0 + 4))
        } else {
            seq![s[0]] + without_dimmed_spans(s.drop_first())
        }
    }
}

/// A dimmed part in front, with `t` free of escapes.
proof fn lemma_dimmed_prefix(t: Seq<char>, y: Seq<char>)
    requires
        free_of_escape(t),
    ensures
        without_codes(dim_seq(t) + y) == t + without_codes(y),
        codes_in(dim_seq(t) + y) == seq![true, false] + codes_in(y),
        without_dimmed_spans(dim_seq(t) + y) == without_dimmed_spans(y),
{
    let s = dim_seq(t) + y;
    let inner = t + (close_code() + y);
    assert(s == open_code() + inner);
    assert(s.take(4) == open_code());
    assert(starts_with(s, open_code()));
    assert(s.skip(4) == inner);
    lemma_plain_prefix(t, close_code() + y);
    let cy = close_code() + y;
    assert(cy.take(4) == close_code());
    assert(!starts_with(cy, open_code())) by {
        if starts_with(cy, open_code()) {
            assert(cy.take(4)[2] == cy[2]);
        }
    }
    assert(cy.skip(4) == y);
    let k = (4 + t.len()) as int;
    assert(s[k] == '\x1b');
    assert forall|i: int| 4 <= i < k implies s[i] != '\x1b' by {
        assert(s[i] == t[i - 4]);
    }
    lemma_first_escape_found(s, 4, k);
    assert(s.skip(k) == cy);
    assert(s.skip(k + 4) == y);
}

/// Over whole parts: the codes come out as a pair per thinking part, the
/// text without codes is the parts joined, and deleting the dimmed spans
/// leaves the ordinary parts.
proof fn lemma_render_scans(ps: Seq<Piece>)
    requires
        free_of_escape(render_raw(ps)),
    ensures
        without_codes(render_colored(ps)) == render_raw(ps),
        codes_in(render_colored(ps)) == on_off_pairs(thinking_count(ps)),
        without_dimmed_spans(render_colored(ps)) == render_stripped(ps),
    decreases ps.len(),
{
    if ps.len() > 0 {
        let rest = ps.drop_first();
        lemma_free_concat(piece_raw(ps[0]), render_raw(rest));
        lemma_render_scans(rest);
        match ps[0] {
            Piece::Plain(t) => {
                lemma_plain_prefix(t, render_colored(rest));
            },
            Piece::Thinking(t) => {
                lemma_dimmed_prefix(t, render_colored(rest));
                assert(seq![true, false] + on_off_pairs(thinking_count(rest)) == on_off_pairs(
                    thinking_count(ps),
                ));
                assert(Seq::<char>::empty() + render_stripped(rest) == render_stripped(rest));
            },
        }
    }
}

/// For a reply without escape characters: taking the dim codes out of the
/// colored text gives back the reply, and the codes alternate, dim on then
/// off, every dimmed span closed and none nested.
pub proof fn law_colored_text_codes(s: Seq<char>, ds: Seq<(Seq<char>, Seq<char>)>)
    requires
        free_of_escape(s),
    ensures
        without_codes(colored_text(s, ds)) == s,
        codes_alternate(codes_in(colored_text(s, ds))),
{
    law_parts_rejoin_into_reply(s, ds);
    let ps = thinking_pieces(s, ds, 0);
    lemma_render_scans(ps);
    lemma_on_off_pairs_alternate(thinking_count(ps));
}

/// For a reply without escape characters: the stripped text is the colored
/// text with every dimmed span deleted, so stripping removes exactly what
/// coloring dims (an unclosed thinking part's tail included).
pub proof fn law_stripping_deletes_dimmed_spans(s: Seq<char>, ds: Seq<(Seq<char>, Seq<char>)>)
    requires
        free_of_escape(s),
    ensures
        stripped_text(s, ds) == without_dimmed_spans(colored_text(s, ds)),
{
    law_parts_rejoin_into_reply(s, ds);
    lemma_render_scans(thinking_pieces(s, ds, 0));
}

/// Spans `r` lie, in order and without overlap, between `lo` and `hi`.
pub open spec fn spans_within(r: Seq<(int, int)>, lo: int, hi: int) -> bool
    decreases r.len(),
{
    r.len() == 0 || (lo <= r[0].0 <= r[0].1 <= hi && spans_within(r.drop_first(), r[0].1, hi))
}

/// The spans of `s` joined.
pub open spec fn join_spans(s: Seq<char>, r: Seq<(int, int)>) -> Seq<char>
    decreases r.len(),
{
    if r.len() == 0 {
        seq![]
    } else {
        s.subrange(r[0].0, r[0].1) + join_spans(s, r.drop_first())
    }
}

proof fn lemma_join_spans_len(s: Seq<char>, r: Seq<(int, int)>, lo: int, hi: int)
    requires
        0 <= lo <= hi,
        hi <= s.len(),
        spans_within(r, lo, hi),
    ensures
        join_spans(s, r).len() <= hi - lo,
    decreases r.len(),
{
    if r.len() > 0 {
        lemma_join_spans_len(s, r.drop_first(), r[0].1, hi);
    }
}

/// The spans of the ordinary parts from `index` on.
proof fn lemma_plain_spans(s: Seq<char>, ds: Seq<(Seq<char>, Seq<char>)>, index: int) -> (r: Seq<
    (int, int),
>)
    requires
        0 <= index <= s.len(),
    ensures
        spans_within(r, index, s.len() as int),
        render_stripped(thinking_pieces(s, ds, index)) == join_spans(s, r),
    decreases s.len() - index,
{
    if index < s.len() {
        lemma_earliest_among(s, starts(ds), index, starts(ds).len() as int);
        lemma_earliest_among(s, ends(ds), index, ends(ds).len() as int);
        let st = earliest(s, starts(ds), index);
        let en = earliest(s, ends(ds), index);
        match (st, en) {
            (Some((sp, sk)), Some((ep, _))) if sp <= ep => {
                let d = ds[sk];
                let after = sp + d.0.len();
                lemma_first_match_found(s, d.1, after);
                let p0 = Piece::Plain(s.subrange(index, sp));
                match first_match(s, d.1, after) {
                    Some(q) => {
                        let e = q + d.1.len();
                        let p1 = Piece::Thinking(s.subrange(sp, e));
                        let rest = lemma_plain_spans(s, ds, e);
                        lemma_render_concat(seq![p0, p1], thinking_pieces(s, ds, e));
                        lemma_render_pair(p0, p1);
                        let r = seq![(index, sp)] + rest;
                        assert(r.drop_first() == rest);
                        assert(r[0] == (index, sp));
                        if rest.len() > 0 {
                            assert(spans_within(rest, e, s.len() as int));
                        }
                        assert(spans_within(rest, sp, s.len() as int));
                        assert(spans_within(r, index, s.len() as int));
                        assert(s.subrange(index, sp) + Seq::<char>::empty() + join_spans(s, rest)
                            == join_spans(s, r));
                        r
                    },
                    None => {
                        let p1 = Piece::Thinking(s.subrange(sp, s.len() as int));
                        lemma_render_pair(p0, p1);
                        let r = seq![(index, sp)];
                        assert(r.drop_first().len() == 0);
                        assert(r[0] == (index, sp));
                        assert(spans_within(r.drop_first(), sp, s.len() as int));
                        assert(spans_within(r, index, s.len() as int));
                        assert(join_spans(s, r.drop_first()) == Seq::<char>::empty());
                        assert(s.subrange(index, sp) + Seq::<char>::empty() == join_spans(s, r));
                        r
                    },
                }
            },
            (_, Some((ep, ek))) => {
                let e = ep + ds[ek].1.len();
                let p0 = Piece::Thinking(s.subrange(index, e));
                let rest = lemma_plain_spans(s, ds, e);
                lemma_render_concat(seq![p0], thinking_pieces(s, ds, e));
                lemma_render_single(p0);
                assert(Seq::<char>::empty() + join_spans(s, rest) == join_spans(s, rest));
                if rest.len() > 0 {
                    assert(spans_within(rest, e, s.len() as int));
                }
                assert(spans_within(rest, index, s.len() as int));
                rest
            },
            _ => {
                let p0 = Piece::Plain(s.subrange(index, s.len() as int));
                lemma_render_single(p0);
                let r = seq![(index, s.len() as int)];
                assert(r.drop_first().len() == 0);
                assert(r[0] == (index, s.len() as int));
                assert(spans_within(r.drop_first(), s.len() as int, s.len() as int));
                assert(spans_within(r, index, s.len() as int));
                assert(join_spans(s, r.drop_first()) == Seq::<char>::empty());
                assert(s.subrange(index, s.len() as int) + Seq::<char>::empty() == join_spans(s, r));
                r
            },
        }
    } else {
        seq![]
    }
}

/// The stripped text is the reply with zero or more non-overlapping spans
/// removed: it is the join of spans of the reply that lie in order, without
/// overlap, and so it is never longer than the reply.
pub proof fn law_stripped_text_is_spans_of_reply(s: Seq<char>, ds: Seq<(Seq<char>, Seq<char>)>)
    ensures
        exists|r: Seq<(int, int)>|
            spans_within(r, 0, s.len() as int) && stripped_text(s, ds) == join_spans(s, r),
        stripped_text(s, ds).len() <= s.len(),
{
    let r = lemma_plain_spans(s, ds, 0);
    lemma_join_spans_len(s, r, 0, s.len() as int);
}

} // verus!
