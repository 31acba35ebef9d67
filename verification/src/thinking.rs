//! Thinking text in model replies: finding the parts of a reply that are
//! enclosed in (or closed by) configured delimiters, dimming them for the
//! terminal or removing them, and injecting a separate reasoning field.
use owo_colors::OwoColorize;
use vstd::prelude::*;

use crate::text::{
    chars_of, find_from, first_match, is_blank, is_blank_seq, lemma_first_match_found, matches_at,
    occurs_in, push_chars, push_str, string_of,
};

verus! {

/// A pair of markers that enclose thinking text, such as `<think>` and `</think>`.
#[derive(Debug, Clone)]
pub struct Delimiter {
    pub start: String,
    pub end: String,
}

impl View for Delimiter {
    type V = (Seq<char>, Seq<char>);

    open spec fn view(&self) -> (Seq<char>, Seq<char>) {
        (self.start@, self.end@)
    }
}

/// The delimiters as pairs of texts.
pub open spec fn delims_view(ds: Seq<Delimiter>) -> Seq<(Seq<char>, Seq<char>)> {
    ds.map_values(|d: Delimiter| d@)
}

/// The start markers of `ds`, in order.
pub open spec fn starts(ds: Seq<(Seq<char>, Seq<char>)>) -> Seq<Seq<char>> {
    ds.map_values(|d: (Seq<char>, Seq<char>)| d.0)
}

/// The end markers of `ds`, in order.
pub open spec fn ends(ds: Seq<(Seq<char>, Seq<char>)>) -> Seq<Seq<char>> {
    ds.map_values(|d: (Seq<char>, Seq<char>)| d.1)
}

/// Among the nonempty patterns `pats[0..k]`, the one that occurs first in `s`
/// at or after `from`: its position and its index. On a tie the pattern
/// listed first wins.
pub open spec fn earliest_among(s: Seq<char>, pats: Seq<Seq<char>>, from: int, k: int) -> Option<
    (int, int),
>
    decreases k,
{
    if k <= 0 {
        None
    } else {
        let prev = earliest_among(s, pats, from, k - 1);
        let pat = pats[k - 1];
        if pat.len() == 0 {
            prev
        } else {
            match first_match(s, pat, from) {
                None => prev,
                Some(p) => match prev {
                    None => Some((p, k - 1)),
                    Some(best) => if p < best.0 {
                        Some((p, k - 1))
                    } else {
                        prev
                    },
                },
            }
        }
    }
}

/// The earliest occurrence at or after `from` of any nonempty pattern of `pats`.
pub open spec fn earliest(s: Seq<char>, pats: Seq<Seq<char>>, from: int) -> Option<(int, int)> {
    earliest_among(s, pats, from, pats.len() as int)
}

/// What `earliest_among` reports is a real occurrence of a nonempty pattern.
pub proof fn lemma_earliest_among(s: Seq<char>, pats: Seq<Seq<char>>, from: int, k: int)
    requires
        0 <= from,
        k <= pats.len(),
    ensures
        earliest_among(s, pats, from, k) matches Some(found) ==> {
            &&& 0 <= found.1 < k
            &&& pats[found.1].len() > 0
            &&& from <= found.0
            &&& matches_at(s, pats[found.1], found.0)
            &&& first_match(s, pats[found.1], from) == Some(found.0)
        },
    decreases k,
{
    if k > 0 {
        lemma_earliest_among(s, pats, from, k - 1);
        lemma_first_match_found(s, pats[k - 1], from);
    }
}

/// One part of a reply: ordinary text, or thinking text with its markers.
pub enum Piece {
    Plain(Seq<char>),
    Thinking(Seq<char>),
}

/// The reply `s`, from position `index` on, cut into ordinary and thinking parts.
///
/// At each step the earliest start marker and the earliest end marker are
/// looked for. A start marker that comes no later than every end marker opens
/// a thinking part that runs through the first end marker of its own pair
/// after it (or to the end of the reply when there is none). An end marker
/// that comes first closes a thinking part that began where the step began.
/// Where only a start marker occurs, or none, the rest is ordinary text.
pub open spec fn thinking_pieces(s: Seq<char>, ds: Seq<(Seq<char>, Seq<char>)>, index: int) -> Seq<
    Piece,
>
    decreases s.len() - index,
{
    if index < 0 || index >= s.len() {
        seq![]
    } else {
        let st = earliest(s, starts(ds), index);
        let en = earliest(s, ends(ds), index);
        proof {
            lemma_earliest_among(s, starts(ds), index, starts(ds).len() as int);
            lemma_earliest_among(s, ends(ds), index, ends(ds).len() as int);
        }
        match (st, en) {
            (Some((sp, sk)), Some((ep, _))) if sp <= ep => {
                let d = ds[sk];
                let after = sp + d.0.len();
                let head = Piece::Plain(s.subrange(index, sp));
                proof {
                    lemma_first_match_found(s, d.1, after);
                }
                match first_match(s, d.1, after) {
                    Some(r) => {
                        let e = r + d.1.len();
                        seq![head, Piece::Thinking(s.subrange(sp, e))] + thinking_pieces(s, ds, e)
                    },
                    None => seq![head, Piece::Thinking(s.subrange(sp, s.len() as int))],
                }
            },
            (_, Some((ep, ek))) => {
                let e = ep + ds[ek].1.len();
                seq![Piece::Thinking(s.subrange(index, e))] + thinking_pieces(s, ds, e)
            },
            _ => seq![Piece::Plain(s.subrange(index, s.len() as int))],
        }
    }
}

/// `t` between the terminal codes that turn dim on and all styles off.
pub open spec fn dim_seq(t: Seq<char>) -> Seq<char> {
    seq!['\x1b', '[', '2', 'm'] + t + seq!['\x1b', '[', '0', 'm']
}

/// One part as shown on a terminal: thinking text dimmed.
pub open spec fn piece_colored(p: Piece) -> Seq<char> {
    match p {
        Piece::Plain(t) => t,
        Piece::Thinking(t) => dim_seq(t),
    }
}

/// One part after stripping: thinking text gone.
pub open spec fn piece_stripped(p: Piece) -> Seq<char> {
    match p {
        Piece::Plain(t) => t,
        Piece::Thinking(_) => seq![],
    }
}

/// One part as it stood in the reply.
pub open spec fn piece_raw(p: Piece) -> Seq<char> {
    match p {
        Piece::Plain(t) => t,
        Piece::Thinking(t) => t,
    }
}

/// The parts joined, thinking parts dimmed.
pub open spec fn render_colored(ps: Seq<Piece>) -> Seq<char>
    decreases ps.len(),
{
    if ps.len() == 0 {
        seq![]
    } else {
        piece_colored(ps[0]) + render_colored(ps.drop_first())
    }
}

/// The ordinary parts joined, thinking parts left out.
pub open spec fn render_stripped(ps: Seq<Piece>) -> Seq<char>
    decreases ps.len(),
{
    if ps.len() == 0 {
        seq![]
    } else {
        piece_stripped(ps[0]) + render_stripped(ps.drop_first())
    }
}

/// All parts joined as they are.
pub open spec fn render_raw(ps: Seq<Piece>) -> Seq<char>
    decreases ps.len(),
{
    if ps.len() == 0 {
        seq![]
    } else {
        piece_raw(ps[0]) + render_raw(ps.drop_first())
    }
}

/// The reply with its thinking parts dimmed.
pub open spec fn colored_text(s: Seq<char>, ds: Seq<(Seq<char>, Seq<char>)>) -> Seq<char> {
    render_colored(thinking_pieces(s, ds, 0))
}

/// The reply with its thinking parts removed.
pub open spec fn stripped_text(s: Seq<char>, ds: Seq<(Seq<char>, Seq<char>)>) -> Seq<char> {
    render_stripped(thinking_pieces(s, ds, 0))
}

pub proof fn lemma_render_concat(a: Seq<Piece>, b: Seq<Piece>)
    ensures
        render_colored(a + b) == render_colored(a) + render_colored(b),
        render_stripped(a + b) == render_stripped(a) + render_stripped(b),
        render_raw(a + b) == render_raw(a) + render_raw(b),
    decreases a.len(),
{
    if a.len() == 0 {
        assert(a + b == b);
    } else {
        assert((a + b).drop_first() == a.drop_first() + b);
        lemma_render_concat(a.drop_first(), b);
    }
}

pub proof fn lemma_render_single(p: Piece)
    ensures
        render_colored(seq![p]) == piece_colored(p),
        render_stripped(seq![p]) == piece_stripped(p),
        render_raw(seq![p]) == piece_raw(p),
{
    assert(seq![p].drop_first() == Seq::<Piece>::empty());
    assert(seq![p][0] == p);
    assert(render_colored(Seq::<Piece>::empty()) == Seq::<char>::empty());
    assert(render_stripped(Seq::<Piece>::empty()) == Seq::<char>::empty());
    assert(render_raw(Seq::<Piece>::empty()) == Seq::<char>::empty());
    assert(piece_colored(p) + Seq::<char>::empty() == piece_colored(p));
    assert(piece_stripped(p) + Seq::<char>::empty() == piece_stripped(p));
    assert(piece_raw(p) + Seq::<char>::empty() == piece_raw(p));
}

pub proof fn lemma_render_pair(p: Piece, q: Piece)
    ensures
        render_colored(seq![p, q]) == piece_colored(p) + piece_colored(q),
        render_stripped(seq![p, q]) == piece_stripped(p) + piece_stripped(q),
        render_raw(seq![p, q]) == piece_raw(p) + piece_raw(q),
{
    assert(seq![p, q] == seq![p] + seq![q]);
    lemma_render_concat(seq![p], seq![q]);
    lemma_render_single(p);
    lemma_render_single(q);
}

/// An optional position and index, as mathematical integers.
pub open spec fn found_view(o: Option<(usize, usize)>) -> Option<(int, int)> {
    match o {
        Some(f) => Some((f.0 as int, f.1 as int)),
        None => None,
    }
}

/// The delimiters as character vectors.
struct DelimChars {
    start: Vec<char>,
    end: Vec<char>,
}

impl View for DelimChars {
    type V = (Seq<char>, Seq<char>);

    closed spec fn view(&self) -> (Seq<char>, Seq<char>) {
        (self.start@, self.end@)
    }
}

spec fn dchars_view(ds: Seq<DelimChars>) -> Seq<(Seq<char>, Seq<char>)> {
    ds.map_values(|d: DelimChars| d@)
}

fn delimiter_chars(delimiters: &[Delimiter]) -> (r: Vec<DelimChars>)
    ensures
        dchars_view(r@) == delims_view(delimiters@),
{
    let mut r: Vec<DelimChars> = Vec::new();
    let mut i: usize = 0;
    while i < delimiters.len()
        invariant
            i <= delimiters.len(),
            r.len() == i,
            forall|j: int| 0 <= j < i ==> (#[trigger] r@[j])@ == delimiters@[j]@,
        decreases delimiters.len() - i,
    {
        let d = &delimiters[i];
        r.push(DelimChars { start: chars_of(d.start.as_str()), end: chars_of(d.end.as_str()) });
        i = i + 1;
    }
    assert(dchars_view(r@) =~= delims_view(delimiters@));
    r
}

/// `earliest` over the start markers (`use_start`) or the end markers.
fn earliest_exec(text: &Vec<char>, ds: &Vec<DelimChars>, from: usize, use_start: bool) -> (r:
    Option<(usize, usize)>)
    requires
        from <= text.len(),
    ensures
        ({
            let pats = if use_start {
                starts(dchars_view(ds@))
            } else {
                ends(dchars_view(ds@))
            };
            found_view(r) == earliest(text@, pats, from as int)
        }),
{
    let ghost pats = if use_start {
        starts(dchars_view(ds@))
    } else {
        ends(dchars_view(ds@))
    };
    let mut best: Option<(usize, usize)> = None;
    let mut k: usize = 0;
    while k < ds.len()
        invariant
            k <= ds.len(),
            from <= text.len(),
            pats.len() == ds.len(),
            pats == (if use_start {
                starts(dchars_view(ds@))
            } else {
                ends(dchars_view(ds@))
            }),
            found_view(best) == earliest_among(text@, pats, from as int, k as int),
            best matches Some(b) ==> b.0 <= text.len(),
        decreases ds.len() - k,
    {
        let pat = if use_start {
            &ds[k].start
        } else {
            &ds[k].end
        };
        assert(pat@ == pats[k as int]);
        if pat.len() > 0 {
            match find_from(text, pat, from) {
                None => {},
                Some(p) => {
                    match best {
                        None => {
                            best = Some((p, k));
                        },
                        Some(b) => {
                            if p < b.0 {
                                best = Some((p, k));
                            }
                        },
                    }
                },
            }
        }
        k = k + 1;
    }
    best
}

/// Calls `owo_colors::OwoColorize::dimmed` on `text` and formats the result:
/// the owo-colors source writes `ESC [2m`, the text, then `ESC [0m`.
#[verifier::external_body]
fn dimmed(text: &str) -> (r: String)
    ensures
        r@ == dim_seq(text@),
{
    format!("{}", text.dimmed())
}

/// Appends `text[from..to]` to `out` as a thinking part: dimmed when `dim`,
/// left out otherwise.
fn push_thinking(out: &mut String, text: &Vec<char>, from: usize, to: usize, dim: bool)
    requires
        from <= to <= text.len(),
    ensures
        final(out)@ == old(out)@ + (if dim {
            dim_seq(text@.subrange(from as int, to as int))
        } else {
            seq![]
        }),
{
    if dim {
        let part = string_of(text, from, to);
        let styled = dimmed(part.as_str());
        push_str(out, styled.as_str());
    } else {
        assert(old(out)@ + seq![] == old(out)@);
    }
}

spec fn rendered(ps: Seq<Piece>, dim: bool) -> Seq<char> {
    if dim {
        render_colored(ps)
    } else {
        render_stripped(ps)
    }
}

proof fn lemma_rendered_concat(a: Seq<Piece>, b: Seq<Piece>, dim: bool)
    ensures
        rendered(a + b, dim) == rendered(a, dim) + rendered(b, dim),
{
    lemma_render_concat(a, b);
}

/// Renders the part of `text` that starts at `index` and returns where the
/// next part starts.
fn render_step(
    text: &Vec<char>,
    ds: &Vec<DelimChars>,
    index: usize,
    out: &mut String,
    dim: bool,
) -> (next: usize)
    requires
        index < text.len(),
    ensures
        index < next <= text.len(),
        old(out)@ + rendered(thinking_pieces(text@, dchars_view(ds@), index as int), dim)
            == final(out)@ + rendered(thinking_pieces(text@, dchars_view(ds@), next as int), dim),
{
    let ghost s = text@;
    let ghost dv = dchars_view(ds@);
    let n = text.len();
    let st = earliest_exec(text, ds, index, true);
    let en = earliest_exec(text, ds, index, false);
    proof {
        lemma_earliest_among(s, starts(dv), index as int, starts(dv).len() as int);
        lemma_earliest_among(s, ends(dv), index as int, ends(dv).len() as int);
    }
    let ghost pieces = thinking_pieces(s, dv, index as int);
    let mut start_first = false;
    let mut sp: usize = 0;
    let mut sk: usize = 0;
    if let Some(a) = st {
        if let Some(b) = en {
            if a.0 <= b.0 {
                start_first = true;
                sp = a.0;
                sk = a.1;
            }
        }
    }
    if start_first {
        let d = &ds[sk];
        assert(d@ == dv[sk as int]);
        assert(starts(dv)[sk as int] == d.start@);
        push_chars(out, text, index, sp);
        let after = sp + d.start.len();
        proof {
            lemma_first_match_found(s, d.end@, after as int);
        }
        match find_from(text, &d.end, after) {
            Some(r) => {
                let e = r + d.end.len();
                push_thinking(out, text, sp, e, dim);
                proof {
                    let p0 = Piece::Plain(s.subrange(index as int, sp as int));
                    let p1 = Piece::Thinking(s.subrange(sp as int, e as int));
                    assert(pieces == seq![p0, p1] + thinking_pieces(s, dv, e as int));
                    lemma_rendered_concat(seq![p0, p1], thinking_pieces(s, dv, e as int), dim);
                    lemma_render_pair(p0, p1);
                }
                e
            },
            None => {
                push_thinking(out, text, sp, n, dim);
                proof {
                    let p0 = Piece::Plain(s.subrange(index as int, sp as int));
                    let p1 = Piece::Thinking(s.subrange(sp as int, n as int));
                    assert(pieces == seq![p0, p1]);
                    lemma_render_pair(p0, p1);
                    assert(thinking_pieces(s, dv, n as int) == Seq::<Piece>::empty());
                }
                n
            },
        }
    } else if let Some(b) = en {
        let d = &ds[b.1];
        assert(d@ == dv[b.1 as int]);
        assert(ends(dv)[b.1 as int] == d.end@);
        let e = b.0 + d.end.len();
        push_thinking(out, text, index, e, dim);
        proof {
            let p0 = Piece::Thinking(s.subrange(index as int, e as int));
            assert(pieces == seq![p0] + thinking_pieces(s, dv, e as int));
            lemma_rendered_concat(seq![p0], thinking_pieces(s, dv, e as int), dim);
            lemma_render_single(p0);
        }
        e
    } else {
        push_chars(out, text, index, n);
        proof {
            let p0 = Piece::Plain(s.subrange(index as int, n as int));
            assert(pieces == seq![p0]);
            lemma_render_single(p0);
            assert(thinking_pieces(s, dv, n as int) == Seq::<Piece>::empty());
        }
        n
    }
}

/// Renders `text`, thinking parts dimmed (`dim`) or removed.
fn render_thinking(text: &Vec<char>, ds: &Vec<DelimChars>, dim: bool) -> (r: String)
    ensures
        r@ == rendered(thinking_pieces(text@, dchars_view(ds@), 0), dim),
{
    let n = text.len();
    let mut out = String::new();
    let mut index: usize = 0;
    while index < n
        invariant
            index <= n == text.len(),
            rendered(thinking_pieces(text@, dchars_view(ds@), 0), dim) == out@ + rendered(
                thinking_pieces(text@, dchars_view(ds@), index as int),
                dim,
            ),
        decreases n - index,
    {
        let next = render_step(text, ds, index, &mut out, dim);
        index = next;
    }
    assert(thinking_pieces(text@, dchars_view(ds@), index as int) == Seq::<Piece>::empty());
    assert(out@ + Seq::<char>::empty() == out@);
    out
}

/// The reply with every thinking part dimmed for display on a terminal.
pub fn color_thinking(content: &str, delimiters: &[Delimiter]) -> (r: String)
    ensures
        r@ == colored_text(content@, delims_view(delimiters@)),
{
    let text = chars_of(content);
    let ds = delimiter_chars(delimiters);
    render_thinking(&text, &ds, true)
}

/// The reply with every thinking part removed.
pub fn strip_thinking_text(content: &str, delimiters: &[Delimiter]) -> (r: String)
    ensures
        r@ == stripped_text(content@, delims_view(delimiters@)),
{
    let text = chars_of(content);
    let ds = delimiter_chars(delimiters);
    render_thinking(&text, &ds, false)
}

/// `d` shows up in `s`: its start marker or its end marker, each only when nonempty.
pub open spec fn delimiter_occurs(s: Seq<char>, d: (Seq<char>, Seq<char>)) -> bool {
    ||| d.0.len() > 0 && occurs_in(s, d.0)
    ||| d.1.len() > 0 && occurs_in(s, d.1)
}

/// Some delimiter of `ds` shows up in `s`.
pub open spec fn any_delimiter_occurs(s: Seq<char>, ds: Seq<(Seq<char>, Seq<char>)>) -> bool {
    exists|k: int| 0 <= k < ds.len() && delimiter_occurs(s, #[trigger] ds[k])
}

/// Whether any nonempty start or end marker occurs in `content`.
pub fn contains_any_delimiter(content: &str, delimiters: &[Delimiter]) -> (r: bool)
    ensures
        r == any_delimiter_occurs(content@, delims_view(delimiters@)),
{
    let text = chars_of(content);
    let ds = delimiter_chars(delimiters);
    let ghost dv = delims_view(delimiters@);
    let mut k: usize = 0;
    while k < ds.len()
        invariant
            k <= ds.len(),
            text@ == content@,
            dchars_view(ds@) == dv,
            dv == delims_view(delimiters@),
            dv.len() == ds.len(),
            forall|j: int| 0 <= j < k ==> !delimiter_occurs(content@, #[trigger] dv[j]),
        decreases ds.len() - k,
    {
        let d = &ds[k];
        assert(d@ == dv[k as int]);
        if d.start.len() > 0 && find_from(&text, &d.start, 0).is_some() {
            assert(delimiter_occurs(content@, dv[k as int]));
            return true;
        }
        if d.end.len() > 0 && find_from(&text, &d.end, 0).is_some() {
            assert(delimiter_occurs(content@, dv[k as int]));
            return true;
        }
        k = k + 1;
    }
    false
}

/// The first pair from index `i` on whose markers are both nonempty.
pub open spec fn first_full_pair(ds: Seq<(Seq<char>, Seq<char>)>, i: int) -> Option<int>
    decreases ds.len() - i,
{
    if i < 0 || i >= ds.len() {
        None
    } else if ds[i].0.len() > 0 && ds[i].1.len() > 0 {
        Some(i)
    } else {
        first_full_pair(ds, i + 1)
    }
}

/// The first pair from index `i` on whose end marker is nonempty.
pub open spec fn first_with_end(ds: Seq<(Seq<char>, Seq<char>)>, i: int) -> Option<int>
    decreases ds.len() - i,
{
    if i < 0 || i >= ds.len() {
        None
    } else if ds[i].1.len() > 0 {
        Some(i)
    } else {
        first_with_end(ds, i + 1)
    }
}

/// Reasoning text put between the markers of the first complete pair; with
/// none, followed by the first nonempty end marker; with none either, as it is.
pub open spec fn wrapped_reasoning(r: Seq<char>, ds: Seq<(Seq<char>, Seq<char>)>) -> Seq<char> {
    match first_full_pair(ds, 0) {
        Some(k) => ds[k].0 + r + ds[k].1,
        None => match first_with_end(ds, 0) {
            Some(k) => r + ds[k].1,
            None => r,
        },
    }
}

/// Encloses `reasoning` in thinking markers, as the configured delimiters allow.
pub fn wrap_reasoning(reasoning: &str, delimiters: &[Delimiter]) -> (r: String)
    ensures
        r@ == wrapped_reasoning(reasoning@, delims_view(delimiters@)),
{
    let ghost dv = delims_view(delimiters@);
    let mut i: usize = 0;
    while i < delimiters.len()
        invariant
            i <= delimiters.len() == dv.len(),
            dv == delims_view(delimiters@),
            first_full_pair(dv, 0) == first_full_pair(dv, i as int),
        decreases delimiters.len() - i,
    {
        let d = &delimiters[i];
        assert(d@ == dv[i as int]);
        if !d.start.as_str().is_empty() && !d.end.as_str().is_empty() {
            let mut out = String::new();
            push_str(&mut out, d.start.as_str());
            push_str(&mut out, reasoning);
            push_str(&mut out, d.end.as_str());
            return out;
        }
        i = i + 1;
    }
    let mut j: usize = 0;
    while j < delimiters.len()
        invariant
            j <= delimiters.len() == dv.len(),
            dv == delims_view(delimiters@),
            first_full_pair(dv, 0) is None,
            first_with_end(dv, 0) == first_with_end(dv, j as int),
        decreases delimiters.len() - j,
    {
        let d = &delimiters[j];
        assert(d@ == dv[j as int]);
        if !d.end.as_str().is_empty() {
            let mut out = String::new();
            push_str(&mut out, reasoning);
            push_str(&mut out, d.end.as_str());
            return out;
        }
        j = j + 1;
    }
    let mut out = String::new();
    push_str(&mut out, reasoning);
    out
}

/// The reply text once a separate reasoning field has been injected before
/// it, unless the text already holds a delimiter.
pub open spec fn merged_content(
    content: Seq<char>,
    reasoning: Option<Seq<char>>,
    ds: Seq<(Seq<char>, Seq<char>)>,
) -> Seq<char> {
    match reasoning {
        None => content,
        Some(r) => if any_delimiter_occurs(content, ds) {
            content
        } else {
            let w = wrapped_reasoning(r, ds);
            if is_blank_seq(content) {
                w
            } else if is_blank_seq(w) {
                r + seq!['\n'] + content
            } else {
                w + seq!['\n'] + content
            }
        },
    }
}

/// A reply that already holds a delimiter, or that comes without separate
/// reasoning, is left as it is.
pub proof fn law_marked_reply_keeps_its_text(
    content: Seq<char>,
    reasoning: Option<Seq<char>>,
    ds: Seq<(Seq<char>, Seq<char>)>,
)
    requires
        reasoning is None || any_delimiter_occurs(content, ds),
    ensures
        merged_content(content, reasoning, ds) == content,
{
}

/// Puts the reasoning that the API returned apart from the content in front
/// of the content, enclosed in thinking markers.
pub fn merge_reasoning(content: String, reasoning: Option<String>, delimiters: &[Delimiter]) -> (r:
    String)
    ensures
        r@ == merged_content(
            content@,
            match reasoning {
                Some(t) => Some(t@),
                None => None,
            },
            delims_view(delimiters@),
        ),
{
    match reasoning {
        None => content,
        Some(reasoning_text) => {
            if contains_any_delimiter(content.as_str(), delimiters) {
                content
            } else {
                let wrapped = wrap_reasoning(reasoning_text.as_str(), delimiters);
                if is_blank(content.as_str()) {
                    wrapped
                } else {
                    let mut out = String::new();
                    if is_blank(wrapped.as_str()) {
                        push_str(&mut out, reasoning_text.as_str());
                    } else {
                        push_str(&mut out, wrapped.as_str());
                    }
                    out.push('\n');
                    push_str(&mut out, content.as_str());
                    out
                }
            }
        },
    }
}

/// A copy of the delimiters.
pub fn copy_delimiters(ds: &Vec<Delimiter>) -> (r: Vec<Delimiter>)
    ensures
        delims_view(r@) == delims_view(ds@),
{
    let mut r: Vec<Delimiter> = Vec::new();
    let mut i: usize = 0;
    while i < ds.len()
        invariant
            i <= ds.len(),
            r.len() == i,
            forall|j: int| 0 <= j < i ==> (#[trigger] r@[j])@ == ds@[j]@,
        decreases ds.len() - i,
    {
        r.push(Delimiter { start: ds[i].start.clone(), end: ds[i].end.clone() });
        i = i + 1;
    }
    assert(delims_view(r@) =~= delims_view(ds@));
    r
}

} // verus!
