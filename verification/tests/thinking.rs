use ai::thinking::{
    color_thinking, contains_any_delimiter, merge_reasoning, strip_thinking_text, wrap_reasoning,
    Delimiter,
};

fn delim(start: &str, end: &str) -> Delimiter {
    Delimiter { start: start.to_string(), end: end.to_string() }
}

fn think() -> Vec<Delimiter> {
    vec![delim("<think>", "</think>")]
}

fn dim(s: &str) -> String {
    format!("\x1b[2m{}\x1b[0m", s)
}

#[test]
fn strip_removes_enclosed_block() {
    assert_eq!(strip_thinking_text("<think>plan</think>answer", &think()), "answer");
}

#[test]
fn color_dims_enclosed_block() {
    assert_eq!(
        color_thinking("<think>plan</think>answer", &think()),
        format!("{}answer", dim("<think>plan</think>"))
    );
}

#[test]
fn no_delimiters_configured_leaves_text() {
    let text = "<think>plan</think>answer";
    assert_eq!(strip_thinking_text(text, &[]), text);
    assert_eq!(color_thinking(text, &[]), text);
}

#[test]
fn text_without_markers_is_unchanged() {
    assert_eq!(strip_thinking_text("just an answer", &think()), "just an answer");
    assert_eq!(color_thinking("just an answer", &think()), "just an answer");
}

#[test]
fn empty_reply_stays_empty() {
    assert_eq!(strip_thinking_text("", &think()), "");
    assert_eq!(color_thinking("", &think()), "");
}

#[test]
fn closing_marker_alone_ends_thinking() {
    assert_eq!(strip_thinking_text("reasoning</think>answer", &think()), "answer");
    assert_eq!(
        color_thinking("reasoning</think>answer", &think()),
        format!("{}answer", dim("reasoning</think>"))
    );
}

#[test]
fn opening_marker_without_any_end_marker_is_kept() {
    let text = "before<think>unfinished";
    assert_eq!(strip_thinking_text(text, &think()), text);
    assert_eq!(color_thinking(text, &think()), text);
}

#[test]
fn end_first_then_block() {
    let text = "a</think>b<think>c</think>d";
    assert_eq!(strip_thinking_text(text, &think()), "bd");
    assert_eq!(
        color_thinking(text, &think()),
        format!("{}b{}d", dim("a</think>"), dim("<think>c</think>"))
    );
}

#[test]
fn several_blocks_and_pairs() {
    let ds = vec![delim("<think>", "</think>"), delim("<reason>", "</reason>")];
    let text = "A<reason>r</reason>B<think>t</think>C";
    assert_eq!(strip_thinking_text(text, &ds), "ABC");
    assert_eq!(
        color_thinking(text, &ds),
        format!("A{}B{}C", dim("<reason>r</reason>"), dim("<think>t</think>"))
    );
}

#[test]
fn block_without_its_own_end_runs_to_the_end() {
    let ds = vec![delim("<a>", "</a>"), delim("<b>", "</b>")];
    assert_eq!(strip_thinking_text("x<a>y</b>z", &ds), "x");
    assert_eq!(color_thinking("x<a>y</b>z", &ds), format!("x{}", dim("<a>y</b>z")));
}

#[test]
fn multibyte_text_is_cut_on_characters() {
    let ds = vec![delim("«", "»")];
    assert_eq!(strip_thinking_text("é«ü»ñ", &ds), "éñ");
}

#[test]
fn contains_any_delimiter_cases() {
    assert!(contains_any_delimiter("x<think>y", &think()));
    assert!(contains_any_delimiter("x</think>", &think()));
    assert!(!contains_any_delimiter("plain", &think()));
    assert!(!contains_any_delimiter("plain", &[delim("", "")]));
    assert!(!contains_any_delimiter("plain", &[]));
}

#[test]
fn wrap_reasoning_cases() {
    assert_eq!(wrap_reasoning("r", &think()), "<think>r</think>");
    assert_eq!(wrap_reasoning("r", &[delim("", "</think>")]), "r</think>");
    assert_eq!(wrap_reasoning("r", &[]), "r");
    assert_eq!(wrap_reasoning("r", &[delim("<a>", ""), delim("<b>", "</b>")]), "<b>r</b>");
    assert_eq!(wrap_reasoning("r", &[delim("<a>", ""), delim("", "")]), "r");
}

#[test]
fn merge_reasoning_cases() {
    let ds = think();
    assert_eq!(
        merge_reasoning("answer".to_string(), Some("why".to_string()), &ds),
        "<think>why</think>\nanswer"
    );
    assert_eq!(
        merge_reasoning("<think>x</think>answer".to_string(), Some("why".to_string()), &ds),
        "<think>x</think>answer"
    );
    assert_eq!(merge_reasoning("  \n".to_string(), Some("why".to_string()), &ds), "<think>why</think>");
    assert_eq!(merge_reasoning("answer".to_string(), None, &ds), "answer");
    assert_eq!(merge_reasoning("answer".to_string(), Some("why".to_string()), &[]), "why\nanswer");
}

#[test]
fn stripping_undoes_injected_reasoning() {
    let ds = think();
    let merged = merge_reasoning("answer".to_string(), Some("because".to_string()), &ds);
    assert_eq!(strip_thinking_text(&merged, &ds), "\nanswer");
}

#[test]
fn colored_text_without_codes_is_the_reply() {
    let ds = think();
    let text = "a</think>b<think>c</think>d<think>e";
    let colored = color_thinking(text, &ds);
    let plain = colored.replace("\x1b[2m", "").replace("\x1b[0m", "");
    assert_eq!(plain, text);
}

fn delete_dimmed_spans(s: &str) -> String {
    let mut out = String::new();
    let mut rest = s;
    while let Some(i) = rest.find("\x1b[2m") {
        out.push_str(&rest[..i]);
        let after = &rest[i + 4..];
        let j = after.find("\x1b[0m").expect("closed span");
        rest = &after[j + 4..];
    }
    out.push_str(rest);
    out
}

#[test]
fn stripping_deletes_what_coloring_dims() {
    let ds = vec![delim("<think>", "</think>"), delim("<r>", "</r>")];
    for text in ["a</think>b<think>c</think>d", "x<r>y", "<r>1</r>2<think>3", "plain", ""] {
        let colored = color_thinking(text, &ds);
        assert_eq!(strip_thinking_text(text, &ds), delete_dimmed_spans(&colored));
        assert!(strip_thinking_text(text, &ds).len() <= text.len());
        let opens = colored.matches("\x1b[2m").count();
        let closes = colored.matches("\x1b[0m").count();
        assert_eq!(opens, closes);
    }
}
