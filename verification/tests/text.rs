use ai::text::{chars_of, find_from, is_blank, is_whitespace, owned, string_of, text_eq, trim};

#[test]
fn trim_removes_unicode_whitespace() {
    assert_eq!(trim("  \u{3000}a b\n\t"), "a b");
    assert_eq!(trim("\u{85}x\u{a0}"), "x");
    assert_eq!(trim("   "), "");
    assert_eq!(trim(""), "");
    assert_eq!(trim("a"), "a");
}

#[test]
fn trim_matches_std() {
    for s in ["  x  ", "\u{2028}y\u{2029}", "z\u{200B}", " \u{1680}w\u{180E}"] {
        assert_eq!(trim(s), s.trim());
    }
}

#[test]
fn whitespace_matches_std() {
    for c in ['\t', '\n', '\u{b}', '\u{c}', '\r', ' ', '\u{85}', '\u{a0}', '\u{1680}', '\u{2000}', '\u{200a}', '\u{2028}', '\u{2029}', '\u{202f}', '\u{205f}', '\u{3000}', 'a', '\u{200b}', '\u{180e}', '\u{feff}'] {
        assert_eq!(is_whitespace(c), c.is_whitespace(), "{:?}", c);
    }
}

#[test]
fn blank_texts() {
    assert!(is_blank(""));
    assert!(is_blank(" \n\t"));
    assert!(!is_blank(" a "));
}

#[test]
fn find_positions() {
    let text = chars_of("abcabc");
    let pat = chars_of("bc");
    assert_eq!(find_from(&text, &pat, 0), Some(1));
    assert_eq!(find_from(&text, &pat, 2), Some(4));
    assert_eq!(find_from(&text, &pat, 5), None);
    assert_eq!(find_from(&text, &chars_of(""), 3), Some(3));
    assert_eq!(find_from(&text, &chars_of("abcabcd"), 0), None);
}

#[test]
fn text_equality_and_copies() {
    assert!(text_eq("héllo", "héllo"));
    assert!(!text_eq("hello", "hell"));
    assert!(!text_eq("hello", "hellp"));
    assert_eq!(owned("ü"), "ü");
    assert_eq!(string_of(&chars_of("héllo"), 1, 3), "él");
}
