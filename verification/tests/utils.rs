use rust_vyper::utils::{char_offset, len_chars, split_bytes, split_chars, str_eq, take_chars};

#[test]
fn char_offset_counts_bytes_of_multibyte_text() {
    // 'a' is one byte, '\u{e9}' two, '\u{20ac}' three.
    let s = "a\u{e9}\u{20ac}";
    assert_eq!(char_offset(s, 0), Some(0));
    assert_eq!(char_offset(s, 1), Some(1));
    assert_eq!(char_offset(s, 2), Some(3));
    assert_eq!(char_offset(s, 3), Some(6));
    assert_eq!(char_offset(s, 4), None);
}

#[test]
fn len_chars_counts_characters_not_bytes() {
    assert_eq!(len_chars("a\u{e9}\u{20ac}"), 3);
    assert_eq!(len_chars(""), 0);
}

#[test]
fn take_chars_returns_the_prefix() {
    let s = "a\u{e9}\u{20ac}";
    assert_eq!(take_chars(s, 2), Some("a\u{e9}"));
    assert_eq!(take_chars(s, 0), Some(""));
    assert_eq!(take_chars(s, 4), None);
}

#[test]
fn split_chars_returns_suffix_then_prefix() {
    let s = "a\u{e9}\u{20ac}";
    assert_eq!(split_chars(s, 1), Some(("\u{e9}\u{20ac}", "a")));
    assert_eq!(split_chars(s, 9), None);
}

#[test]
fn split_bytes_splits_at_a_character_boundary() {
    let s = "a\u{e9}\u{20ac}";
    assert_eq!(split_bytes(s, 3), ("\u{20ac}", "a\u{e9}"));
    assert_eq!(split_bytes(s, 0), (s, ""));
}

#[test]
fn str_eq_compares_characters() {
    assert!(str_eq("abc", "abc"));
    assert!(!str_eq("abc", "abd"));
    assert!(!str_eq("abc", "ab"));
    assert!(str_eq("", ""));
}
