use rust_vyper::errors::ParseError;
use rust_vyper::parsers::{item, take, take_while};

#[test]
fn test_char() {
    // Success
    assert_eq!(item('c', "c"), Ok(('c', "")));

    // Char not found
    assert_eq!(item('c', "d"), ParseError::error("d", "expected 'c'".to_string()));

    // EOF
    assert_eq!(item('c', ""), ParseError::eof(""));
}

#[test]
fn test_take() {
    // Success
    assert_eq!(take(4, "asdf"), Ok(("asdf", "")));
    assert_eq!(take(4, "asdfzxcv"), Ok(("asdf", "zxcv")));

    // Not enough input
    assert_eq!(take(4, "c"), ParseError::error("c", "expected at least 4 chars".to_string()));

    // EOF
    assert_eq!(take(4, ""), ParseError::eof(""));
}

#[test]
fn test_take_while() {
    // Success
    assert_eq!(
        take_while(|c: char| c.is_ascii_alphabetic(), "expected alphabetic chars", "asdfASDF1234"),
        Ok(("asdfASDF", "1234"))
    );

    // Expected chars
    assert_eq!(
        take_while(|c: char| c.is_ascii_alphabetic(), "expected alphabetic chars", "1234"),
        ParseError::error("1234", "expected alphabetic chars".to_string()),
    );

    // EOF
    assert_eq!(
        take_while(|c: char| c.is_ascii_alphabetic(), "expected alphabetic chars", ""),
        ParseError::eof("")
    );
}

#[test]
fn scratch() {
    let _s = &"asdf".to_string();
}

#[test]
fn take_while_full_match_is_not_an_error() {
    // An input that is matched entirely ends with an empty remainder.
    assert_eq!(
        take_while(|c: char| c.is_ascii_alphabetic(), "expected alphabetic chars", "abc"),
        Ok(("abc", ""))
    );
}

#[test]
fn take_zero_on_nonempty_input() {
    assert_eq!(take(0, "xy"), Ok(("", "xy")));
}

#[test]
fn empty_input_is_always_eof() {
    // Exhausted input is reported as Eof whatever was asked for, so that
    // callers can tell "ran out of text" from "wrong text".
    assert_eq!(take(0, ""), ParseError::eof(""));
    assert_eq!(
        take_while(|_c: char| true, "anything", ""),
        ParseError::eof("")
    );
}

#[test]
fn item_leaves_the_remainder() {
    assert_eq!(item('c', "cd"), Ok(('c', "d")));
    assert_eq!(item('\u{e9}', "\u{e9}xy"), Ok(('\u{e9}', "xy")));
}
