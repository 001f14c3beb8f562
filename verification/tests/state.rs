use rust_vyper::internals::{IResult, ParseError, Reason, State};

#[test]
fn from_str_starts_at_line_one_column_one() {
    let st = State::from_str("abc");
    assert_eq!(st.source, "abc");
    assert_eq!(st.input, "abc");
    assert_eq!(st.position, 0);
    assert_eq!(st.line, 1);
    assert_eq!(st.column, 1);
}

#[test]
fn from_str_n_advances() {
    let st = State::from_str_n("abcdef", 2);
    assert_eq!(st.input, "cdef");
    assert_eq!(st.position, 2);
    assert_eq!(st.line, 1);
    assert_eq!(st.column, 3);
}

#[test]
fn advance_tracks_lines_and_columns() {
    let st = State::from_str("ab\ncd").advance(4);
    assert_eq!(st.input, "d");
    assert_eq!(st.position, 4);
    assert_eq!(st.line, 2);
    assert_eq!(st.column, 2);
}

#[test]
fn advance_is_additive() {
    // Advancing by 2 and then 3 equals advancing by 5 in one step.
    let src = "a\rb\ncd\ne";
    let two_steps = State::from_str(src).advance(2).advance(3);
    let one_step = State::from_str(src).advance(5);
    assert_eq!(two_steps, one_step);
}

#[test]
fn newline_moves_to_line_two_column_one() {
    // Carriage returns before the newline do not disturb the count.
    let st = State::from_str("x\r\ny").advance(3);
    assert_eq!(st.line, 2);
    assert_eq!(st.column, 1);
}

#[test]
fn carriage_return_leaves_column_alone() {
    let st = State::from_str("a\rb").advance(3);
    assert_eq!(st.line, 1);
    assert_eq!(st.column, 3);
}

#[test]
fn advance_never_splits_multibyte_characters() {
    // Two, three and four byte characters: every remainder is valid text.
    let src = "a\u{e9}\u{20ac}\u{1f600}b";
    for n in 0..=5 {
        let st = State::from_str(src).advance(n);
        assert_eq!(st.input, src.chars().skip(n).collect::<String>());
    }
}

#[test]
fn advance_to_end_consumes_everything() {
    let st = State::from_str("ab\ncd").advance(1).advance_to_end();
    assert_eq!(st.input, "");
    assert_eq!(st.position, 5);
    assert_eq!(st.line, 2);
    assert_eq!(st.column, 3);
}

#[test]
fn error_constructors_build_the_reported_reason() {
    let r: IResult<&str, ()> = ParseError::make_return("rest", "why".to_string());
    assert_eq!(r, Err(ParseError { input: "rest", reason: Reason::Return("why".to_string()) }));

    let x: IResult<&str, ()> = ParseError::make_exit("rest", "bad".to_string());
    assert_eq!(x, Err(ParseError { input: "rest", reason: Reason::Exit("bad".to_string()) }));

    let e: IResult<&str, ()> = ParseError::make_eof("rest");
    assert_eq!(e, Err(ParseError { input: "rest", reason: Reason::Eof }));
}

#[test]
fn run_applies_a_parser_to_a_fresh_cursor() {
    let r = rust_vyper::parsers::run(|st: State| st.item('a'), "ab");
    let (st2, c) = r.unwrap();
    assert_eq!(c, 'a');
    assert_eq!(st2.input, "b");
    assert_eq!(st2.line, 1);
    assert_eq!(st2.column, 2);

    let composed = rust_vyper::parsers::run(
        |st: State| {
            let (st, _) = st.item('a')?;
            st.take_while(|c: char| c.is_ascii_digit(), "expected digits")
        },
        "a123!",
    );
    let (st2, digits) = composed.unwrap();
    assert_eq!(digits, "123");
    assert_eq!(st2.input, "!");
}

#[test]
fn cursor_item_matches_one_character() {
    let st = State::from_str("cd");
    let (st2, c) = st.item('c').unwrap();
    assert_eq!(c, 'c');
    assert_eq!(st2.input, "d");

    let err = State::from_str("d").item('c').unwrap_err();
    assert_eq!(err.reason, Reason::Return("expected 'c'".to_string()));

    let eof = State::from_str("").item('c').unwrap_err();
    assert_eq!(eof.reason, Reason::Eof);
}

#[test]
fn cursor_take_returns_the_consumed_text() {
    let st = State::from_str("asdfzxcv");
    let (st2, prefix) = st.take(4).unwrap();
    assert_eq!(prefix, "asdf");
    assert_eq!(st2.input, "zxcv");

    let err = State::from_str("c").take(4).unwrap_err();
    assert_eq!(err.reason, Reason::Return("expected at least 4 chars".to_string()));

    let eof = State::from_str("").take(4).unwrap_err();
    assert_eq!(eof.reason, Reason::Eof);
}

#[test]
fn cursor_take_while_stops_at_the_first_mismatch() {
    let st = State::from_str("ab1\ncd");
    let (st2, prefix) = st.take_while(|c: char| c.is_ascii_alphabetic(), "letters").unwrap();
    assert_eq!(prefix, "ab");
    assert_eq!(st2.position, 2);
    assert_eq!(st2.column, 3);

    let err = State::from_str("1a").take_while(|c: char| c.is_ascii_alphabetic(), "letters");
    assert_eq!(err.unwrap_err().reason, Reason::Return("letters".to_string()));

    let eof = State::from_str("").take_while(|c: char| c.is_ascii_alphabetic(), "letters");
    assert_eq!(eof.unwrap_err().reason, Reason::Eof);
}
