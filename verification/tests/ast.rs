use rust_vyper::ast::{Operator, Span, Spanned, UnaryOp};
use rust_vyper::errors::{ParseError, PResult, Reason};
use rust_vyper::traits::Input;

#[test]
fn operator_from_string() {
    assert_eq!(Operator::try_from("+"), Ok(Operator::Add));
    assert_eq!(Operator::try_from("**"), Ok(Operator::Pow));
    assert_eq!(Operator::try_from("<<"), Ok(Operator::LShift));
    assert_eq!(Operator::try_from("&"), Ok(Operator::BitAnd));
    assert_eq!(Operator::try_from("//"), Err("unrecognized binary operator string"));
    assert_eq!(Operator::try_from(""), Err("unrecognized binary operator string"));
}

#[test]
fn unary_op_from_string() {
    assert_eq!(UnaryOp::try_from("~"), Ok(UnaryOp::Invert));
    assert_eq!(UnaryOp::try_from("not"), Ok(UnaryOp::Not));
    assert_eq!(UnaryOp::try_from("x"), Err("unrecognized unary operator string"));
}

#[test]
fn spanned_from_pairs_a_node_with_its_span() {
    let sp: Spanned<u32> = Spanned::from((7u32, Span { start: 2, end: 5 }));
    assert_eq!(sp.node, 7);
    assert_eq!(sp.span, Span { start: 2, end: 5 });
}

#[test]
fn error_constructors_classify_failures() {
    let e: PResult<(), &str, String> = ParseError::error("in", "ctx".to_string());
    let es = e.unwrap_err();
    assert_eq!(es.len(), 1);
    assert_eq!(es[0].reason, Reason::Error);
    assert_eq!(es[0].input, "in");
    assert_eq!(es[0].context, Some("ctx".to_string()));

    let f: PResult<(), &str, String> = ParseError::failure("in", "ctx".to_string());
    assert_eq!(f.unwrap_err()[0].reason, Reason::Failure);

    let eof: PResult<(), &str, String> = ParseError::eof("in");
    let eofs = eof.unwrap_err();
    assert_eq!(eofs[0].reason, Reason::Eof);
    assert_eq!(eofs[0].context, None);
}

#[test]
fn string_input_capabilities() {
    let s = "a\u{e9}b";
    assert_eq!(s.input_len(), 3);
    assert_eq!(s.iter_elements(), vec!['a', '\u{e9}', 'b']);
    assert_eq!(s.iter_indices(), vec![(0, 'a'), (1, '\u{e9}'), (2, 'b')]);
    assert_eq!(s.item_at(1), '\u{e9}');
    assert_eq!(s.position(|c: char| c == 'b'), Some(2));
    assert_eq!(s.position(|c: char| c == 'z'), None);
    assert_eq!(s.slice_index(2), Some(2));
    assert_eq!(s.slice_index(4), None);
    assert_eq!(s.take_first(2), "a\u{e9}");
    assert_eq!(s.take_last(2), "b");
    assert_eq!(s.take_split(1), ("\u{e9}b", "a"));
    assert!(<&str as Input>::item_eq(&'x', &'x'));
    assert!(!<&str as Input>::item_eq(&'x', &'y'));
    assert_eq!(<&str as Input>::format_expected(&'q'), "expected 'q'".to_string());
}
