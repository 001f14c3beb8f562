use rust_vyper::asdl::ast::{Count, Definition, Field, Module, Type};
use rust_vyper::asdl::parsers::{
    char_token, is_symbol_char, is_symbol_start, parse_definition, parse_field, parse_fields,
    parse_module, symbol, symbol_token, tag_token,
};

#[test]
fn symbol_takes_the_longest_run() {
    assert_eq!(symbol("foo bar"), Ok((" bar", "foo")));
    assert_eq!(symbol("_x9+"), Ok(("+", "_x9")));
    assert!(symbol("9foo").is_err());
    assert!(symbol("").is_err());
}

#[test]
fn symbol_token_eats_trailing_whitespace() {
    assert_eq!(symbol_token("foo   bar"), Ok(("bar", "foo")));
    assert_eq!(symbol_token("foo"), Ok(("", "foo")));
}

#[test]
fn char_and_tag_tokens() {
    assert_eq!(char_token('{', "{  x"), Ok(("x", '{')));
    assert!(char_token('{', "x").is_err());
    assert_eq!(tag_token("module", "module  Python"), Ok(("Python", "module")));
    assert!(tag_token("module", "mod").is_err());
}

#[test]
fn symbol_character_classes() {
    assert!(is_symbol_start('_') && is_symbol_start('a') && is_symbol_start('Z'));
    assert!(!is_symbol_start('9') && !is_symbol_start(' '));
    assert!(is_symbol_char('9') && is_symbol_char('_'));
    assert!(!is_symbol_char('*'));
}

#[test]
fn field_reads_definition_mark_and_name() {
    let (rest, f) = parse_field("int*col, rest").unwrap();
    assert_eq!(f, Field { name: "col", definition: "int", count: Count::One });
    assert_eq!(rest, ", rest");

    // The count mark is required.
    assert!(parse_field("int col").is_err());
}

#[test]
fn fields_require_at_least_one_entry() {
    let (rest, fs) = parse_fields("(int*col, int?row) x").unwrap();
    assert_eq!(
        fs,
        vec![
            Field { name: "col", definition: "int", count: Count::One },
            Field { name: "row", definition: "int", count: Count::One },
        ]
    );
    assert_eq!(rest, "x");

    assert!(parse_fields("()").is_err());
}

#[test]
fn definition_builds_a_product() {
    let (rest, d) = parse_definition("mod = (int*col)").unwrap();
    assert_eq!(rest, "");
    assert_eq!(
        d,
        Definition {
            name: "mod",
            value: Type::Product {
                fields: vec![Field { name: "col", definition: "int", count: Count::One }],
                attributes: vec![],
            },
        }
    );
}

#[test]
fn module_parses_its_definitions() {
    let src = "\nmodule Python\n{\n    mod = (int*col, int?row)\n}\n";
    let (rest, m) = parse_module(src).unwrap();
    assert_eq!(rest, "");
    assert_eq!(
        m,
        Module {
            name: "Python",
            definitions: vec![Definition {
                name: "mod",
                value: Type::Product {
                    fields: vec![
                        Field { name: "col", definition: "int", count: Count::One },
                        Field { name: "row", definition: "int", count: Count::One },
                    ],
                    attributes: vec![],
                },
            }],
        }
    );
}

#[test]
fn module_keyword_needs_following_whitespace() {
    assert!(parse_module("modulePython { }").is_err());
    assert!(parse_module("module Python ( )").is_err());
}
