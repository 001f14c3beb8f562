use rust_vyper::ast::Span;
use rust_vyper::parser::{Rule, VyperParser};

#[test]
fn parse_good_imports() {
    let examples = vec![
        "import foo",
        "import foo as bar",
        "from foo import bar",
        "from foo import bar as baz",
        "from foo import ( bar as baz, david as boaty )",
        "from foo import (bar as baz, david as boaty)",
        "import .foo",
        "import ..foo",
    ];

    for e in examples {
        VyperParser::parse(Rule::import, e).unwrap();
    }
}

#[test]
fn parse_bad_imports() {
    let examples = vec!["import 2foo", "import! 2foo", "import! 2foo", "import ...foo"];

    for e in examples {
        let result = VyperParser::parse(Rule::import, e);

        if let Ok(_) = result {
            panic!("parsing unexpectedly succeeded: {:?}", result);
        }
    }
}

#[test]
fn parse_good_symbols() {
    let examples = vec!["foo", "_foo", "camelCase", "snake_case", "TitleCase", "__dunder"];

    for e in examples {
        VyperParser::parse(Rule::symbol, e).unwrap();
    }
}

#[test]
fn parse_bad_symbols() {
    let examples = vec!["3foo", "", "4_this_symbol"];

    for e in examples {
        let result = VyperParser::parse(Rule::symbol, e);

        if let Ok(_) = result {
            panic!("parsing unexpectedly succeeded: {:?}", result);
        }
    }
}

#[test]
fn symbol_match_spans() {
    // A symbol match covers exactly the symbol's characters.
    let sp = VyperParser::parse(Rule::symbol, "foo bar").unwrap();
    assert_eq!(sp.node, Rule::symbol);
    assert_eq!(sp.span, Span { start: 0, end: 3 });
}

#[test]
fn import_match_spans() {
    let sp = VyperParser::parse(Rule::import, "import foo\nimport bar").unwrap();
    assert_eq!(sp.span, Span { start: 0, end: 10 });

    let sp = VyperParser::parse(Rule::import, "from foo import bar as baz # rest").unwrap();
    assert_eq!(sp.span, Span { start: 0, end: 26 });
}

#[test]
fn module_consumes_all_statements() {
    let src = "\nimport foo\nimport bar\n";
    let sp = VyperParser::parse(Rule::module, src).unwrap();
    assert_eq!(sp.span, Span { start: 0, end: src.chars().count() });

    let multi = "from foo import (\n    bar as b,\n    baz as z,\n)\n";
    let sp = VyperParser::parse(Rule::module, multi).unwrap();
    assert_eq!(sp.span.end, multi.chars().count());
}

#[test]
fn module_rejects_trailing_garbage() {
    let result = VyperParser::parse(Rule::module, "import foo\n!!!\n");
    assert!(result.is_err());
}

#[test]
fn failure_reports_line_and_column() {
    // The failing cursor inside the error points at the offending line.
    let result = VyperParser::parse(Rule::module, "import foo\nimport 2foo\n");
    let err = result.unwrap_err();
    assert_eq!(err.input.line, 2);
}
