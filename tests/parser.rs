use scarab::parser::{parse_implicit_form_list, parse_value, Error, PositionMap};
use scarab::value::Value;

fn try_parse_display(input: &str) -> Result<String, String> {
    parse_value(input)
        .map(|(v, _)| v.display())
        .map_err(|e| format!("{:?}", e))
}

fn contains_in_order(text: &str, parts: &[&str]) -> bool {
    let mut rest = text;
    for p in parts {
        match rest.find(p) {
            Some(i) => rest = &rest[i + p.len()..],
            None => return false,
        }
    }
    true
}

fn collect(v: &Value, m: Option<&PositionMap>, out: &mut Vec<((usize, usize), String)>) {
    let m = match m {
        Some(m) => m,
        None => return,
    };
    if let Some(p) = m.get() {
        out.push((*p, v.display()));
    }
    match v {
        Value::Cell(l, r) => {
            collect(l, m.first(), out);
            collect_spine(r, m.rest(), out);
        }
        Value::Quoted(inner) => collect(inner, m.first(), out),
        _ => {}
    }
}

fn collect_spine(v: &Value, m: Option<&PositionMap>, out: &mut Vec<((usize, usize), String)>) {
    let m = match m {
        Some(m) => m,
        None => return,
    };
    if let Value::Cell(l, r) = v {
        collect(l, m.first(), out);
        collect_spine(r, m.rest(), out);
    }
}

fn display_positions(parsed: Result<(Value, PositionMap), Error>, top: bool) -> String {
    let (v, m) = parsed.unwrap();
    let mut entries = Vec::new();
    if top {
        collect_spine(&v, Some(&m), &mut entries);
    } else {
        collect(&v, Some(&m), &mut entries);
    }
    entries.sort();
    let lines: Vec<String> = entries
        .into_iter()
        .map(|((l, c), k)| format!("    ({}, {}): {}", l, c, k))
        .collect();
    format!("{{\n{}\n}}", lines.join(",\n"))
}

#[test]
fn empty_parse_fails() {
    assert!(try_parse_display("").unwrap_err().contains("Eof"));
}

#[test]
fn unexpected_tokens_fail() {
    let e = try_parse_display(")").unwrap_err();
    assert!(contains_in_order(&e, &["Unexpected", "RParen"]), "{}", e);
}

#[test]
fn single_values() {
    assert_eq!(try_parse_display("123").unwrap(), "123");
    assert_eq!(try_parse_display("\"abc\"").unwrap(), "\"abc\"");
    assert_eq!(try_parse_display("blah").unwrap(), "blah");
    assert_eq!(try_parse_display("nil").unwrap(), "nil");
    assert_eq!(try_parse_display("true").unwrap(), "true");
    assert_eq!(try_parse_display("false").unwrap(), "false");
}

#[test]
fn quoted_values() {
    assert_eq!(try_parse_display("'abc").unwrap(), "'abc");
    assert_eq!(try_parse_display("''123").unwrap(), "''123");
    assert_eq!(try_parse_display("'(1 2 3))").unwrap(), "'(1 2 3)");
}

#[test]
fn simple_list() {
    assert_eq!(try_parse_display("(+ 123 456))").unwrap(), "(+ 123 456)");
}

#[test]
fn simple_list_containing_newline() {
    assert_eq!(try_parse_display("(+ 123\n456))").unwrap(), "(+ 123 456)");
}

#[test]
fn list_ending_after_newline() {
    assert_eq!(try_parse_display("(1\n)").unwrap(), "(1)");
}

#[test]
fn nested_list() {
    assert_eq!(try_parse_display("(+ ((-)) 123) 456)").unwrap(), "(+ ((-)) 123)");
}

#[test]
fn simple_operator_list() {
    assert_eq!(try_parse_display("[1 + 2 + 'a]").unwrap(), "(+ 1 2 'a)");
}

#[test]
fn mismatched_operator_list() {
    assert!(try_parse_display("[1 + 2 * 3]")
        .unwrap_err()
        .contains("MismatchedOperatorList"));
}

#[test]
fn single_line_form_list() {
    assert_eq!(try_parse_display("{a b; c d; 1}").unwrap(), "((a b) (c d) (1))");
}

#[test]
fn multi_line_form_list() {
    assert_eq!(
        try_parse_display(
            "{
                    d c 1
                    e f \"yo\"
                }"
        )
        .unwrap(),
        "((d c 1) (e f \"yo\"))"
    );
}

#[test]
fn unterminated_lists() {
    assert!(try_parse_display("(1 2").unwrap_err().contains("UnterminatedList"));
    assert!(try_parse_display("[1 + 2").unwrap_err().contains("UnterminatedList"));
    assert!(try_parse_display("{a c, d").unwrap_err().contains("UnterminatedList"));
}

#[test]
fn tokenize_errors_passed_through() {
    let e = try_parse_display("\"abc").unwrap_err();
    assert!(contains_in_order(&e, &["Tokenize", "String"]), "{}", e);
    let e = try_parse_display("(\"abc").unwrap_err();
    assert!(contains_in_order(&e, &["Tokenize", "String"]), "{}", e);
}

#[test]
fn multi_line_implicit_form_list() {
    let (v, _) = parse_implicit_form_list(
        "
                        d c 1

                        e f \"yo\"
                    ",
    )
    .unwrap();
    assert_eq!(v.display(), "((d c 1) (e f \"yo\"))");
}

#[test]
fn multi_line_implicit_form_list_cannot_end_with_brace() {
    let e = format!("{:?}", parse_implicit_form_list("d c 1}").unwrap_err());
    assert!(contains_in_order(&e, &["UnexpectedToken", "Brace"]), "{}", e);
}

#[test]
fn single_value_saves_position() {
    assert_eq!(
        display_positions(parse_value("123"), false),
        "{\n    (1, 1): 123\n}"
    );
}

#[test]
fn list_saves_positions() {
    assert_eq!(
        display_positions(parse_value("(\"a\" b 1 (c 1))"), false),
        "{\n    (1, 1): (\"a\" b 1 (c 1)),\n    (1, 2): \"a\",\n    (1, 6): b,\n    (1, 8): 1,\n    (1, 10): (c 1),\n    (1, 11): c,\n    (1, 13): 1\n}"
    );
}

#[test]
fn operator_list_saves_positions() {
    assert_eq!(
        display_positions(parse_value("[1 + 2 + 4]"), false),
        "{\n    (1, 1): (+ 1 2 4),\n    (1, 2): 1,\n    (1, 4): +,\n    (1, 6): 2,\n    (1, 10): 4\n}"
    );
}

#[test]
fn form_list_saves_positions() {
    assert_eq!(
        display_positions(parse_value("{a b; def d}"), false),
        "{\n    (1, 1): ((a b) (def d)),\n    (1, 2): (a b),\n    (1, 2): a,\n    (1, 4): b,\n    (1, 7): (def d),\n    (1, 7): def,\n    (1, 11): d\n}"
    );
}

#[test]
fn implicit_form_list_saves_positions() {
    assert_eq!(
        display_positions(parse_implicit_form_list("a b\ndef d"), true),
        "{\n    (1, 1): (a b),\n    (1, 1): a,\n    (1, 3): b,\n    (2, 1): (def d),\n    (2, 1): def,\n    (2, 5): d\n}"
    );
}

#[test]
fn display_then_parse_gives_the_value_back() {
    for text in ["(1 (2 abc) nil true (false -4))", "()", "(a (b (c)) d)", "-17", "-9223372036854775808"] {
        let (v, _) = parse_value(text).unwrap();
        let (again, _) = parse_value(&v.display()).unwrap();
        assert_eq!(again.display(), v.display());
        assert_eq!(format!("{:?}", again), format!("{:?}", v));
    }
}
