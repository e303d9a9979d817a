use scarab::types::Type;
use scarab::value::{identifier, ContextMap, Error, Value};

fn b(v: Value) -> Box<Value> {
    Box::new(v)
}

fn integer(i: i64) -> Value {
    Value::Integer(i)
}

fn id(s: &str) -> Value {
    Value::Identifier(identifier(s))
}

fn string(s: &str) -> Value {
    Value::String(s.to_string())
}

fn quoted(v: Value) -> Value {
    Value::Quoted(b(v))
}

fn list(items: Vec<Value>) -> Value {
    let mut acc = Value::Nil;
    for v in items.into_iter().rev() {
        acc = Value::Cell(b(v), b(acc));
    }
    acc
}

#[test]
fn nil_display() {
    assert_eq!(Value::Nil.display(), "nil");
}

#[test]
fn nil_macro() {
    assert_eq!(Value::Nil, list(vec![]));
}

#[test]
fn boolean_display() {
    assert_eq!(Value::Boolean(true).display(), "true");
}

#[test]
fn boolean_macro() {
    assert_eq!(Value::Boolean(false), Value::Boolean(false));
    assert_eq!(Value::Boolean(true), Value::Boolean(true));
    assert_ne!(Value::Boolean(true), Value::Boolean(false));
}

#[test]
fn string_display() {
    assert_eq!(string("abc").display(), "\"abc\"");
}

#[test]
fn string_macro() {
    assert_eq!(Value::String("abc".to_string()), string("abc"));
}

#[test]
fn identifier_display() {
    assert_eq!(id("abc").display(), "abc");
}

#[test]
fn identifier_macro() {
    assert_eq!(Value::Identifier("abc".to_string()), id("abc"));
    assert_eq!(Value::Identifier("+".to_string()), id("+"));
    assert_eq!(Value::Identifier("<".to_string()), id("<"));
}

#[test]
fn integer_display() {
    assert_eq!(integer(4567).display(), "4567");
    assert_eq!(integer(-90).display(), "-90");
    assert_eq!(integer(i64::MIN).display(), "-9223372036854775808");
}

#[test]
fn integer_macro() {
    assert_eq!(Value::Integer(4567), integer(4567));
}

#[test]
fn quoted_display() {
    assert_eq!(quoted(integer(4567)).display(), "'4567");
    assert_eq!(quoted(id("abc")).display(), "'abc");
}

#[test]
fn quoted_macro() {
    assert_eq!(Value::Quoted(b(Value::Integer(4567))), quoted(integer(4567)));
    assert_eq!(Value::Quoted(b(Value::Identifier("abc".to_string()))), quoted(id("abc")));
}

#[test]
fn cell_display() {
    assert_eq!(Value::Cell(b(integer(4567)), b(Value::Nil)).display(), "(4567)");
    assert_eq!(
        Value::Cell(
            b(integer(123)),
            b(Value::Cell(b(id("abc")), b(Value::Cell(b(string("def")), b(Value::Nil)))))
        )
        .display(),
        "(123 abc \"def\")"
    );
}

#[test]
fn improper_list_display() {
    assert_eq!(Value::Cell(b(integer(1)), b(integer(2))).display(), "(1 . 2)");
}

#[test]
fn cell_macro() {
    assert_eq!(Value::Cell(b(integer(4567)), b(Value::Nil)), list(vec![integer(4567)]));
    assert_eq!(
        Value::Cell(
            b(integer(123)),
            b(Value::Cell(b(id("abc")), b(Value::Cell(b(string("def")), b(Value::Nil)))))
        ),
        list(vec![integer(123), id("abc"), string("def")])
    );
    assert_eq!(
        Value::Cell(
            b(integer(123)),
            b(Value::Cell(
                b(Value::Cell(b(id("def")), b(Value::Nil))),
                b(Value::Cell(b(string("def")), b(Value::Nil)))
            ))
        ),
        list(vec![integer(123), list(vec![id("def")]), string("def")])
    );
}

#[test]
fn quoted_in_cell() {
    assert_eq!(
        Value::Quoted(b(Value::Cell(
            b(integer(123)),
            b(Value::Cell(
                b(Value::Quoted(b(Value::Cell(
                    b(id("def")),
                    b(Value::Cell(b(Value::Quoted(b(integer(123)))), b(Value::Nil)))
                )))),
                b(Value::Cell(
                    b(Value::Cell(
                        b(Value::Quoted(b(integer(123)))),
                        b(Value::Cell(
                            b(Value::Cell(b(Value::Quoted(b(string("def")))), b(Value::Nil))),
                            b(Value::Nil)
                        ))
                    )),
                    b(Value::Nil)
                ))
            ))
        ))),
        quoted(list(vec![
            integer(123),
            quoted(list(vec![id("def"), quoted(integer(123))])),
            list(vec![quoted(integer(123)), list(vec![quoted(string("def"))])]),
        ]))
    );
}

#[test]
fn iter_list_gives_items_for_valid_list() {
    let v = list(vec![integer(1), string("a"), list(vec![integer(2), integer(3)])]);
    let items: Vec<String> = v.iter_list().into_iter().map(|x| x.unwrap().display()).collect();
    assert_eq!(items.join(", "), "1, \"a\", (2 3)");
}

#[test]
fn iter_list_fails_for_non_lists() {
    let v = integer(1);
    let items = v.iter_list();
    assert_eq!(items.len(), 1);
    assert_eq!(items[0], Err(Error::ExpectedType(Type::Cell, Type::Integer)));
    assert!(format!("{:?}", items[0]).contains("ExpectedType"));
}

#[test]
fn iter_list_fails_for_invalid_lists() {
    let l = Value::Cell(b(integer(4)), b(string("a")));
    let items = l.iter_list();
    assert_eq!(items[0], Ok(&integer(4)));
    let e = format!("{:?}", items[1]);
    assert!(e.contains("ExpectedType") && e.contains("String"), "{}", e);
}

#[test]
fn list_items_and_accessors() {
    let l = list(vec![id("x"), integer(2)]);
    assert_eq!(l.list_items().unwrap().len(), 2);
    assert!(l.is_cell() && !l.is_nil());
    let (head, _) = l.try_as_cell().unwrap();
    assert_eq!(head.try_as_identifier().unwrap(), "x");
    assert_eq!(integer(5).try_as_integer(), Ok(5));
    assert!(integer(5).try_as_identifier().is_err());
    assert!(Value::Cell(b(integer(1)), b(integer(2))).list_items().is_err());
    assert_eq!(l.duplicate(), l);
}

#[test]
fn context_map_entries() {
    let mut m: ContextMap<(usize, usize)> = ContextMap::new();
    assert_eq!(m.get(), None);
    assert_eq!(m.insert((1, 2)), None);
    assert_eq!(m.insert((3, 4)), Some((1, 2)));
    assert_eq!(m.get(), Some(&(3, 4)));
    let mut first = ContextMap::new();
    first.insert((5, 6));
    let n = ContextMap::node(first, ContextMap::new());
    assert_eq!(n.get(), None);
    assert_eq!(n.first().unwrap().get(), Some(&(5, 6)));
    assert_eq!(n.rest().unwrap().get(), None);
}
