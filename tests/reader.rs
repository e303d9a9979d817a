use scarab::reader::Reader;
use scarab::source::ResultAt;
use scarab::tokenizer::{tokenize, Error, Token};

fn reader(text: &str) -> Reader {
    Reader::new(tokenize(text.chars().collect()))
}

/// Three integers, then a character that fails.
fn fails_at_fourth() -> Reader {
    reader("1 2 3 \x07")
}

/// Three integers, then the end.
fn ends_at_fourth() -> Reader {
    reader("1 2 3")
}

fn number(t: &Token) -> i64 {
    match t {
        Token::Integer(i) => *i,
        _ => panic!("not an integer"),
    }
}

#[test]
fn input_next_gives_peeked() {
    let mut input = ends_at_fourth();
    assert_eq!(input.next(), ResultAt::OkAt(Token::Integer(1), (1, 1)));
    assert_eq!(input.peek(), &ResultAt::OkAt(Token::Integer(2), (1, 3)));
    assert_eq!(input.peek(), &ResultAt::OkAt(Token::Integer(2), (1, 3)));
    assert_eq!(input.next(), ResultAt::OkAt(Token::Integer(2), (1, 3)));
}

#[test]
fn iter_gives_result_ats() {
    assert_eq!(
        fails_at_fourth().iter(),
        vec![
            ResultAt::OkAt(Token::Integer(1), (1, 1)),
            ResultAt::OkAt(Token::Integer(2), (1, 3)),
            ResultAt::OkAt(Token::Integer(3), (1, 5)),
            ResultAt::ErrAt(Error::UnexpectedChar('\x07'), (1, 7)),
        ]
    );
    assert_eq!(
        ends_at_fourth().iter(),
        vec![
            ResultAt::OkAt(Token::Integer(1), (1, 1)),
            ResultAt::OkAt(Token::Integer(2), (1, 3)),
            ResultAt::OkAt(Token::Integer(3), (1, 5)),
            ResultAt::NoneAt((1, 6)),
        ]
    );
}

#[test]
fn iter_results_gives_inner_results() {
    assert_eq!(
        fails_at_fourth().iter_results(),
        vec![
            Ok(Token::Integer(1)),
            Ok(Token::Integer(2)),
            Ok(Token::Integer(3)),
            Err(Error::UnexpectedChar('\x07')),
        ]
    );
    assert_eq!(
        ends_at_fourth().iter_results(),
        vec![Ok(Token::Integer(1)), Ok(Token::Integer(2)), Ok(Token::Integer(3))]
    );
}

#[test]
fn items_while_successful_gives_inner_values() {
    let items: Vec<i64> = fails_at_fourth().items_while_successful().iter().map(number).collect();
    assert_eq!(items, vec![1, 2, 3]);
}

#[test]
fn items_while_successful_if_gives_inner_values() {
    let items: Vec<i64> = fails_at_fourth()
        .items_while_successful_if(|t: &Token| number(t) < 3)
        .iter()
        .map(number)
        .collect();
    assert_eq!(items, vec![1, 2]);
}

#[test]
fn items_while_successful_if_leaves_peeked() {
    let mut input = fails_at_fourth();
    input.items_while_successful_if(|t: &Token| number(t) < 3);
    assert_eq!(input.next(), ResultAt::OkAt(Token::Integer(3), (1, 5)));
}

#[test]
fn failed_outcome_stays_peeked() {
    let mut input = fails_at_fourth();
    input.items_while_successful();
    assert_eq!(input.peek(), &ResultAt::ErrAt(Error::UnexpectedChar('\x07'), (1, 7)));
    assert_eq!(input.next(), ResultAt::ErrAt(Error::UnexpectedChar('\x07'), (1, 7)));
    assert!(matches!(input.next(), ResultAt::NoneAt(_)));
}
