use scarab::source::ResultAt;
use scarab::tokenizer::{parse_radix, tokenize, Error, IntegerFault, Token};

fn outcomes(input: &str) -> Vec<ResultAt<Token, Error>> {
    let mut t = tokenize(input.chars().collect());
    let mut out = Vec::new();
    loop {
        let r = t.next();
        let stop = !matches!(r, ResultAt::OkAt(_, _));
        out.push(r);
        if stop {
            return out;
        }
    }
}

fn try_tokenize_uncollapsed(input: &str) -> Vec<Result<Token, Error>> {
    outcomes(input)
        .into_iter()
        .filter_map(|r| match r {
            ResultAt::OkAt(t, _) => Some(Ok(t)),
            ResultAt::ErrAt(e, _) => Some(Err(e)),
            ResultAt::NoneAt(_) => None,
        })
        .collect()
}

fn try_tokenize(input: &str) -> Result<Vec<Token>, Error> {
    try_tokenize_uncollapsed(input).into_iter().collect()
}

fn s(x: &str) -> String {
    x.to_string()
}

#[test]
fn single_character_tokens() {
    assert_eq!(
        try_tokenize("()[]{}',").unwrap(),
        vec![
            Token::LParen,
            Token::RParen,
            Token::LBracket,
            Token::RBracket,
            Token::LBrace,
            Token::RBrace,
            Token::Quote,
            Token::Comma,
        ]
    );
}

#[test]
fn semicolon_is_a_token() {
    assert_eq!(try_tokenize("a;b").unwrap(), vec![
        Token::Identifier(s("a")),
        Token::Semicolon,
        Token::Identifier(s("b")),
    ]);
}

#[test]
fn unexpected_single_character_tokens() {
    let e = format!("{:?}", try_tokenize("\x07").unwrap_err());
    assert!(e.contains("\\u{7}"), "{}", e);
}

#[test]
fn tokenizing_stops_after_error() {
    assert_eq!(
        try_tokenize_uncollapsed("(\x07)"),
        vec![Ok(Token::LParen), Err(Error::UnexpectedChar('\u{7}'))]
    );
}

#[test]
fn nothing_but_none_after_an_error() {
    let mut t = tokenize("(\x07)".chars().collect());
    assert!(matches!(t.next(), ResultAt::OkAt(Token::LParen, (1, 1))));
    assert!(matches!(t.next(), ResultAt::ErrAt(Error::UnexpectedChar('\u{7}'), (1, 2))));
    assert!(matches!(t.next(), ResultAt::NoneAt(_)));
    assert!(matches!(t.next(), ResultAt::NoneAt(_)));
}

#[test]
fn basic_strings() {
    assert_eq!(
        try_tokenize(r#""""a""abc""#).unwrap(),
        vec![Token::String(s("")), Token::String(s("a")), Token::String(s("abc"))]
    );
}

#[test]
fn unterminated_string() {
    assert_eq!(try_tokenize("\"abc"), Err(Error::UnterminatedString));
    assert!(matches!(outcomes("  \"abc")[0], ResultAt::ErrAt(Error::UnterminatedString, (1, 3))));
}

#[test]
fn space_separated_tokens() {
    assert_eq!(
        try_tokenize("( \"abc\"\t\n{}").unwrap(),
        vec![Token::LParen, Token::String(s("abc")), Token::Newline, Token::LBrace, Token::RBrace]
    );
}

#[test]
fn identifiers() {
    assert_eq!(
        try_tokenize("identifier1 identifier!2?)identifier3").unwrap(),
        vec![
            Token::Identifier(s("identifier1")),
            Token::Identifier(s("identifier!2?")),
            Token::RParen,
            Token::Identifier(s("identifier3")),
        ]
    );
}

#[test]
fn leading_dash_identifiers() {
    assert_eq!(
        try_tokenize("- -a").unwrap(),
        vec![Token::Identifier(s("-")), Token::Identifier(s("-a"))]
    );
}

#[test]
fn integers() {
    assert_eq!(
        try_tokenize_uncollapsed("0 123 4 0b11001 0x46aF -3 -0b111 -0x77D"),
        vec![
            Ok(Token::Integer(0)),
            Ok(Token::Integer(123)),
            Ok(Token::Integer(4)),
            Ok(Token::Integer(25)),
            Ok(Token::Integer(18095)),
            Ok(Token::Integer(-3)),
            Ok(Token::Integer(-7)),
            Ok(Token::Integer(-1917)),
        ]
    );
}

#[test]
fn zero_at_the_end_of_input() {
    assert_eq!(try_tokenize("0").unwrap(), vec![Token::Integer(0)]);
}

#[test]
fn partial_integer() {
    assert_eq!(try_tokenize("0b"), Err(Error::InvalidInteger));
    assert_eq!(try_tokenize("0x"), Err(Error::InvalidInteger));
    assert_eq!(try_tokenize("0x)"), Err(Error::InvalidInteger));
}

#[test]
fn invalid_integer() {
    let digit = Err(Error::UnparsableInteger(IntegerFault::InvalidDigit));
    assert_eq!(try_tokenize("04y"), digit);
    assert_eq!(try_tokenize("0b12"), digit);
    assert_eq!(try_tokenize("0xAZ"), digit);
    let e = format!("{:?}", try_tokenize("0xFFFFFFFFFFFFFFFFFFFFFFFF").unwrap_err());
    assert!(e.contains("UnparsableInteger") && e.contains("Overflow"), "{}", e);
}

#[test]
fn largest_integers() {
    assert_eq!(
        try_tokenize("9223372036854775807 -9223372036854775807").unwrap(),
        vec![Token::Integer(i64::MAX), Token::Integer(-i64::MAX)]
    );
    assert_eq!(
        try_tokenize("9223372036854775808"),
        Err(Error::UnparsableInteger(IntegerFault::Overflow))
    );
    assert_eq!(try_tokenize("-9223372036854775808").unwrap(), vec![Token::Integer(i64::MIN)]);
    assert_eq!(
        try_tokenize("-9223372036854775809"),
        Err(Error::UnparsableInteger(IntegerFault::Overflow))
    );
}

#[test]
fn radix_digits() {
    let v: Vec<char> = "ff".chars().collect();
    assert_eq!(parse_radix(&v, 16, false), Ok(255));
    let v: Vec<char> = "102".chars().collect();
    assert_eq!(parse_radix(&v, 2, false), Err(IntegerFault::InvalidDigit));
    assert_eq!(parse_radix(&v, 10, true), Ok(-102));
}

#[test]
fn multiline() {
    assert_eq!(
        outcomes("1234\n(\n\t( 456 )\n  [\"abc\")"),
        vec![
            ResultAt::OkAt(Token::Integer(1234), (1, 1)),
            ResultAt::OkAt(Token::Newline, (1, 5)),
            ResultAt::OkAt(Token::LParen, (2, 1)),
            ResultAt::OkAt(Token::Newline, (2, 2)),
            ResultAt::OkAt(Token::LParen, (3, 2)),
            ResultAt::OkAt(Token::Integer(456), (3, 4)),
            ResultAt::OkAt(Token::RParen, (3, 8)),
            ResultAt::OkAt(Token::Newline, (3, 9)),
            ResultAt::OkAt(Token::LBracket, (4, 3)),
            ResultAt::OkAt(Token::String(s("abc")), (4, 4)),
            ResultAt::OkAt(Token::RParen, (4, 9)),
            ResultAt::NoneAt((4, 10)),
        ]
    );
}
