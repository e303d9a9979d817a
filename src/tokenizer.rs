//! The tokenizer: positioned characters in, positioned tokens out.

use vstd::prelude::*;

use crate::source::{pos_at, pos_eq, CharSource, Position, ResultAt};
use crate::text::{push_char, push_text, string_from_chars};

verus! {

/// Why an integer literal could not be read.
#[derive(Copy, Clone, Debug, PartialEq, Eq, Structural)]
pub enum IntegerFault {
    InvalidDigit,
    Overflow,
}

/// Tokenizer errors.
#[derive(Copy, Clone, Debug, PartialEq, Eq, Structural)]
pub enum Error {
    UnexpectedChar(char),
    InvalidInteger,
    UnparsableInteger(IntegerFault),
    UnterminatedString,
}

#[derive(Clone, Debug, PartialEq, Eq)]
pub enum Token {
    LParen,
    RParen,
    LBracket,
    RBracket,
    LBrace,
    RBrace,
    Quote,
    Newline,
    Comma,
    Semicolon,
    Integer(i64),
    String(String),
    Identifier(String),
}

impl Token {
    /// A copy of this token.
    pub fn duplicate(&self) -> (r: Token)
        ensures
            r == *self,
    {
        match self {
            Token::LParen => Token::LParen,
            Token::RParen => Token::RParen,
            Token::LBracket => Token::LBracket,
            Token::RBracket => Token::RBracket,
            Token::LBrace => Token::LBrace,
            Token::RBrace => Token::RBrace,
            Token::Quote => Token::Quote,
            Token::Newline => Token::Newline,
            Token::Comma => Token::Comma,
            Token::Semicolon => Token::Semicolon,
            Token::Integer(i) => Token::Integer(*i),
            Token::String(x) => Token::String(x.clone()),
            Token::Identifier(x) => Token::Identifier(x.clone()),
        }
    }
}

/// A token with its text as a sequence of characters.
pub enum TokenView {
    LParen,
    RParen,
    LBracket,
    RBracket,
    LBrace,
    RBrace,
    Quote,
    Newline,
    Comma,
    Semicolon,
    Integer(i64),
    String(Seq<char>),
    Identifier(Seq<char>),
}

impl Token {
    pub open spec fn view(&self) -> TokenView {
        match *self {
            Token::LParen => TokenView::LParen,
            Token::RParen => TokenView::RParen,
            Token::LBracket => TokenView::LBracket,
            Token::RBracket => TokenView::RBracket,
            Token::LBrace => TokenView::LBrace,
            Token::RBrace => TokenView::RBrace,
            Token::Quote => TokenView::Quote,
            Token::Newline => TokenView::Newline,
            Token::Comma => TokenView::Comma,
            Token::Semicolon => TokenView::Semicolon,
            Token::Integer(i) => TokenView::Integer(i),
            Token::String(s) => TokenView::String(s@),
            Token::Identifier(s) => TokenView::Identifier(s@),
        }
    }
}

/// ASCII whitespace other than newline.
pub open spec fn is_blank(c: char) -> bool {
    c == ' ' || c == '\t' || c == '\r' || c == '\x0C'
}

pub open spec fn is_token_end(c: char) -> bool {
    c == '(' || c == ')' || c == '[' || c == ']' || c == '{' || c == '}' || c == '\'' || c == '"'
        || c == '\n' || c == ',' || c == ';' || is_blank(c)
}

pub open spec fn is_control(c: char) -> bool {
    (c as u32) <= 0x1f || (0x7f <= (c as u32) && (c as u32) <= 0x9f)
}

pub open spec fn is_digit(c: char) -> bool {
    '0' <= c && c <= '9'
}

/// The token for a character that is a token by itself.
pub open spec fn single_token(c: char) -> Option<TokenView> {
    if c == '(' {
        Some(TokenView::LParen)
    } else if c == ')' {
        Some(TokenView::RParen)
    } else if c == '[' {
        Some(TokenView::LBracket)
    } else if c == ']' {
        Some(TokenView::RBracket)
    } else if c == '{' {
        Some(TokenView::LBrace)
    } else if c == '}' {
        Some(TokenView::RBrace)
    } else if c == '\'' {
        Some(TokenView::Quote)
    } else if c == '\n' {
        Some(TokenView::Newline)
    } else if c == ',' {
        Some(TokenView::Comma)
    } else if c == ';' {
        Some(TokenView::Semicolon)
    } else {
        None
    }
}

/// The first index from `i` on that does not hold a blank.
pub open spec fn blanks_end(s: Seq<char>, i: int) -> int
    decreases s.len() - i,
{
    if 0 <= i < s.len() && is_blank(s[i]) {
        blanks_end(s, i + 1)
    } else {
        i
    }
}

/// The first index from `i` on that holds a token end, or the length.
pub open spec fn word_end(s: Seq<char>, i: int) -> int
    decreases s.len() - i,
{
    if 0 <= i < s.len() && !is_token_end(s[i]) {
        word_end(s, i + 1)
    } else {
        i
    }
}

/// The first index from `i` on that holds `"`, or the length.
pub open spec fn quote_end(s: Seq<char>, i: int) -> int
    decreases s.len() - i,
{
    if 0 <= i < s.len() && s[i] != '"' {
        quote_end(s, i + 1)
    } else {
        i
    }
}

/// The value of a digit in the given base.
pub open spec fn digit_value(c: char, base: nat) -> Option<nat> {
    let u = c as u32;
    if base == 2 && (c == '0' || c == '1') {
        Some((u - 48) as nat)
    } else if base >= 10 && is_digit(c) {
        Some((u - 48) as nat)
    } else if base == 16 && 'a' <= c && c <= 'f' {
        Some((u - 87) as nat)
    } else if base == 16 && 'A' <= c && c <= 'F' {
        Some((u - 55) as nat)
    } else {
        None
    }
}

/// The largest magnitude of a literal: 2^63 for a negative one, whose
/// value is then `i64::MIN`, and `i64::MAX` otherwise.
pub open spec fn magnitude_limit(negative: bool) -> nat {
    if negative {
        (i64::MAX + 1) as nat
    } else {
        i64::MAX as nat
    }
}

/// The value of the digits `ds` in `base`, read left to right: the first
/// character that is no digit, or the first digit that takes the value past
/// `limit`, is the fault.
pub open spec fn radix_value(ds: Seq<char>, base: nat, limit: nat) -> Result<nat, IntegerFault>
    decreases ds.len(),
{
    if ds.len() == 0 {
        Ok(0)
    } else {
        match radix_value(ds.drop_last(), base, limit) {
            Err(f) => Err(f),
            Ok(acc) => match digit_value(ds.last(), base) {
                None => Err(IntegerFault::InvalidDigit),
                Some(d) => if acc * base + d > limit {
                    Err(IntegerFault::Overflow)
                } else {
                    Ok(acc * base + d)
                },
            },
        }
    }
}

/// Where the digits of an integer literal starting at `j` begin, and their base.
pub open spec fn integer_digits(s: Seq<char>, j: int) -> (int, nat) {
    let d = if s[j] == '-' {
        j + 1
    } else {
        j
    };
    if d + 1 < s.len() && s[d] == '0' && s[d + 1] == 'b' {
        (d + 2, 2)
    } else if d + 1 < s.len() && s[d] == '0' && s[d + 1] == 'x' {
        (d + 2, 16)
    } else {
        (d, 10)
    }
}

/// The integer literal starting at `j`: its outcome and where reading stops.
pub open spec fn integer_token(s: Seq<char>, j: int) -> (Result<TokenView, Error>, int) {
    let (start, base) = integer_digits(s, j);
    if base != 10 && (start >= s.len() || is_token_end(s[start])) {
        (Err(Error::InvalidInteger), start)
    } else {
        let k = word_end(s, start);
        match radix_value(s.subrange(start, k), base, magnitude_limit(s[j] == '-')) {
            Ok(v) => (Ok(TokenView::Integer((if s[j] == '-' {
                -v
            } else {
                v as int
            }) as i64)), k),
            Err(f) => (Err(Error::UnparsableInteger(f)), k),
        }
    }
}

/// One step of the tokenizer from index `i`: the outcome (`None` at the end
/// of input), the index where the token starts, and the index where
/// reading stops.
pub open spec fn token_step(s: Seq<char>, i: int) -> (Option<Result<TokenView, Error>>, int, int) {
    let j = blanks_end(s, i);
    if j >= s.len() {
        (None, j, j)
    } else {
        let c = s[j];
        if single_token(c) is Some {
            (Some(Ok(single_token(c)->Some_0)), j, j + 1)
        } else if c == '"' {
            let k = quote_end(s, j + 1);
            if k >= s.len() {
                (Some(Err(Error::UnterminatedString)), j, k)
            } else {
                (Some(Ok(TokenView::String(s.subrange(j + 1, k)))), j, k + 1)
            }
        } else if is_digit(c) || (c == '-' && j + 1 < s.len() && is_digit(s[j + 1])) {
            let (r, k) = integer_token(s, j);
            (Some(r), j, k)
        } else if !is_control(c) {
            let k = word_end(s, j + 1);
            (Some(Ok(TokenView::Identifier(s.subrange(j, k)))), j, k)
        } else {
            (Some(Err(Error::UnexpectedChar(c))), j, j + 1)
        }
    }
}

/// Whether the outcome `r` is what `token_step` gives at index `i` of `s`.
pub open spec fn step_matches(s: Seq<char>, i: int, r: ResultAt<Token, Error>) -> bool {
    let (o, j, _) = token_step(s, i);
    match r {
        ResultAt::OkAt(t, at) => o == Some(Ok::<TokenView, Error>(t.view())) && pos_eq(at, pos_at(s, j)),
        ResultAt::ErrAt(e, at) => o == Some(Err::<TokenView, Error>(e)) && pos_eq(at, pos_at(s, j)),
        ResultAt::NoneAt(at) => o is None && pos_eq(at, pos_at(s, j)),
    }
}

fn blank(c: char) -> (r: bool)
    ensures
        r == is_blank(c),
{
    c == ' ' || c == '\t' || c == '\r' || c == '\x0C'
}

pub fn char_is_token_end(c: char) -> (r: bool)
    ensures
        r == is_token_end(c),
{
    c == '(' || c == ')' || c == '[' || c == ']' || c == '{' || c == '}' || c == '\'' || c == '"'
        || c == '\n' || c == ',' || c == ';' || blank(c)
}

fn digit(c: char) -> (r: bool)
    ensures
        r == is_digit(c),
{
    '0' <= c && c <= '9'
}

fn digit_in(c: char, base: u32) -> (r: Option<u32>)
    requires
        base == 2 || base == 10 || base == 16,
    ensures
        r is Some <==> digit_value(c, base as nat) is Some,
        r is Some ==> r->Some_0 as nat == digit_value(c, base as nat)->Some_0 && r->Some_0 < base,
{
    let u = c as u32;
    if base == 2 && (c == '0' || c == '1') {
        Some(u - 48)
    } else if base >= 10 && digit(c) {
        Some(u - 48)
    } else if base == 16 && 'a' <= c && c <= 'f' {
        Some(u - 87)
    } else if base == 16 && 'A' <= c && c <= 'F' {
        Some(u - 55)
    } else {
        None
    }
}

/// Reads the digits `ds` in `base` as the magnitude of a literal, negated
/// when `negative`.
pub fn parse_radix(ds: &Vec<char>, base: u32, negative: bool) -> (r: Result<i64, IntegerFault>)
    requires
        base == 2 || base == 10 || base == 16,
    ensures
        match radix_value(ds@, base as nat, magnitude_limit(negative)) {
            Ok(v) => r == Ok::<i64, IntegerFault>(
                (if negative {
                    -v
                } else {
                    v as int
                }) as i64,
            ),
            Err(f) => r == Err::<i64, IntegerFault>(f),
        },
{
    let limit: i128 = if negative {
        9223372036854775808
    } else {
        9223372036854775807
    };
    let ghost lim = magnitude_limit(negative);
    let mut acc: i128 = 0;
    let mut i: usize = 0;
    while i < ds.len()
        invariant
            i <= ds@.len(),
            base == 2 || base == 10 || base == 16,
            limit == lim,
            lim == magnitude_limit(negative),
            radix_value(ds@.subrange(0, i as int), base as nat, lim) == Ok::<nat, IntegerFault>(
                acc as nat,
            ),
            0 <= acc <= limit,
        decreases ds@.len() - i,
    {
        proof {
            assert(ds@.subrange(0, i as int + 1).drop_last() =~= ds@.subrange(0, i as int));
        }
        match digit_in(ds[i], base) {
            None => {
                proof {
                    lemma_radix_fault_sticks(ds@, base as nat, lim, i as int + 1);
                }
                return Err(IntegerFault::InvalidDigit);
            },
            Some(d) => {
                let b = base as i128;
                assert(0 <= acc * b <= 16 * 9223372036854775808) by (nonlinear_arith)
                    requires
                        0 <= acc <= 9223372036854775808,
                        0 < b <= 16,
                ;
                let next: i128 = acc * b + d as i128;
                if next > limit {
                    proof {
                        lemma_radix_fault_sticks(ds@, base as nat, lim, i as int + 1);
                    }
                    return Err(IntegerFault::Overflow);
                }
                acc = next;
                i = i + 1;
            },
        }
    }
    assert(ds@.subrange(0, i as int) =~= ds@);
    if negative {
        Ok((-acc) as i64)
    } else {
        Ok(acc as i64)
    }
}

/// Once reading a prefix of the digits fails, reading all of them fails the same way.
proof fn lemma_radix_fault_sticks(ds: Seq<char>, base: nat, limit: nat, n: int)
    requires
        0 <= n <= ds.len(),
        radix_value(ds.subrange(0, n), base, limit) is Err,
    ensures
        radix_value(ds, base, limit) == radix_value(ds.subrange(0, n), base, limit),
    decreases ds.len() - n,
{
    if n < ds.len() {
        assert(ds.subrange(0, n + 1).drop_last() =~= ds.subrange(0, n));
        lemma_radix_fault_sticks(ds, base, limit, n + 1);
    } else {
        assert(ds.subrange(0, n) =~= ds);
    }
}

proof fn lemma_blanks_end_bounds(s: Seq<char>, i: int)
    requires
        0 <= i <= s.len(),
    ensures
        i <= blanks_end(s, i) <= s.len(),
    decreases s.len() - i,
{
    if i < s.len() && is_blank(s[i]) {
        lemma_blanks_end_bounds(s, i + 1);
    }
}

proof fn lemma_word_end_bounds(s: Seq<char>, i: int)
    requires
        0 <= i <= s.len(),
    ensures
        i <= word_end(s, i) <= s.len(),
    decreases s.len() - i,
{
    if i < s.len() && !is_token_end(s[i]) {
        lemma_word_end_bounds(s, i + 1);
    }
}

proof fn lemma_quote_end_bounds(s: Seq<char>, i: int)
    requires
        0 <= i <= s.len(),
    ensures
        i <= quote_end(s, i) <= s.len(),
    decreases s.len() - i,
{
    if i < s.len() && s[i] != '"' {
        lemma_quote_end_bounds(s, i + 1);
    }
}

/// A step that yields something starts at a character of the text and
/// consumes it; a step that yields nothing stops at the end.
pub proof fn lemma_token_step_bounds(s: Seq<char>, i: int)
    requires
        0 <= i <= s.len(),
    ensures
        i <= token_step(s, i).1 <= s.len(),
        token_step(s, i).0 is None ==> token_step(s, i).1 == s.len() && token_step(s, i).2
            == s.len(),
        token_step(s, i).0 is Some ==> token_step(s, i).1 < s.len() && token_step(s, i).1
            < token_step(s, i).2 <= s.len(),
{
    lemma_blanks_end_bounds(s, i);
    let j = blanks_end(s, i);
    if j < s.len() {
        let c = s[j];
        if single_token(c) is Some {
        } else if c == '"' {
            lemma_quote_end_bounds(s, j + 1);
        } else if is_digit(c) || (c == '-' && j + 1 < s.len() && is_digit(s[j + 1])) {
            let (start, base) = integer_digits(s, j);
            if base != 10 && (start >= s.len() || is_token_end(s[start])) {
            } else {
                lemma_word_end_bounds(s, start);
                if base == 10 {
                    assert(!is_token_end(s[start]));
                    lemma_word_end_bounds(s, start + 1);
                }
            }
        } else if !is_control(c) {
            lemma_word_end_bounds(s, j + 1);
        }
    }
}

/// What one call of [`Tokenizer::next`] does: once stopped, nothing but
/// `NoneAt`; otherwise the outcome of `token_step`, stopping after an error.
pub open spec fn next_spec(before: Tokenizer, after: Tokenizer, r: ResultAt<Token, Error>) -> bool {
    &&& after.wf()
    &&& after.text() == before.text()
    &&& before.stopped ==> after == before && r == ResultAt::<Token, Error>::NoneAt(
        before.input.current_position(),
    )
    &&& !before.stopped ==> step_matches(before.text(), before.index(), r) && after.index()
        == token_step(before.text(), before.index()).2 && after.stopped == (r is ErrAt)
}

/// The tokenizer. After its first error it yields only `NoneAt`.
pub struct Tokenizer {
    pub input: CharSource,
    pub stopped: bool,
}

impl Tokenizer {
    pub open spec fn wf(&self) -> bool {
        self.input.wf()
    }

    pub open spec fn text(&self) -> Seq<char> {
        self.input.input@
    }

    pub open spec fn index(&self) -> int {
        self.input.index as int
    }

    pub fn new(input: Vec<char>) -> (r: Self)
        requires
            input@.len() < usize::MAX,
        ensures
            r.wf(),
            r.text() == input@,
            r.index() == 0,
            !r.stopped,
    {
        Tokenizer { input: CharSource::new(input), stopped: false }
    }

    /// Consumes characters up to the next token end; returns them.
    fn take_word(&mut self, out: &mut Vec<char>)
        requires
            old(self).wf(),
        ensures
            final(self).wf(),
            final(self).text() == old(self).text(),
            final(self).stopped == old(self).stopped,
            final(self).index() == word_end(old(self).text(), old(self).index()),
            old(self).index() <= final(self).index(),
            final(out)@ == old(out)@ + old(self).text().subrange(
                old(self).index(),
                final(self).index(),
            ),
    {
        let ghost s = self.text();
        let ghost i0 = self.index();
        let ghost out0 = out@;
        let ghost st = self.stopped;
        while self.input.index < self.input.input.len() && !char_is_token_end(self.input.input[self.input.index])
            invariant
                self.wf(),
                self.text() == s,
                self.stopped == st,
                0 <= i0 <= self.index(),
                word_end(s, i0) == word_end(s, self.index()),
                out@ == out0 + s.subrange(i0, self.index()),
            decreases s.len() - self.index(),
        {
            let ghost k = self.index();
            let c = self.input.input[self.input.index];
            self.input.next();
            out.push(c);
            assert(s.subrange(i0, k + 1) =~= s.subrange(i0, k).push(s[k]));
            assert(out@ =~= out0 + s.subrange(i0, self.index()));
        }
    }

    /// Consumes characters up to the next `"`; returns them.
    fn take_quoted(&mut self, out: &mut Vec<char>)
        requires
            old(self).wf(),
        ensures
            final(self).wf(),
            final(self).text() == old(self).text(),
            final(self).stopped == old(self).stopped,
            final(self).index() == quote_end(old(self).text(), old(self).index()),
            old(self).index() <= final(self).index(),
            final(out)@ == old(out)@ + old(self).text().subrange(
                old(self).index(),
                final(self).index(),
            ),
    {
        let ghost s = self.text();
        let ghost i0 = self.index();
        let ghost out0 = out@;
        let ghost st = self.stopped;
        while self.input.index < self.input.input.len() && self.input.input[self.input.index] != '"'
            invariant
                self.wf(),
                self.text() == s,
                self.stopped == st,
                0 <= i0 <= self.index(),
                quote_end(s, i0) == quote_end(s, self.index()),
                out@ == out0 + s.subrange(i0, self.index()),
            decreases s.len() - self.index(),
        {
            let ghost k = self.index();
            let c = self.input.input[self.input.index];
            self.input.next();
            out.push(c);
            assert(s.subrange(i0, k + 1) =~= s.subrange(i0, k).push(s[k]));
            assert(out@ =~= out0 + s.subrange(i0, self.index()));
        }
    }

    fn skip_blanks(&mut self)
        requires
            old(self).wf(),
        ensures
            final(self).wf(),
            final(self).text() == old(self).text(),
            final(self).stopped == old(self).stopped,
            final(self).index() == blanks_end(old(self).text(), old(self).index()),
    {
        let ghost s = self.text();
        let ghost i0 = self.index();
        let ghost st = self.stopped;
        while self.input.index < self.input.input.len() && blank(self.input.input[self.input.index])
            invariant
                self.wf(),
                self.text() == s,
                self.stopped == st,
                i0 <= self.index(),
                blanks_end(s, i0) == blanks_end(s, self.index()),
            decreases s.len() - self.index(),
        {
            self.input.next();
        }
    }

    /// Reads an integer literal whose first character, at `at`, is consumed.
    fn tokenize_integer(&mut self, first: char, at: Position) -> (r: ResultAt<Token, Error>)
        requires
            old(self).wf(),
            old(self).index() >= 1,
            first == old(self).text()[old(self).index() - 1],
            is_digit(first) || (first == '-' && old(self).index() < old(self).text().len()
                && is_digit(old(self).text()[old(self).index()])),
        ensures
            final(self).wf(),
            final(self).text() == old(self).text(),
            final(self).stopped == old(self).stopped,
            ({
                let (o, k) = integer_token(old(self).text(), old(self).index() - 1);
                &&& final(self).index() == k
                &&& match r {
                    ResultAt::OkAt(t, p) => o == Ok::<TokenView, Error>(t.view()) && p == at,
                    ResultAt::ErrAt(e, p) => o == Err::<TokenView, Error>(e) && p == at,
                    ResultAt::NoneAt(_) => false,
                }
            }),
    {
        let ghost s = self.text();
        let ghost j = self.index() - 1;
        let negative = first == '-';
        let mut lead = first;
        if negative {
            match self.input.next() {
                ResultAt::OkAt(c, _) => {
                    lead = c;
                },
                _ => {
                    proof {
                        assert(false);
                    }
                },
            }
        }
        // `lead` is the first digit; the index is just past it.

        let mut base: u32 = 10;
        let mut digits: Vec<char> = Vec::new();
        if lead == '0' {
            match self.input.peek() {
                Some(c) => {
                    if c == 'b' || c == 'x' {
                        base = if c == 'b' {
                            2
                        } else {
                            16
                        };
                        self.input.next();
                        match self.input.peek() {
                            Some(c2) => {
                                if char_is_token_end(c2) {
                                    return ResultAt::ErrAt(Error::InvalidInteger, at);
                                }
                            },
                            None => {
                                return ResultAt::ErrAt(Error::InvalidInteger, at);
                            },
                        }
                    }
                },
                None => {},
            }
        }
        if base == 10 {
            digits.push(lead);
        }
        let ghost start = if base == 10 {
            self.index() - 1
        } else {
            self.index()
        };
        assert(digits@ =~= s.subrange(start, self.index()));
        proof {
            if base == 10 {
                assert(!is_token_end(s[start]));
                assert(word_end(s, start) == word_end(s, start + 1));
            }
        }
        let ghost mid = self.index();
        self.take_word(&mut digits);
        assert(s.subrange(start, self.index()) =~= s.subrange(start, mid) + s.subrange(mid, self.index()));
        assert(digits@ =~= s.subrange(start, self.index()));
        match parse_radix(&digits, base, negative) {
            Ok(value) => ResultAt::OkAt(Token::Integer(value), at),
            Err(f) => ResultAt::ErrAt(Error::UnparsableInteger(f), at),
        }
    }

    /// Reads the next token. After an error, and from then on, this gives
    /// `NoneAt` at the current position.
    pub fn next(&mut self) -> (r: ResultAt<Token, Error>)
        requires
            old(self).wf(),
        ensures
            next_spec(*old(self), *final(self), r),
    {
        if self.stopped {
            return ResultAt::NoneAt(self.input.position());
        }
        let ghost s = self.text();
        let ghost i = self.index();
        self.skip_blanks();
        let ghost j = self.index();
        let result = match self.input.next() {
            ResultAt::NoneAt(at) => ResultAt::NoneAt(at),
            ResultAt::ErrAt(_, at) => {
                proof {
                    assert(false);
                }
                ResultAt::NoneAt(at)
            },
            ResultAt::OkAt(c, at) => {
                if c == '(' {
                    ResultAt::OkAt(Token::LParen, at)
                } else if c == ')' {
                    ResultAt::OkAt(Token::RParen, at)
                } else if c == '[' {
                    ResultAt::OkAt(Token::LBracket, at)
                } else if c == ']' {
                    ResultAt::OkAt(Token::RBracket, at)
                } else if c == '{' {
                    ResultAt::OkAt(Token::LBrace, at)
                } else if c == '}' {
                    ResultAt::OkAt(Token::RBrace, at)
                } else if c == '\'' {
                    ResultAt::OkAt(Token::Quote, at)
                } else if c == '\n' {
                    ResultAt::OkAt(Token::Newline, at)
                } else if c == ',' {
                    ResultAt::OkAt(Token::Comma, at)
                } else if c == ';' {
                    ResultAt::OkAt(Token::Semicolon, at)
                } else if c == '"' {
                    let mut content: Vec<char> = Vec::new();
                    self.take_quoted(&mut content);
                    assert(content@ =~= s.subrange(j + 1, self.index()));
                    match self.input.next() {
                        ResultAt::OkAt(_, _) => ResultAt::OkAt(
                            Token::String(string_from_chars(&content)),
                            at,
                        ),
                        _ => ResultAt::ErrAt(Error::UnterminatedString, at),
                    }
                } else if digit(c) {
                    self.tokenize_integer(c, at)
                } else if c == '-' && match self.input.peek() {
                    Some(c2) => digit(c2),
                    None => false,
                } {
                    self.tokenize_integer(c, at)
                } else if !((c as u32) <= 0x1f || (0x7f <= (c as u32) && (c as u32) <= 0x9f)) {
                    let mut word: Vec<char> = Vec::new();
                    word.push(c);
                    assert(word@ =~= s.subrange(j, j + 1));
                    self.take_word(&mut word);
                    assert(s.subrange(j, self.index()) =~= s.subrange(j, j + 1) + s.subrange(j + 1, self.index()));
                    assert(word@ =~= s.subrange(j, self.index()));
                    ResultAt::OkAt(Token::Identifier(string_from_chars(&word)), at)
                } else {
                    ResultAt::ErrAt(Error::UnexpectedChar(c), at)
                }
            },
        };
        if let ResultAt::ErrAt(_, _) = result {
            self.stopped = true;
        }
        result
    }
}

/// Once a step of the tokenizer fails, every later step yields `NoneAt`.
/// `states[k]` is the tokenizer before step `k`, and `outcomes[k]` what
/// step `k` gave.
pub proof fn lemma_latched_after_error(states: Seq<Tokenizer>, outcomes: Seq<ResultAt<Token, Error>>)
    requires
        states.len() == outcomes.len() + 1,
        forall|k: int|
            0 <= k < outcomes.len() ==> next_spec(#[trigger] states[k], states[k + 1], outcomes[k]),
        outcomes.len() >= 1,
        outcomes[0] is ErrAt,
    ensures
        forall|k: int| 1 <= k < outcomes.len() ==> #[trigger] outcomes[k] is NoneAt,
{
    assert forall|k: int| 1 <= k < outcomes.len() implies #[trigger] outcomes[k] is NoneAt by {
        lemma_stopped_from(states, outcomes, k);
    }
}

proof fn lemma_stopped_from(states: Seq<Tokenizer>, outcomes: Seq<ResultAt<Token, Error>>, k: int)
    requires
        states.len() == outcomes.len() + 1,
        forall|i: int|
            0 <= i < outcomes.len() ==> next_spec(#[trigger] states[i], states[i + 1], outcomes[i]),
        outcomes.len() >= 1,
        outcomes[0] is ErrAt,
        1 <= k <= outcomes.len(),
    ensures
        states[k].stopped,
    decreases k,
{
    if k > 1 {
        lemma_stopped_from(states, outcomes, k - 1);
        assert(next_spec(states[k - 1], states[k], outcomes[k - 1]));
    } else {
        assert(next_spec(states[0], states[1], outcomes[0]));
    }
}

/// A tokenizer over the characters of `input`.
pub fn tokenize(input: Vec<char>) -> (r: Tokenizer)
    requires
        input@.len() < usize::MAX,
    ensures
        r.wf(),
        r.text() == input@,
        r.index() == 0,
        !r.stopped,
{
    Tokenizer::new(input)
}


/// The message of a tokenizer error.
pub open spec fn tokenize_error_text(e: Error) -> Seq<char> {
    match e {
        Error::UnexpectedChar(c) => "unexpected character: "@.push(c),
        Error::InvalidInteger => "invalid integer"@,
        Error::UnparsableInteger(_) => "unparsable integer"@,
        Error::UnterminatedString => "unterminated string"@,
    }
}

impl Error {
    /// Appends the message of this error.
    pub fn write_message(&self, out: &mut String)
        ensures
            final(out)@ == old(out)@ + tokenize_error_text(*self),
    {
        match self {
            Error::UnexpectedChar(c) => {
                push_text(out, "unexpected character: ");
                push_char(out, *c);
            },
            Error::InvalidInteger => push_text(out, "invalid integer"),
            Error::UnparsableInteger(_) => push_text(out, "unparsable integer"),
            Error::UnterminatedString => push_text(out, "unterminated string"),
        }
        assert(final(out)@ =~= old(out)@ + tokenize_error_text(*self));
    }
}

} // verus!
