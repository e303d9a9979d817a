//! The recursive-descent parser: tokens in, a value tree and the position
//! of each of its nodes out.

use vstd::prelude::*;

use crate::reader::Reader;
use crate::source::{in_source, pos_at, pos_eq, Position, ResultAt};
use crate::text::{chars_of, nat_text, push_count, push_text};
use crate::tokenizer::{self, lemma_token_step_bounds, token_step, tokenize, Token, TokenView};
use crate::value::{entry_of, identifier, labeled, list_datum, spine_labeled, ContextMap, Datum, Value};

verus! {

/// The position of each node of a parsed value.
pub type PositionMap = ContextMap<Position>;

#[derive(Debug)]
pub enum ErrorInternal {
    Eof,
    MismatchedOperatorList(String, String),
    Tokenize(tokenizer::Error),
    UnexpectedToken(Token),
    UnterminatedList,
}

/// A parse error, with the position where it was found.
#[derive(Debug)]
pub struct Error {
    pub error: ErrorInternal,
    pub line: usize,
    pub column: usize,
}

fn fail(error: ErrorInternal, at: Position) -> (r: Error)
    ensures
        r.error == error,
        (r.line, r.column) == at,
{
    Error { error, line: at.0, column: at.1 }
}

/// Every entry of `m` is the position of a character of `s`.
pub open spec fn within(m: PositionMap, s: Seq<char>) -> bool
    decreases m,
{
    match m {
        ContextMap::Empty => true,
        ContextMap::Node(e, f, r) => (e matches Some(p) ==> in_source(s, p)) && within(*f, s)
            && within(*r, s),
    }
}

/// A parsed value whose nodes are all labelled with positions in `s`.
pub open spec fn well_placed(v: Value, m: PositionMap, s: Seq<char>) -> bool {
    labeled(v, m) && within(m, s)
}

/// A parsed sequence of elements: each labelled with positions in `s`.
pub open spec fn spine_placed(v: Value, m: PositionMap, s: Seq<char>) -> bool {
    spine_labeled(v, m) && within(m, s)
}

/// The outcome of the token that starts at or after index `c` of `s`.
pub open spec fn tok(s: Seq<char>, c: int) -> Option<Result<TokenView, tokenizer::Error>> {
    token_step(s, c).0
}

/// Where reading stops after the token read from index `c`.
pub open spec fn after(s: Seq<char>, c: int) -> int {
    token_step(s, c).2
}

/// The index after the newline tokens that follow index `c`.
pub open spec fn skip_nl(s: Seq<char>, c: int) -> int
    decreases s.len() - c,
{
    if 0 <= c <= s.len() && tok(s, c) == Some(Ok::<TokenView, tokenizer::Error>(TokenView::Newline))
        && c < after(s, c) <= s.len() {
        skip_nl(s, after(s, c))
    } else {
        c
    }
}

/// The value that an integer, string or identifier token stands for.
pub open spec fn atom_of(t: TokenView) -> Option<Datum> {
    match t {
        TokenView::Integer(i) => Some(Datum::Integer(i)),
        TokenView::String(x) => Some(Datum::Str(x)),
        TokenView::Identifier(x) => Some(
            if x == seq!['n', 'i', 'l'] {
                Datum::Nil
            } else if x == seq!['t', 'r', 'u', 'e'] {
                Datum::Boolean(true)
            } else if x == seq!['f', 'a', 'l', 's', 'e'] {
                Datum::Boolean(false)
            } else {
                Datum::Ident(x)
            },
        ),
        _ => None,
    }
}

pub open spec fn is_tok(s: Seq<char>, c: int, t: TokenView) -> bool {
    tok(s, c) == Some(Ok::<TokenView, tokenizer::Error>(t))
}

/// Whether token `t` ends a run of elements.
pub open spec fn ends(stop: Stop, t: TokenView) -> bool {
    match stop {
        Stop::Paren => t == TokenView::RParen,
        Stop::Statement => t == TokenView::Newline || t == TokenView::Semicolon || t
            == TokenView::Comma || t == TokenView::RBrace,
        Stop::TopStatement => t == TokenView::Newline || t == TokenView::Semicolon || t
            == TokenView::Comma,
    }
}

pub open spec fn is_separator(t: TokenView) -> bool {
    t == TokenView::Newline || t == TokenView::Semicolon || t == TokenView::Comma
}

/// Why the grammar finds no value, as a spec-level error kind.
pub enum ParseFault {
    Eof,
    Mismatched(Seq<char>, Seq<char>),
    Tokenize(tokenizer::Error),
    Unexpected(TokenView),
    Unterminated,
}

/// A grammar outcome: a value and where reading stops, or the fault and
/// the index where the offending token starts.
pub type Parsed<T> = Result<(T, int), (ParseFault, int)>;

/// Where the token read from index `c` starts.
pub open spec fn tok_start(s: Seq<char>, c: int) -> int {
    token_step(s, c).1
}

/// The fault when a run must end at index `c` but does not: a tokenizer
/// error there, or an unterminated list.
pub open spec fn fail_next(s: Seq<char>, c: int) -> (ParseFault, int) {
    match tok(s, c) {
        Some(Err(e)) => (ParseFault::Tokenize(e), tok_start(s, c)),
        _ => (ParseFault::Unterminated, tok_start(s, c)),
    }
}

/// The grammar of one value, read from index `c` of `s`: the value and
/// where reading stops, or the fault.
pub open spec fn sp_value(s: Seq<char>, c: int) -> Parsed<Datum>
    decreases s.len() - c, 0nat,
{
    let c1 = skip_nl(s, c);
    let j = tok_start(s, c1);
    let k = after(s, c1);
    if !(0 <= c <= c1 <= s.len()) {
        Err((ParseFault::Eof, c1))
    } else {
        match tok(s, c1) {
            None => Err((ParseFault::Eof, j)),
            Some(Err(e)) => Err((ParseFault::Tokenize(e), j)),
            Some(Ok(t)) => if !(c1 < k <= s.len()) {
                Err((ParseFault::Eof, j))
            } else {
                sp_after_token(s, t, j, k)
            },
        }
    }
}

/// The value that starts with token `t` at index `j`, whose reading stopped at `k`.
pub open spec fn sp_after_token(s: Seq<char>, t: TokenView, j: int, k: int) -> Parsed<Datum>
    decreases s.len() - k, 5nat,
{
    if atom_of(t) is Some {
        Ok((atom_of(t)->Some_0, k))
    } else if t == TokenView::LParen {
        sp_paren(s, k)
    } else if t == TokenView::LBracket {
        sp_oplist(s, k)
    } else if t == TokenView::LBrace {
        sp_form(s, k)
    } else if t == TokenView::Quote {
        match sp_value(s, k) {
            Ok((d, k2)) => Ok((Datum::Quoted(Box::new(d)), k2)),
            Err(f) => Err(f),
        }
    } else {
        Err((ParseFault::Unexpected(t), j))
    }
}

/// The rest of `( ... )` after its `(`, up to and including its `)`.
pub open spec fn sp_paren(s: Seq<char>, c: int) -> Parsed<Datum>
    decreases s.len() - c, 2nat,
{
    match sp_elems(s, c, Stop::Paren) {
        Ok((ds, k)) => if is_tok(s, k, TokenView::RParen) {
            Ok((list_datum(ds), after(s, k)))
        } else {
            Err(fail_next(s, k))
        },
        Err(f) => Err(f),
    }
}

/// The rest of `{ ... }` after its `{`, up to and including its `}`.
pub open spec fn sp_form(s: Seq<char>, c: int) -> Parsed<Datum>
    decreases s.len() - c, 4nat,
{
    match sp_statements(s, c, false) {
        Ok((ds, k)) => if is_tok(s, k, TokenView::RBrace) {
            Ok((list_datum(ds), after(s, k)))
        } else {
            Err(fail_next(s, k))
        },
        Err(f) => Err(f),
    }
}

/// Values from index `c` up to a token that ends the run (which is left
/// unread, and for `Stop::Paren` found after skipping newlines).
pub open spec fn sp_elems(s: Seq<char>, c: int, stop: Stop) -> Parsed<Seq<Datum>>
    decreases s.len() - c, 1nat,
{
    let c1 = if stop == Stop::Paren {
        skip_nl(s, c)
    } else {
        c
    };
    if !(0 <= c <= c1 <= s.len()) {
        Err((ParseFault::Eof, c1))
    } else {
        match tok(s, c1) {
            None => if stop == Stop::TopStatement {
                Ok((Seq::empty(), c1))
            } else {
                Err(fail_next(s, c1))
            },
            Some(Err(_)) => Err(fail_next(s, c1)),
            Some(Ok(t)) => if ends(stop, t) {
                Ok((Seq::empty(), c1))
            } else {
                match sp_value(s, c1) {
                    Err(f) => Err(f),
                    Ok((d, c2)) => if !(c1 < c2 <= s.len()) {
                        Err((ParseFault::Eof, c2))
                    } else {
                        match sp_elems(s, c2, stop) {
                            Err(f) => Err(f),
                            Ok((ds, c3)) => Ok((seq![d] + ds, c3)),
                        }
                    },
                }
            },
        }
    }
}

/// The start of an operator list after its `[`: the first operand, the
/// operator, the second operand, and where reading stops.
pub open spec fn sp_ophead(s: Seq<char>, c: int) -> Parsed<(Datum, Seq<char>, Datum)>
    decreases s.len() - c, 1nat,
{
    match sp_value(s, c) {
        Err(f) => Err(f),
        Ok((first, c1)) => {
            let c2 = skip_nl(s, c1);
            let j = tok_start(s, c2);
            let c3 = after(s, c2);
            if !(0 <= c < c1 <= c2 <= s.len()) {
                Err((ParseFault::Eof, c2))
            } else {
                match tok(s, c2) {
                    Some(Ok(TokenView::Identifier(op))) => if !(c2 < c3 <= s.len()) {
                        Err((ParseFault::Eof, c3))
                    } else {
                        match sp_value(s, c3) {
                            Err(f) => Err(f),
                            Ok((second, c4)) => if !(c3 < c4 <= s.len()) {
                                Err((ParseFault::Eof, c4))
                            } else {
                                Ok(((first, op, second), c4))
                            },
                        }
                    },
                    Some(Ok(other)) => Err((ParseFault::Unexpected(other), j)),
                    Some(Err(e)) => Err((ParseFault::Tokenize(e), j)),
                    None => Err((ParseFault::Unterminated, j)),
                }
            }
        },
    }
}

/// The rest of `[a op b ...]` after its `[`, up to and including its `]`.
pub open spec fn sp_oplist(s: Seq<char>, c: int) -> Parsed<Datum>
    decreases s.len() - c, 2nat,
{
    match sp_ophead(s, c) {
        Err(f) => Err(f),
        Ok(((first, op, second), c4)) => if !(c < c4 <= s.len()) {
            Err((ParseFault::Eof, c4))
        } else {
            match sp_oprest(s, c4, op) {
                Err(f) => Err(f),
                Ok((rest, c5)) => if is_tok(s, c5, TokenView::RBracket) {
                    Ok((list_datum(seq![Datum::Ident(op), first, second] + rest), after(s, c5)))
                } else {
                    Err(fail_next(s, c5))
                },
            }
        },
    }
}

/// Further `op value` pairs of an operator list, up to its `]` (left unread).
pub open spec fn sp_oprest(s: Seq<char>, c: int, op: Seq<char>) -> Parsed<Seq<Datum>>
    decreases s.len() - c, 3nat,
{
    let c1 = skip_nl(s, c);
    let j = tok_start(s, c1);
    let c2 = after(s, c1);
    if !(0 <= c <= c1 <= s.len()) {
        Err((ParseFault::Eof, c1))
    } else {
        match tok(s, c1) {
            None => Err(fail_next(s, c1)),
            Some(Err(_)) => Err(fail_next(s, c1)),
            Some(Ok(TokenView::RBracket)) => Ok((Seq::empty(), c1)),
            Some(Ok(TokenView::Identifier(op2))) => if op2 != op {
                Err((ParseFault::Mismatched(op, op2), j))
            } else if !(c1 < c2 <= s.len()) {
                Err((ParseFault::Eof, c2))
            } else {
                match sp_value(s, c2) {
                    Err(f) => Err(f),
                    Ok((d, c3)) => if !(c2 < c3 <= s.len()) {
                        Err((ParseFault::Eof, c3))
                    } else {
                        match sp_oprest(s, c3, op) {
                            Err(f) => Err(f),
                            Ok((ds, c4)) => Ok((seq![d] + ds, c4)),
                        }
                    },
                }
            },
            Some(Ok(other)) => Err((ParseFault::Unexpected(other), j)),
        }
    }
}

/// Statements from index `c`: each the values up to a separator, as a
/// list; up to a `}` (left unread), or at the top level to the end.
pub open spec fn sp_statements(s: Seq<char>, c: int, top: bool) -> Parsed<Seq<Datum>>
    decreases s.len() - c, 3nat,
{
    if !(0 <= c <= s.len()) {
        Err((ParseFault::Eof, c))
    } else {
        match tok(s, c) {
            None => if top {
                Ok((Seq::empty(), c))
            } else {
                Err(fail_next(s, c))
            },
            Some(Err(_)) => Err(fail_next(s, c)),
            Some(Ok(t)) => if t == TokenView::RBrace && !top {
                Ok((Seq::empty(), c))
            } else if is_separator(t) {
                let c1 = after(s, c);
                if !(c < c1 <= s.len()) {
                    Err((ParseFault::Eof, c1))
                } else {
                    sp_statements(s, c1, top)
                }
            } else {
                match sp_value(s, c) {
                    Err(f) => Err(f),
                    Ok((first, c1)) => if !(c < c1 <= s.len()) {
                        Err((ParseFault::Eof, c1))
                    } else {
                        match sp_elems(
                            s,
                            c1,
                            if top {
                                Stop::TopStatement
                            } else {
                                Stop::Statement
                            },
                        ) {
                            Err(f) => Err(f),
                            Ok((rest, c2)) => if !(c1 <= c2 <= s.len()) {
                                Err((ParseFault::Eof, c2))
                            } else {
                                match sp_statements(s, c2, top) {
                                    Err(f) => Err(f),
                                    Ok((stmts, c3)) => Ok(
                                        (seq![list_datum(seq![first] + rest)] + stmts, c3),
                                    ),
                                }
                            },
                        }
                    },
                }
            },
        }
    }
}

/// The position of the character at index `j` of `s`, as a `Position`.
pub open spec fn pos_of(s: Seq<char>, j: int) -> Position {
    (pos_at(s, j).0 as usize, pos_at(s, j).1 as usize)
}

/// A map for a single node labelled `p`.
pub open spec fn leaf_map(p: Position) -> PositionMap {
    ContextMap::Node(Some(p), Box::new(ContextMap::Empty), Box::new(ContextMap::Empty))
}

/// The map `m` with its node labelled `p`.
pub open spec fn label_map(p: Position, m: PositionMap) -> PositionMap {
    ContextMap::Node(Some(p), Box::new(crate::value::first_of(m)), Box::new(crate::value::rest_of(m)))
}

/// The map of a list cell: `m` for its element, `rest` for what follows.
pub open spec fn cons_map(m: PositionMap, rest: PositionMap) -> PositionMap {
    ContextMap::Node(None, Box::new(m), Box::new(rest))
}

/// The maps `ms` as the elements of a list, followed by `tail`.
pub open spec fn append_maps(ms: Seq<PositionMap>, tail: PositionMap) -> PositionMap
    decreases ms.len(),
{
    if ms.len() == 0 {
        tail
    } else {
        cons_map(ms[0], append_maps(ms.drop_first(), tail))
    }
}

proof fn lemma_append_maps_push(ms: Seq<PositionMap>, m: PositionMap, t: PositionMap)
    ensures
        append_maps(ms, cons_map(m, t)) == append_maps(ms.push(m), t),
    decreases ms.len(),
{
    if ms.len() == 0 {
        assert(ms.push(m).drop_first() =~= Seq::<PositionMap>::empty());
        reveal_with_fuel(append_maps, 2);
    } else {
        lemma_append_maps_push(ms.drop_first(), m, t);
        assert(ms.push(m).drop_first() =~= ms.drop_first().push(m));
    }
}

proof fn lemma_append_maps_concat(a: Seq<PositionMap>, b: Seq<PositionMap>, t: PositionMap)
    ensures
        append_maps(a + b, t) == append_maps(a, append_maps(b, t)),
    decreases a.len(),
{
    if a.len() == 0 {
        assert(a + b =~= b);
    } else {
        lemma_append_maps_concat(a.drop_first(), b, t);
        assert((a + b).drop_first() =~= a.drop_first() + b);
    }
}

proof fn lemma_three_maps(ms: Seq<PositionMap>)
    requires
        ms.len() >= 3,
    ensures
        append_maps(ms, ContextMap::Empty) == cons_map(
            ms[0],
            cons_map(ms[1], cons_map(ms[2], append_maps(ms.subrange(3, ms.len() as int), ContextMap::Empty))),
        ),
{
    let a = ms.subrange(0, 3);
    let b = ms.subrange(3, ms.len() as int);
    assert(ms =~= a + b);
    lemma_append_maps_concat(a, b, ContextMap::Empty);
    assert(a.drop_first() =~= seq![ms[1], ms[2]]);
    assert(a.drop_first().drop_first() =~= seq![ms[2]]);
    assert(a.drop_first().drop_first().drop_first() =~= Seq::<PositionMap>::empty());
    reveal_with_fuel(append_maps, 4);
}

/// The positions of the value read from index `c` of `s`: each node is
/// labelled with the position of its first token; the cells that continue
/// a list after its first element carry no label.
pub open spec fn pm_value(s: Seq<char>, c: int) -> PositionMap
    decreases s.len() - c, 0nat,
{
    let c1 = skip_nl(s, c);
    let k = after(s, c1);
    if !(0 <= c <= c1 && c1 < k <= s.len()) {
        ContextMap::Empty
    } else {
        match tok(s, c1) {
            Some(Ok(t)) => pm_after_token(s, t, tok_start(s, c1), k),
            _ => ContextMap::Empty,
        }
    }
}

/// The positions of the value that starts with token `t` at index `j`.
pub open spec fn pm_after_token(s: Seq<char>, t: TokenView, j: int, k: int) -> PositionMap
    decreases s.len() - k, 5nat,
{
    let p = pos_of(s, j);
    if atom_of(t) is Some {
        leaf_map(p)
    } else if t == TokenView::LParen {
        label_map(p, pm_elems(s, k, Stop::Paren))
    } else if t == TokenView::LBracket {
        label_map(p, pm_oplist(s, k))
    } else if t == TokenView::LBrace {
        label_map(p, pm_statements(s, k, false))
    } else if t == TokenView::Quote {
        ContextMap::Node(Some(p), Box::new(pm_value(s, k)), Box::new(ContextMap::Empty))
    } else {
        ContextMap::Empty
    }
}

/// The positions of the elements read from index `c` up to the end of the run.
pub open spec fn pm_elems(s: Seq<char>, c: int, stop: Stop) -> PositionMap
    decreases s.len() - c, 1nat,
{
    let c1 = if stop == Stop::Paren {
        skip_nl(s, c)
    } else {
        c
    };
    if !(0 <= c <= c1 <= s.len()) {
        ContextMap::Empty
    } else {
        match tok(s, c1) {
            Some(Ok(t)) => if ends(stop, t) {
                ContextMap::Empty
            } else {
                match sp_value(s, c1) {
                    Ok((_, c2)) => if c1 < c2 <= s.len() {
                        cons_map(pm_value(s, c1), pm_elems(s, c2, stop))
                    } else {
                        ContextMap::Empty
                    },
                    Err(_) => ContextMap::Empty,
                }
            },
            _ => ContextMap::Empty,
        }
    }
}

/// The positions of the elements of an operator list read after its `[`:
/// the operator, the operands.
pub open spec fn pm_oplist(s: Seq<char>, c: int) -> PositionMap
    decreases s.len() - c, 2nat,
{
    match sp_ophead(s, c) {
        Ok(((_, op, _), c4)) => {
            let c1 = sp_value(s, c)->Ok_0.1;
            let c2 = skip_nl(s, c1);
            let c3 = after(s, c2);
            if !(0 <= c < c3 && c < c4 <= s.len()) {
                ContextMap::Empty
            } else {
                cons_map(
                    leaf_map(pos_of(s, tok_start(s, c2))),
                    cons_map(
                        pm_value(s, c),
                        cons_map(pm_value(s, c3), pm_oprest(s, c4, op)),
                    ),
                )
            }
        },
        Err(_) => ContextMap::Empty,
    }
}

/// The positions of the further operands of an operator list.
pub open spec fn pm_oprest(s: Seq<char>, c: int, op: Seq<char>) -> PositionMap
    decreases s.len() - c, 3nat,
{
    let c1 = skip_nl(s, c);
    let c2 = after(s, c1);
    if !(0 <= c <= c1 && c1 < c2 <= s.len()) {
        ContextMap::Empty
    } else {
        match tok(s, c1) {
            Some(Ok(TokenView::Identifier(op2))) => if op2 != op {
                ContextMap::Empty
            } else {
                match sp_value(s, c2) {
                    Ok((_, c3)) => if c2 < c3 <= s.len() {
                        cons_map(pm_value(s, c2), pm_oprest(s, c3, op))
                    } else {
                        ContextMap::Empty
                    },
                    Err(_) => ContextMap::Empty,
                }
            },
            _ => ContextMap::Empty,
        }
    }
}

/// The positions of the statements read from index `c`: each statement
/// labelled with the position of its first token.
pub open spec fn pm_statements(s: Seq<char>, c: int, top: bool) -> PositionMap
    decreases s.len() - c, 3nat,
{
    let stop = if top {
        Stop::TopStatement
    } else {
        Stop::Statement
    };
    if !(0 <= c <= s.len()) {
        ContextMap::Empty
    } else {
        match tok(s, c) {
            Some(Ok(t)) => if t == TokenView::RBrace && !top {
                ContextMap::Empty
            } else if is_separator(t) {
                let c1 = after(s, c);
                if !(c < c1 <= s.len()) {
                    ContextMap::Empty
                } else {
                    pm_statements(s, c1, top)
                }
            } else {
                match sp_value(s, c) {
                    Ok((_, c1)) => if !(c < c1 <= s.len()) {
                        ContextMap::Empty
                    } else {
                        match sp_elems(s, c1, stop) {
                            Ok((_, c2)) => if !(c1 <= c2 <= s.len()) {
                                ContextMap::Empty
                            } else {
                                cons_map(
                                    ContextMap::Node(
                                        Some(pos_of(s, tok_start(s, c))),
                                        Box::new(pm_value(s, c)),
                                        Box::new(pm_elems(s, c1, stop)),
                                    ),
                                    pm_statements(s, c2, top),
                                )
                            },
                            Err(_) => ContextMap::Empty,
                        }
                    },
                    Err(_) => ContextMap::Empty,
                }
            },
            _ => ContextMap::Empty,
        }
    }
}

/// The fault of a parse error.
pub open spec fn fault_of(e: ErrorInternal) -> ParseFault {
    match e {
        ErrorInternal::Eof => ParseFault::Eof,
        ErrorInternal::MismatchedOperatorList(a, b) => ParseFault::Mismatched(a@, b@),
        ErrorInternal::Tokenize(t) => ParseFault::Tokenize(t),
        ErrorInternal::UnexpectedToken(t) => ParseFault::Unexpected(t.view()),
        ErrorInternal::UnterminatedList => ParseFault::Unterminated,
    }
}

/// The error `e` is the fault `f` at the token that starts at index `j` of `s`.
pub open spec fn error_at(e: Error, f: (ParseFault, int), s: Seq<char>) -> bool {
    &&& fault_of(e.error) == f.0
    &&& pos_eq((e.line, e.column), pos_at(s, f.1))
}

/// `ds` before the data of the outcome `o`.
pub open spec fn prepend(ds: Seq<Datum>, o: Parsed<Seq<Datum>>) -> Parsed<Seq<Datum>> {
    match o {
        Err(f) => Err(f),
        Ok((es, k)) => Ok((ds + es, k)),
    }
}

/// The data of the values `vs`.
pub open spec fn views(vs: Seq<Value>) -> Seq<Datum> {
    vs.map_values(|v: Value| v.view())
}

proof fn lemma_skip_nl_bounds(s: Seq<char>, c: int)
    requires
        0 <= c <= s.len(),
    ensures
        c <= skip_nl(s, c) <= s.len(),
    decreases s.len() - c,
{
    if tok(s, c) == Some(Ok::<TokenView, tokenizer::Error>(TokenView::Newline)) && c < after(s, c)
        <= s.len() {
        lemma_skip_nl_bounds(s, after(s, c));
    }
}

proof fn lemma_prepend_prepend(a: Seq<Datum>, b: Seq<Datum>, o: Parsed<Seq<Datum>>)
    ensures
        prepend(a, prepend(b, o)) == prepend(a + b, o),
{
    if let Ok((es, k)) = o {
        assert(a + (b + es) =~= (a + b) + es);
    }
}

proof fn lemma_list_datum_cons(d: Datum, ds: Seq<Datum>)
    ensures
        list_datum(seq![d] + ds) == Datum::Cell(Box::new(d), Box::new(list_datum(ds))),
{
    assert((seq![d] + ds).drop_first() =~= ds);
}

/// What may end a run of list elements.
#[derive(Copy, Clone, PartialEq, Eq, Structural)]
pub enum Stop {
    /// `)`; newlines are skipped.
    Paren,
    /// A separator or `}`.
    Statement,
    /// A separator or the end of input.
    TopStatement,
}

/// The kind of the next token, as far as the parser's decisions go.
#[derive(Copy, Clone, PartialEq, Eq, Structural)]
enum Class {
    RParen,
    RBracket,
    RBrace,
    Newline,
    Separator,
    Other,
    Failed,
    End,
}

/// The class of a token.
spec fn class_of(t: TokenView) -> Class {
    match t {
        TokenView::RParen => Class::RParen,
        TokenView::RBracket => Class::RBracket,
        TokenView::RBrace => Class::RBrace,
        TokenView::Newline => Class::Newline,
        TokenView::Semicolon => Class::Separator,
        TokenView::Comma => Class::Separator,
        _ => Class::Other,
    }
}

/// The class of the outcome `o`.
spec fn outcome_class(o: Option<Result<TokenView, tokenizer::Error>>) -> Class {
    match o {
        None => Class::End,
        Some(Err(_)) => Class::Failed,
        Some(Ok(t)) => class_of(t),
    }
}

fn ends_run(stop: Stop, c: Class) -> (r: bool)
    ensures
        forall|t: TokenView| c == class_of(t) ==> (r == ends(stop, t)),
{
    match stop {
        Stop::Paren => c == Class::RParen,
        Stop::Statement => c == Class::Newline || c == Class::Separator || c == Class::RBrace,
        Stop::TopStatement => c == Class::Newline || c == Class::Separator,
    }
}

fn leaf(at: Position, s: Ghost<Seq<char>>) -> (r: PositionMap)
    requires
        in_source(s@, at),
    ensures
        within(r, s@),
        entry_of(r) == Some(at),
        r == ContextMap::Node(Some(at), Box::new(ContextMap::<Position>::Empty), Box::new(ContextMap::<Position>::Empty)),
{
    let r = ContextMap::Node(Some(at), Box::new(ContextMap::Empty), Box::new(ContextMap::Empty));
    proof {
        reveal_with_fuel(within, 2);
    }
    r
}

/// Labels the node that `m` describes with `at`.
fn place(m: &mut PositionMap, at: Position, v: Ghost<Value>, s: Ghost<Seq<char>>)
    requires
        spine_placed(v@, *old(m), s@),
        in_source(s@, at),
        v@ is Nil || v@ is Cell,
    ensures
        well_placed(v@, *final(m), s@),
        entry_of(*final(m)) == Some(at),
        *final(m) == label_map(at, *old(m)),
{
    m.insert(at);
}

/// The list of `values`, with the map of each element.
fn elements_to_list(values: Vec<Value>, maps: Vec<PositionMap>, s: Ghost<Seq<char>>) -> (r: (Value, PositionMap))
    requires
        values@.len() == maps@.len(),
        forall|i: int| 0 <= i < values@.len() ==> well_placed(values@[i], maps@[i], s@),
    ensures
        spine_placed(r.0, r.1, s@),
        r.0 is Nil || r.0 is Cell,
        r.0.view() == list_datum(views(values@)),
        r.1 == append_maps(maps@, ContextMap::Empty),
{
    let ghost all = views(values@);
    let ghost all_maps = maps@;
    let mut values = values;
    let mut maps = maps;
    let mut list = Value::Nil;
    let mut lm: PositionMap = ContextMap::Empty;
    assert(all.subrange(all.len() as int, all.len() as int) =~= Seq::<Datum>::empty());
    assert(all_maps.subrange(all_maps.len() as int, all_maps.len() as int) =~= Seq::<PositionMap>::empty());
    while values.len() > 0
        invariant
            values@.len() == maps@.len(),
            forall|i: int| 0 <= i < values@.len() ==> well_placed(values@[i], maps@[i], s@),
            spine_placed(list, lm, s@),
            list is Nil || list is Cell,
            values@.len() <= all.len(),
            views(values@) == all.subrange(0, values@.len() as int),
            list.view() == list_datum(all.subrange(values@.len() as int, all.len() as int)),
            maps@ == all_maps.subrange(0, maps@.len() as int),
            all_maps.len() == all.len(),
            lm == append_maps(all_maps.subrange(maps@.len() as int, all_maps.len() as int), ContextMap::Empty),
        decreases values@.len(),
    {
        let ghost n = values@.len() as int;
        let ghost before = values@;
        let ghost before_maps = maps@;
        let v = values.pop().unwrap();
        let m = maps.pop().unwrap();
        proof {
            assert(before_maps == maps@.push(m));
            assert(all_maps[n - 1] == m);
            assert(maps@ =~= all_maps.subrange(0, n - 1));
            assert(all_maps.subrange(n - 1, all_maps.len() as int).drop_first() =~= all_maps.subrange(n, all_maps.len() as int));
            assert(before == values@.push(v));
            assert(before[n - 1] == v);
            assert(views(before)[n - 1] == v.view());
            assert(all.subrange(0, n)[n - 1] == all[n - 1]);
            assert(all[n - 1] == v.view());
            assert(views(values@) =~= all.subrange(0, n - 1));
            assert(all.subrange(n - 1, all.len() as int) =~= seq![v.view()] + all.subrange(n, all.len() as int));
            lemma_list_datum_cons(v.view(), all.subrange(n, all.len() as int));
        }
        list = Value::Cell(Box::new(v), Box::new(list));
        lm = ContextMap::node(m, lm);
    }
    assert(all.subrange(0, all.len() as int) =~= all);
    assert(all_maps.subrange(0, all_maps.len() as int) =~= all_maps);
    (list, lm)
}

/// The value an identifier token stands for: `nil`, `true` and `false`
/// name atoms.
fn identifier_value(name: String) -> (v: Value)
    ensures
        v.view() == atom_of(TokenView::Identifier(name@))->Some_0,
{
    proof {
        reveal_strlit("nil");
        reveal_strlit("true");
        reveal_strlit("false");
        assert("nil"@ =~= seq!['n', 'i', 'l']);
        assert("true"@ =~= seq!['t', 'r', 'u', 'e']);
        assert("false"@ =~= seq!['f', 'a', 'l', 's', 'e']);
    }
    if name == identifier("nil") {
        Value::Nil
    } else if name == identifier("true") {
        Value::Boolean(true)
    } else if name == identifier("false") {
        Value::Boolean(false)
    } else {
        Value::Identifier(name)
    }
}

/// The parser's state: a reader over the tokens of the input.
pub struct Parser {
    pub input: Reader,
}

impl Parser {
    pub open spec fn wf(&self) -> bool {
        self.input.wf()
    }

    pub open spec fn text(&self) -> Seq<char> {
        self.input.text()
    }

    pub open spec fn measure(&self) -> int {
        self.input.measure()
    }

    pub open spec fn live(&self) -> bool {
        self.input.live()
    }

    pub open spec fn cursor(&self) -> int {
        self.input.cursor()
    }

    /// A parser over the characters of `input`.
    pub fn new(input: Vec<char>) -> (r: Self)
        requires
            input@.len() < usize::MAX,
        ensures
            r.wf(),
            r.text() == input@,
            r.live(),
            r.cursor() == 0,
    {
        Parser { input: Reader::new(tokenize(input)) }
    }

    /// Peeks at the next token and classifies it, with its position.
    fn look(&mut self) -> (r: (Class, Position))
        requires
            old(self).wf(),
        ensures
            final(self).wf(),
            final(self).text() == old(self).text(),
            final(self).measure() <= old(self).measure(),
            r.0 != Class::Failed && r.0 != Class::End ==> (final(self).input.peeked matches Some(
                ResultAt::OkAt(_, p),
            ) && p == r.1 && in_source(final(self).text(), p)),
            r.0 == Class::Failed ==> final(self).input.peeked matches Some(ResultAt::ErrAt(_, _)),
            r.0 == Class::End ==> final(self).input.peeked matches Some(ResultAt::NoneAt(_)),
            old(self).live() ==> final(self).live() && final(self).cursor() == old(self).cursor()
                && r.0 == outcome_class(tok(old(self).text(), old(self).cursor())),
            final(self).input.peeked is Some && final(self).input.peeked->Some_0.spec_position() == r.1,
    {
        match self.input.peek() {
            ResultAt::OkAt(t, at) => {
                let c = match t {
                    Token::RParen => Class::RParen,
                    Token::RBracket => Class::RBracket,
                    Token::RBrace => Class::RBrace,
                    Token::Newline => Class::Newline,
                    Token::Semicolon => Class::Separator,
                    Token::Comma => Class::Separator,
                    _ => Class::Other,
                };
                (c, *at)
            },
            ResultAt::ErrAt(_, at) => (Class::Failed, *at),
            ResultAt::NoneAt(at) => (Class::End, *at),
        }
    }

    /// Consumes newline tokens.
    fn skip_newlines(&mut self)
        requires
            old(self).wf(),
        ensures
            final(self).wf(),
            final(self).text() == old(self).text(),
            final(self).measure() <= old(self).measure(),
            old(self).live() ==> final(self).live() && final(self).cursor() == skip_nl(
                old(self).text(),
                old(self).cursor(),
            ),
    {
        let ghost s = self.text();
        let ghost m0 = self.measure();
        let ghost live0 = self.live();
        loop
            invariant
                self.wf(),
                self.text() == s,
                s == old(self).text(),
                self.measure() <= m0,
                live0 == old(self).live(),
                live0 ==> self.live() && skip_nl(s, self.cursor()) == skip_nl(s, old(self).cursor()),
            ensures
                live0 ==> skip_nl(s, self.cursor()) == self.cursor(),
            decreases self.measure(),
        {
            let (c, _) = self.look();
            if c != Class::Newline {
                proof {
                    if live0 {
                        assert(tok(s, self.cursor()) != Some(Ok::<TokenView, tokenizer::Error>(TokenView::Newline)));
                    }
                }
                break;
            }
            let ghost before = self.cursor();
            self.input.next();
            proof {
                if live0 {
                    lemma_token_step_bounds(s, before);
                }
            }
        }
    }

    /// Consumes the next token, which `look` found to be an error or the
    /// end of input, and returns the matching error.
    fn fail_at_next(&mut self, at: Position) -> (r: Error)
        requires
            old(self).wf(),
        ensures
            final(self).wf(),
            final(self).text() == old(self).text(),
            old(self).live() && (old(self).input.peeked matches Some(x) && x.spec_position() == at)
                ==> error_at(r, fail_next(old(self).text(), old(self).cursor()), old(self).text()),
    {
        match self.input.next() {
            ResultAt::ErrAt(e, p) => fail(ErrorInternal::Tokenize(e), p),
            _ => fail(ErrorInternal::UnterminatedList, at),
        }
    }

    /// Reads one value.
    pub fn parse_value(&mut self) -> (r: Result<(Value, PositionMap), Error>)
        requires
            old(self).wf(),
        ensures
            old(self).live() ==> (r matches Ok((_, m)) ==> (entry_of(m) matches Some(p) && pos_eq(
                p,
                pos_at(old(self).text(), token_step(old(self).text(), skip_nl(old(self).text(), old(self).cursor())).1),
            ))),
            final(self).wf(),
            final(self).text() == old(self).text(),
            r matches Ok((v, m)) ==> well_placed(v, m, old(self).text()) && final(self).measure()
                < old(self).measure(),
            old(self).live() ==> ({
                let sp = sp_value(old(self).text(), old(self).cursor());
                &&& (r is Ok <==> sp is Ok)
                &&& (r matches Err(e) ==> error_at(e, sp->Err_0, old(self).text()))
                &&& (r matches Ok((_, m)) ==> m == pm_value(old(self).text(), old(self).cursor()))
                &&& (r matches Ok((v, _)) ==> final(self).live() && v.view() == sp->Ok_0.0
                    && final(self).cursor() == sp->Ok_0.1 && old(self).cursor()
                    < final(self).cursor() <= old(self).text().len())
            }),
        decreases old(self).measure(), 0nat,
    {
        let ghost s = self.text();
        let ghost c = self.cursor();
        let ghost live0 = self.live();
        proof {
            if live0 {
                lemma_skip_nl_bounds(s, c);
            }
        }
        self.skip_newlines();
        let ghost c1 = self.cursor();
        proof {
            if live0 {
                lemma_token_step_bounds(s, c1);
            }
        }
        let next = self.input.next();
        match next {
            ResultAt::NoneAt(at) => Err(fail(ErrorInternal::Eof, at)),
            ResultAt::ErrAt(e, at) => Err(fail(ErrorInternal::Tokenize(e), at)),
            ResultAt::OkAt(t, at) => {
                assert(live0 ==> sp_value(s, c) == sp_after_token(s, t.view(), tok_start(s, c1), self.cursor()));
                let ghost j = if live0 {
                    tok_start(s, c1)
                } else {
                    choose|i: int| 0 <= i < s.len() && pos_eq(at, #[trigger] pos_at(s, i))
                };
                self.parse_after_token(t, at, Ghost(j))
            },
        }
    }

    /// Reads the value that starts with the token `t` at `at`, just read.
    #[verifier::rlimit(100)]
    fn parse_after_token(&mut self, t: Token, at: Position, j: Ghost<int>) -> (r: Result<(Value, PositionMap), Error>)
        requires
            old(self).wf(),
            in_source(old(self).text(), at),
            pos_eq(at, pos_at(old(self).text(), j@)),
        ensures
            r matches Ok((_, m)) ==> entry_of(m) == Some(at),
            final(self).wf(),
            final(self).text() == old(self).text(),
            r matches Ok((v, m)) ==> well_placed(v, m, old(self).text()) && final(self).measure()
                <= old(self).measure(),
            old(self).live() ==> ({
                let sp = sp_after_token(old(self).text(), t.view(), j@, old(self).cursor());
                &&& (r is Ok <==> sp is Ok)
                &&& (r matches Err(e) ==> error_at(e, sp->Err_0, old(self).text()))
                &&& (r matches Ok((_, m)) ==> m == pm_after_token(old(self).text(), t.view(), j@, old(self).cursor()))
                &&& (r matches Ok((v, _)) ==> final(self).live() && v.view() == sp->Ok_0.0
                    && final(self).cursor() == sp->Ok_0.1 && old(self).cursor()
                    <= final(self).cursor() <= old(self).text().len())
            }),
        decreases old(self).measure(), 4nat,
    {
        let ghost s = self.text();
        match t {
            Token::Integer(i) => Ok((Value::Integer(i), leaf(at, Ghost(s)))),
            Token::String(x) => Ok((Value::String(x), leaf(at, Ghost(s)))),
            Token::Identifier(name) => Ok((identifier_value(name), leaf(at, Ghost(s)))),
            Token::LParen => self.parse_paren(at),
            Token::LBracket => self.parse_operator_list(at),
            Token::LBrace => self.parse_form_list(at),
            Token::Quote => self.parse_quoted(at),
            other => Err(fail(ErrorInternal::UnexpectedToken(other), at)),
        }
    }

    /// Reads the rest of `( ... )` after the `(` at `at`.
    fn parse_paren(&mut self, at: Position) -> (r: Result<(Value, PositionMap), Error>)
        requires
            old(self).wf(),
            in_source(old(self).text(), at),
        ensures
            r matches Ok((_, m)) ==> entry_of(m) == Some(at),
            final(self).wf(),
            final(self).text() == old(self).text(),
            r matches Ok((v, m)) ==> well_placed(v, m, old(self).text()) && final(self).measure()
                <= old(self).measure(),
            old(self).live() ==> ({
                let sp = sp_paren(old(self).text(), old(self).cursor());
                &&& (r is Ok <==> sp is Ok)
                &&& (r matches Err(e) ==> error_at(e, sp->Err_0, old(self).text()))
                &&& (r matches Ok((_, m)) ==> m == label_map(at, pm_elems(old(self).text(), old(self).cursor(), Stop::Paren)))
                &&& (r matches Ok((v, _)) ==> final(self).live() && v.view() == sp->Ok_0.0
                    && final(self).cursor() == sp->Ok_0.1 && old(self).cursor()
                    < final(self).cursor() <= old(self).text().len())
            }),
        decreases old(self).measure(), 2nat,
    {
        let ghost s = self.text();
        match self.parse_elements(Stop::Paren) {
            Ok((v, m)) => {
                let (cls, p) = self.look();
                if cls != Class::RParen {
                    return Err(self.fail_at_next(p));
                }
                self.input.next();
                let mut m = m;
                place(&mut m, at, Ghost(v), Ghost(s));
                Ok((v, m))
            },
            Err(e) => Err(e),
        }
    }

    /// Reads the value after the `'` at `at`, quoted.
    fn parse_quoted(&mut self, at: Position) -> (r: Result<(Value, PositionMap), Error>)
        requires
            old(self).wf(),
            in_source(old(self).text(), at),
        ensures
            r matches Ok((_, m)) ==> entry_of(m) == Some(at),
            final(self).wf(),
            final(self).text() == old(self).text(),
            r matches Ok((v, m)) ==> well_placed(v, m, old(self).text()) && final(self).measure()
                <= old(self).measure(),
            old(self).live() ==> ({
                let sp = sp_value(old(self).text(), old(self).cursor());
                &&& (r is Ok <==> sp is Ok)
                &&& (r matches Err(e) ==> error_at(e, sp->Err_0, old(self).text()))
                &&& (r matches Ok((_, m)) ==> m == ContextMap::Node(Some(at), Box::new(pm_value(old(self).text(), old(self).cursor())), Box::new(ContextMap::Empty)))
                &&& (r matches Ok((v, _)) ==> final(self).live() && v is Quoted
                    && v.view() == Datum::Quoted(Box::new(sp->Ok_0.0)) && final(self).cursor()
                    == sp->Ok_0.1 && old(self).cursor() < final(self).cursor()
                    <= old(self).text().len())
            }),
        decreases old(self).measure(), 2nat,
    {
        match self.parse_value() {
            Ok((v, m)) => {
                let qm = ContextMap::Node(Some(at), Box::new(m), Box::new(ContextMap::Empty));
                proof {
                    reveal_with_fuel(within, 2);
                }
                Ok((Value::Quoted(Box::new(v)), qm))
            },
            Err(e) => Err(e),
        }
    }

    /// Reads values until the next token is one that ends the run, which
    /// is left unread. Returns them as a list.
    fn parse_elements(&mut self, stop: Stop) -> (r: Result<(Value, PositionMap), Error>)
        requires
            old(self).wf(),
        ensures
            final(self).wf(),
            final(self).text() == old(self).text(),
            r matches Ok((v, m)) ==> spine_placed(v, m, old(self).text()) && (v is Nil
                || v is Cell) && final(self).measure() <= old(self).measure(),
            old(self).live() ==> ({
                let sp = sp_elems(old(self).text(), old(self).cursor(), stop);
                &&& (r is Ok <==> sp is Ok)
                &&& (r matches Err(e) ==> error_at(e, sp->Err_0, old(self).text()))
                &&& (r matches Ok((_, m)) ==> m == pm_elems(old(self).text(), old(self).cursor(), stop))
                &&& (r matches Ok((v, _)) ==> final(self).live() && v.view() == list_datum(
                    sp->Ok_0.0,
                ) && final(self).cursor() == sp->Ok_0.1 && old(self).cursor()
                    <= final(self).cursor() <= old(self).text().len())
            }),
        decreases old(self).measure(), 1nat,
    {
        let ghost s = self.text();
        let ghost m0 = self.measure();
        let ghost c0 = self.cursor();
        let ghost live0 = self.live();
        let mut values: Vec<Value> = Vec::new();
        let mut maps: Vec<PositionMap> = Vec::new();
        assert(views(values@) =~= Seq::<Datum>::empty());
        assert(prepend(Seq::<Datum>::empty(), sp_elems(s, c0, stop)) =~= sp_elems(s, c0, stop))
            by {
            if let Ok((es, k)) = sp_elems(s, c0, stop) {
                assert(Seq::<Datum>::empty() + es =~= es);
            }
        }
        loop
            invariant
                self.wf(),
                self.text() == s,
                s == old(self).text(),
                self.measure() <= m0,
                m0 == old(self).measure(),
                values@.len() == maps@.len(),
                forall|i: int| 0 <= i < values@.len() ==> well_placed(values@[i], maps@[i], s),
                live0 == old(self).live(),
                c0 == old(self).cursor(),
                live0 ==> self.live() && c0 <= self.cursor() <= s.len() && sp_elems(s, c0, stop)
                    == prepend(views(values@), sp_elems(s, self.cursor(), stop)),
                live0 ==> pm_elems(s, c0, stop) == append_maps(maps@, pm_elems(s, self.cursor(), stop)),
            ensures
                live0 ==> pm_elems(s, c0, stop) == append_maps(maps@, ContextMap::<Position>::Empty),
                live0 ==> sp_elems(s, c0, stop) == Parsed::<Seq<Datum>>::Ok((views(values@), self.cursor())),
            decreases self.measure(),
        {
            let ghost cur = self.cursor();
            proof {
                if live0 {
                    lemma_skip_nl_bounds(s, cur);
                }
            }
            if stop == Stop::Paren {
                self.skip_newlines();
            }
            let ghost c1 = self.cursor();
            let (c, p) = self.look();
            proof {
                if live0 {
                    assert(c1 == if stop == Stop::Paren {
                        skip_nl(s, cur)
                    } else {
                        cur
                    });
                    if c != Class::End && c != Class::Failed {
                        lemma_token_step_bounds(s, c1);
                    }
                    assert(views(values@) + Seq::<Datum>::empty() =~= views(values@));
                }
            }
            if c == Class::End && stop == Stop::TopStatement {
                break;
            }
            if c == Class::End || c == Class::Failed {
                return Err(self.fail_at_next(p));
            }
            if ends_run(stop, c) {
                break;
            }
            match self.parse_value() {
                Ok((v, m)) => {
                    proof {
                        if live0 {
                            lemma_prepend_prepend(
                                views(values@),
                                seq![v.view()],
                                sp_elems(s, self.cursor(), stop),
                            );
                            assert(views(values@.push(v)) =~= views(values@) + seq![v.view()]);
                            lemma_append_maps_push(maps@, m, pm_elems(s, self.cursor(), stop));
                        }
                    }
                    values.push(v);
                    maps.push(m);
                },
                Err(e) => {
                    return Err(e);
                },
            }
        }
        Ok(elements_to_list(values, maps, Ghost(s)))
    }

    /// Reads further `op value` pairs of an operator list, appending the
    /// values, up to its `]`, which is left unread.
    #[verifier::rlimit(100)]
    fn parse_operator_rest(
        &mut self,
        operator: &String,
        values: &mut Vec<Value>,
        maps: &mut Vec<PositionMap>,
    ) -> (r: Result<(), Error>)
        requires
            old(self).wf(),
            old(values)@.len() == old(maps)@.len(),
            forall|i: int|
                0 <= i < old(values)@.len() ==> well_placed(
                    old(values)@[i],
                    old(maps)@[i],
                    old(self).text(),
                ),
        ensures
            r is Ok ==> final(maps)@.subrange(0, old(maps)@.len() as int) == old(maps)@,
            final(self).wf(),
            final(self).text() == old(self).text(),
            r is Ok ==> final(self).measure() <= old(self).measure(),
            r is Ok ==> final(values)@.len() == final(maps)@.len() && old(values)@.len()
                <= final(values)@.len() && final(values)@.subrange(0, old(values)@.len() as int)
                == old(values)@ && forall|i: int|
                0 <= i < final(values)@.len() ==> well_placed(
                    final(values)@[i],
                    final(maps)@[i],
                    old(self).text(),
                ),
            old(self).live() ==> ({
                let sp = sp_oprest(old(self).text(), old(self).cursor(), operator@);
                &&& (r is Ok <==> sp is Ok)
                &&& (r matches Err(e) ==> error_at(e, sp->Err_0, old(self).text()))
                &&& (r is Ok ==> pm_oprest(old(self).text(), old(self).cursor(), operator@) == append_maps(
                    final(maps)@.subrange(old(maps)@.len() as int, final(maps)@.len() as int),
                    ContextMap::Empty,
                ))
                &&& (r is Ok ==> final(self).live() && sp->Ok_0.0 == views(final(values)@).subrange(
                    old(values)@.len() as int,
                    final(values)@.len() as int,
                ) && final(self).cursor() == sp->Ok_0.1 && is_tok(
                    old(self).text(),
                    final(self).cursor(),
                    TokenView::RBracket,
                ) && old(self).cursor() <= final(self).cursor() <= old(self).text().len())
            }),
        decreases old(self).measure(), 1nat,
    {
        let ghost s = self.text();
        let ghost c0 = self.cursor();
        let ghost live0 = self.live();
        let ghost n0 = values@.len() as int;
        let ghost v0 = values@;
        let ghost m0 = self.measure();
        let ghost op = operator@;
        proof {
            assert(views(values@).subrange(n0, n0) =~= Seq::<Datum>::empty());
            if let Ok((es, k)) = sp_oprest(s, c0, op) {
                assert(Seq::<Datum>::empty() + es =~= es);
            }
            assert(values@.subrange(0, n0) =~= v0);
            assert(maps@.subrange(0, n0) =~= maps@);
        }
        loop
            invariant
                self.wf(),
                self.text() == s,
                s == old(self).text(),
                self.measure() <= m0,
                m0 == old(self).measure(),
                values@.len() == maps@.len(),
                n0 == old(values)@.len(),
                v0 == old(values)@,
                n0 <= values@.len(),
                values@.subrange(0, n0) == v0,
                maps@.subrange(0, n0) == old(maps)@,
                forall|i: int| 0 <= i < values@.len() ==> well_placed(values@[i], maps@[i], s),
                live0 == old(self).live(),
                c0 == old(self).cursor(),
                op == operator@,
                live0 ==> self.live() && c0 <= self.cursor() <= s.len() && sp_oprest(s, c0, op)
                    == prepend(
                    views(values@).subrange(n0, values@.len() as int),
                    sp_oprest(s, self.cursor(), op),
                ),
                live0 ==> pm_oprest(s, c0, op) == append_maps(
                    maps@.subrange(n0, maps@.len() as int),
                    pm_oprest(s, self.cursor(), op),
                ),
            ensures
                live0 ==> pm_oprest(s, c0, op) == append_maps(maps@.subrange(n0, maps@.len() as int), ContextMap::<Position>::Empty),
                live0 ==> sp_oprest(s, c0, op) == Parsed::<Seq<Datum>>::Ok(
                    (views(values@).subrange(n0, values@.len() as int), self.cursor()),
                ) && is_tok(s, self.cursor(), TokenView::RBracket),
            decreases self.measure(),
        {
            let ghost cur = self.cursor();
            proof {
                if live0 {
                    lemma_skip_nl_bounds(s, cur);
                }
            }
            self.skip_newlines();
            let ghost d1 = self.cursor();
            let (c, p) = self.look();
            proof {
                if live0 {
                    if c != Class::End && c != Class::Failed {
                        lemma_token_step_bounds(s, d1);
                    }
                    let rest = views(values@).subrange(n0, values@.len() as int);
                    assert(rest + Seq::<Datum>::empty() =~= rest);
                }
            }
            if c == Class::End || c == Class::Failed {
                return Err(self.fail_at_next(p));
            }
            if c == Class::RBracket {
                break;
            }
            match self.input.next() {
                ResultAt::OkAt(Token::Identifier(name), p2) => {
                    if name != *operator {
                        return Err(
                            fail(
                                ErrorInternal::MismatchedOperatorList(operator.clone(), name),
                                p2,
                            ),
                        );
                    }
                },
                ResultAt::OkAt(other, p2) => {
                    return Err(fail(ErrorInternal::UnexpectedToken(other), p2));
                },
                _ => {
                    return Err(fail(ErrorInternal::UnterminatedList, p));
                },
            }
            match self.parse_value() {
                Ok((v, m)) => {
                    proof {
                        if live0 {
                            let rest = views(values@).subrange(n0, values@.len() as int);
                            lemma_prepend_prepend(
                                rest,
                                seq![v.view()],
                                sp_oprest(s, self.cursor(), op),
                            );
                            assert(views(values@.push(v)) =~= views(values@) + seq![v.view()]);
                            assert(views(values@.push(v)).subrange(n0, values@.len() as int + 1)
                                =~= rest + seq![v.view()]);
                        }
                        assert(values@.push(v).subrange(0, n0) =~= values@.subrange(0, n0));
                        assert(maps@.push(m).subrange(0, n0) =~= maps@.subrange(0, n0));
                        if live0 {
                            assert(maps@.push(m).subrange(n0, maps@.len() as int + 1) =~= maps@.subrange(
                                n0,
                                maps@.len() as int,
                            ).push(m));
                            lemma_append_maps_push(
                                maps@.subrange(n0, maps@.len() as int),
                                m,
                                pm_oprest(s, self.cursor(), op),
                            );
                        }
                    }
                    values.push(v);
                    maps.push(m);
                },
                Err(e) => {
                    return Err(e);
                },
            }
        }
        Ok(())
    }

    /// Reads `first op second` at the start of an operator list.
    #[verifier::rlimit(100)]
    fn parse_operator_head(&mut self) -> (r: Result<(String, Position, (Value, PositionMap), (Value, PositionMap)), Error>)
        requires
            old(self).wf(),
        ensures
            final(self).wf(),
            final(self).text() == old(self).text(),
            r matches Ok((_, p, (v1, m1), (v2, m2))) ==> well_placed(v1, m1, old(self).text())
                && well_placed(v2, m2, old(self).text()) && in_source(old(self).text(), p)
                && final(self).measure() <= old(self).measure(),
            old(self).live() ==> ({
                let sp = sp_ophead(old(self).text(), old(self).cursor());
                &&& (r is Ok <==> sp is Ok)
                &&& (r matches Err(e) ==> error_at(e, sp->Err_0, old(self).text()))
                &&& (r matches Ok((_, p, (_, m1), (_, m2))) ==> ({
                    let c2 = skip_nl(old(self).text(), sp_value(old(self).text(), old(self).cursor())->Ok_0.1);
                    &&& m1 == pm_value(old(self).text(), old(self).cursor())
                    &&& p == pos_of(old(self).text(), tok_start(old(self).text(), c2))
                    &&& m2 == pm_value(old(self).text(), after(old(self).text(), c2))
                }))
                &&& (r matches Ok((op, _, (v1, _), (v2, _))) ==> final(self).live() && v1.view()
                    == sp->Ok_0.0.0 && op@ == sp->Ok_0.0.1 && v2.view() == sp->Ok_0.0.2
                    && final(self).cursor() == sp->Ok_0.1)
            }),
        decreases old(self).measure(), 1nat,
    {
        let ghost s = self.text();
        let ghost live0 = self.live();
        let first = match self.parse_value() {
            Ok(x) => x,
            Err(e) => {
                return Err(e);
            },
        };
        let ghost c1 = self.cursor();
        proof {
            if live0 {
                lemma_skip_nl_bounds(s, c1);
            }
        }
        self.skip_newlines();
        let ghost c2 = self.cursor();
        proof {
            if live0 {
                lemma_token_step_bounds(s, c2);
            }
        }
        let (operator, operator_at) = match self.input.next() {
            ResultAt::OkAt(Token::Identifier(name), p) => (name, p),
            ResultAt::OkAt(other, p) => {
                return Err(fail(ErrorInternal::UnexpectedToken(other), p));
            },
            ResultAt::ErrAt(e, p) => {
                return Err(fail(ErrorInternal::Tokenize(e), p));
            },
            ResultAt::NoneAt(p) => {
                return Err(fail(ErrorInternal::UnterminatedList, p));
            },
        };
        let second = match self.parse_value() {
            Ok(x) => x,
            Err(e) => {
                return Err(e);
            },
        };
        Ok((operator, operator_at, first, second))
    }

    /// Reads the rest of `[a op b op c ...]` after the `[` at `at`.
    #[verifier::rlimit(100)]
    fn parse_operator_list(&mut self, at: Position) -> (r: Result<(Value, PositionMap), Error>)
        requires
            old(self).wf(),
            in_source(old(self).text(), at),
        ensures
            r matches Ok((_, m)) ==> entry_of(m) == Some(at),
            final(self).wf(),
            final(self).text() == old(self).text(),
            r matches Ok((v, m)) ==> well_placed(v, m, old(self).text()) && final(self).measure()
                <= old(self).measure(),
            old(self).live() ==> ({
                let sp = sp_oplist(old(self).text(), old(self).cursor());
                &&& (r is Ok <==> sp is Ok)
                &&& (r matches Err(e) ==> error_at(e, sp->Err_0, old(self).text()))
                &&& (r matches Ok((_, m)) ==> m == label_map(at, pm_oplist(old(self).text(), old(self).cursor())))
                &&& (r matches Ok((v, _)) ==> final(self).live() && v.view() == sp->Ok_0.0
                    && final(self).cursor() == sp->Ok_0.1 && old(self).cursor()
                    < final(self).cursor() <= old(self).text().len())
            }),
        decreases old(self).measure(), 2nat,
    {
        let ghost s = self.text();
        let ghost c = self.cursor();
        let ghost live0 = self.live();
        let (operator, operator_at, (first, first_map), (second, second_map)) =
            match self.parse_operator_head() {
            Ok(x) => x,
            Err(e) => {
                return Err(e);
            },
        };
        let ghost c4 = self.cursor();
        proof {
            if live0 {
                assert(c < c4 <= s.len()) by {
                    let c1 = sp_value(s, c)->Ok_0.1;
                    assert(c < c1);
                }
            }
        }
        let ghost head = seq![Datum::Ident(operator@), first.view(), second.view()];
        let mut values: Vec<Value> = Vec::new();
        let mut maps: Vec<PositionMap> = Vec::new();
        values.push(Value::Identifier(operator.clone()));
        maps.push(leaf(operator_at, Ghost(s)));
        values.push(first);
        maps.push(first_map);
        values.push(second);
        maps.push(second_map);
        assert(views(values@) =~= head);
        let ghost head_maps = maps@;
        match self.parse_operator_rest(&operator, &mut values, &mut maps) {
            Ok(()) => {},
            Err(e) => {
                return Err(e);
            },
        }
        let (cls, p) = self.look();
        if cls != Class::RBracket {
            return Err(self.fail_at_next(p));
        }
        self.input.next();
        proof {
            if live0 {
                assert(views(values@).subrange(0, 3) =~= head);
                assert(views(values@) =~= head + views(values@).subrange(3, values@.len() as int));
            }
        }
        proof {
            lemma_three_maps(maps@);
            assert(maps@[0] == head_maps[0] && maps@[1] == head_maps[1] && maps@[2] == head_maps[2]) by {
                assert(maps@.subrange(0, 3) == head_maps);
                assert(maps@[0] == maps@.subrange(0, 3)[0]);
                assert(maps@[1] == maps@.subrange(0, 3)[1]);
                assert(maps@[2] == maps@.subrange(0, 3)[2]);
            }
        }
        let (v, m) = elements_to_list(values, maps, Ghost(s));
        let mut m = m;
        place(&mut m, at, Ghost(v), Ghost(s));
        Ok((v, m))
    }

    /// Reads statements up to `}` (or, at the top level, to the end of
    /// input). Each statement is a list of the values up to a separator.
    fn parse_statements(&mut self, top: bool) -> (r: Result<(Value, PositionMap), Error>)
        requires
            old(self).wf(),
        ensures
            final(self).wf(),
            final(self).text() == old(self).text(),
            r matches Ok((v, m)) ==> spine_placed(v, m, old(self).text()) && (v is Nil
                || v is Cell) && final(self).measure() <= old(self).measure(),
            old(self).live() ==> ({
                let sp = sp_statements(old(self).text(), old(self).cursor(), top);
                &&& (r is Ok <==> sp is Ok)
                &&& (r matches Err(e) ==> error_at(e, sp->Err_0, old(self).text()))
                &&& (r matches Ok((_, m)) ==> m == pm_statements(old(self).text(), old(self).cursor(), top))
                &&& (r matches Ok((v, _)) ==> final(self).live() && v.view() == list_datum(
                    sp->Ok_0.0,
                ) && final(self).cursor() == sp->Ok_0.1 && old(self).cursor()
                    <= final(self).cursor() <= old(self).text().len())
            }),
        decreases old(self).measure(), 2nat,
    {
        let ghost s = self.text();
        let ghost m0 = self.measure();
        let ghost c0 = self.cursor();
        let ghost live0 = self.live();
        let stop = if top {
            Stop::TopStatement
        } else {
            Stop::Statement
        };
        let mut values: Vec<Value> = Vec::new();
        let mut maps: Vec<PositionMap> = Vec::new();
        assert(views(values@) =~= Seq::<Datum>::empty());
        assert(prepend(Seq::<Datum>::empty(), sp_statements(s, c0, top)) =~= sp_statements(
            s,
            c0,
            top,
        )) by {
            if let Ok((es, k)) = sp_statements(s, c0, top) {
                assert(Seq::<Datum>::empty() + es =~= es);
            }
        }
        loop
            invariant
                self.wf(),
                self.text() == s,
                s == old(self).text(),
                self.measure() <= m0,
                m0 == old(self).measure(),
                values@.len() == maps@.len(),
                forall|i: int| 0 <= i < values@.len() ==> well_placed(values@[i], maps@[i], s),
                live0 == old(self).live(),
                c0 == old(self).cursor(),
                stop == (if top {
                    Stop::TopStatement
                } else {
                    Stop::Statement
                }),
                live0 ==> self.live() && c0 <= self.cursor() <= s.len() && sp_statements(s, c0, top)
                    == prepend(views(values@), sp_statements(s, self.cursor(), top)),
                live0 ==> pm_statements(s, c0, top) == append_maps(maps@, pm_statements(s, self.cursor(), top)),
            ensures
                live0 ==> pm_statements(s, c0, top) == append_maps(maps@, ContextMap::<Position>::Empty),
                live0 ==> sp_statements(s, c0, top) == Parsed::<Seq<Datum>>::Ok((views(values@), self.cursor())),
            decreases self.measure(),
        {
            let ghost cur = self.cursor();
            let (c, at) = self.look();
            proof {
                if live0 {
                    if c != Class::End && c != Class::Failed {
                        lemma_token_step_bounds(s, cur);
                    }
                    assert(views(values@) + Seq::<Datum>::empty() =~= views(values@));
                }
            }
            if c == Class::End && top {
                break;
            }
            if c == Class::End || c == Class::Failed {
                return Err(self.fail_at_next(at));
            }
            if c == Class::RBrace && !top {
                break;
            }
            if c == Class::Newline || c == Class::Separator {
                self.input.next();
            } else {
                let (first, first_map) = match self.parse_value() {
                    Ok(x) => x,
                    Err(e) => {
                        return Err(e);
                    },
                };
                let (rest, rest_map) = match self.parse_elements(stop) {
                    Ok(x) => x,
                    Err(e) => {
                        return Err(e);
                    },
                };
                let statement = Value::Cell(Box::new(first), Box::new(rest));
                let mut statement_map = ContextMap::node(first_map, rest_map);
                place(&mut statement_map, at, Ghost(statement), Ghost(s));
                proof {
                    if live0 {
                        let c1 = sp_value(s, cur)->Ok_0.1;
                        let es = sp_elems(s, c1, stop)->Ok_0.0;
                        lemma_list_datum_cons(first.view(), es);
                        lemma_prepend_prepend(
                            views(values@),
                            seq![statement.view()],
                            sp_statements(s, self.cursor(), top),
                        );
                        assert(views(values@.push(statement)) =~= views(values@) + seq![
                            statement.view(),
                        ]);
                        assert(at == pos_of(s, tok_start(s, cur)));
                        lemma_append_maps_push(maps@, statement_map, pm_statements(s, self.cursor(), top));
                    }
                }
                values.push(statement);
                maps.push(statement_map);
            }
        }
        Ok(elements_to_list(values, maps, Ghost(s)))
    }

    /// Reads the rest of `{ ... }` after the `{` at `at`.
    fn parse_form_list(&mut self, at: Position) -> (r: Result<(Value, PositionMap), Error>)
        requires
            old(self).wf(),
            in_source(old(self).text(), at),
        ensures
            r matches Ok((_, m)) ==> entry_of(m) == Some(at),
            final(self).wf(),
            final(self).text() == old(self).text(),
            r matches Ok((v, m)) ==> well_placed(v, m, old(self).text()) && final(self).measure()
                <= old(self).measure(),
            old(self).live() ==> ({
                let sp = sp_form(old(self).text(), old(self).cursor());
                &&& (r is Ok <==> sp is Ok)
                &&& (r matches Err(e) ==> error_at(e, sp->Err_0, old(self).text()))
                &&& (r matches Ok((_, m)) ==> m == label_map(at, pm_statements(old(self).text(), old(self).cursor(), false)))
                &&& (r matches Ok((v, _)) ==> final(self).live() && v.view() == sp->Ok_0.0
                    && final(self).cursor() == sp->Ok_0.1 && old(self).cursor()
                    < final(self).cursor() <= old(self).text().len())
            }),
        decreases old(self).measure(), 3nat,
    {
        let ghost s = self.text();
        match self.parse_statements(false) {
            Ok((v, m)) => {
                let (c, p) = self.look();
                if c != Class::RBrace {
                    return Err(self.fail_at_next(p));
                }
                self.input.next();
                let mut m = m;
                place(&mut m, at, Ghost(v), Ghost(s));
                Ok((v, m))
            },
            Err(e) => Err(e),
        }
    }

    /// Reads a whole program: statements separated by newlines or `;`, up
    /// to the end of input.
    pub fn parse_implicit_form_list(&mut self) -> (r: Result<(Value, PositionMap), Error>)
        requires
            old(self).wf(),
        ensures
            final(self).wf(),
            final(self).text() == old(self).text(),
            r matches Ok((v, m)) ==> spine_placed(v, m, old(self).text()),
            old(self).live() ==> ({
                let sp = sp_statements(old(self).text(), old(self).cursor(), true);
                &&& (r is Ok <==> sp is Ok)
                &&& (r matches Err(e) ==> error_at(e, sp->Err_0, old(self).text()))
                &&& (r matches Ok((_, m)) ==> m == pm_statements(old(self).text(), old(self).cursor(), true))
                &&& (r matches Ok((v, _)) ==> v.view() == list_datum(sp->Ok_0.0))
            }),
    {
        self.parse_statements(true)
    }
}

/// Parses a single value from the start of `input`; what follows it is
/// left unread.
pub fn parse_value(input: &str) -> (r: Result<(Value, PositionMap), Error>)
    requires
        input@.len() < usize::MAX,
    ensures
        r is Ok <==> sp_value(input@, 0) is Ok,
        r matches Err(e) ==> error_at(e, sp_value(input@, 0)->Err_0, input@),
        r matches Ok((_, m)) ==> m == pm_value(input@, 0),
        r matches Ok((v, m)) ==> well_placed(v, m, input@) && v.view() == sp_value(
            input@,
            0,
        )->Ok_0.0,
        r matches Ok((_, m)) ==> (entry_of(m) matches Some(p) && pos_eq(
            p,
            pos_at(input@, token_step(input@, skip_nl(input@, 0)).1),
        )),
{
    let mut parser = Parser::new(chars_of(input));
    parser.parse_value()
}

/// Parses a program from `input`: a list of statements, each a list.
pub fn parse_implicit_form_list(input: &str) -> (r: Result<(Value, PositionMap), Error>)
    requires
        input@.len() < usize::MAX,
    ensures
        r is Ok <==> sp_statements(input@, 0, true) is Ok,
        r matches Err(e) ==> error_at(e, sp_statements(input@, 0, true)->Err_0, input@),
        r matches Ok((_, m)) ==> m == pm_statements(input@, 0, true),
        r matches Ok((v, m)) ==> spine_placed(v, m, input@) && v.view() == list_datum(
            sp_statements(input@, 0, true)->Ok_0.0,
        ),
{
    let mut parser = Parser::new(chars_of(input));
    parser.parse_implicit_form_list()
}


/// The message of a parse error.
pub open spec fn parse_error_text(e: ErrorInternal) -> Seq<char> {
    match e {
        ErrorInternal::Eof => "unexpected end of input"@,
        ErrorInternal::MismatchedOperatorList(first, other) => "mismatched operator list; operator "@
            + other@ + " does not match initial operator "@ + first@,
        ErrorInternal::Tokenize(t) => tokenizer::tokenize_error_text(t),
        ErrorInternal::UnexpectedToken(_) => "unexpected token"@,
        ErrorInternal::UnterminatedList => "unterminated list"@,
    }
}

/// ` (at line L, column C)`.
pub open spec fn line_column_text(line: usize, column: usize) -> Seq<char> {
    " (at line "@ + nat_text(line as nat) + ", column "@ + nat_text(column as nat) + ")"@
}

/// Appends ` (at line L, column C)`.
pub fn write_line_column(out: &mut String, line: usize, column: usize)
    ensures
        final(out)@ == old(out)@ + line_column_text(line, column),
{
    push_text(out, " (at line ");
    push_count(out, line);
    push_text(out, ", column ");
    push_count(out, column);
    push_text(out, ")");
    assert(final(out)@ =~= old(out)@ + line_column_text(line, column));
}

impl Error {
    /// The error as a diagnostic: `<message> (at line L, column C)`.
    pub fn describe(&self) -> (r: String)
        ensures
            r@ == parse_error_text(self.error) + line_column_text(self.line, self.column),
    {
        let mut out = String::new();
        match &self.error {
            ErrorInternal::Eof => push_text(&mut out, "unexpected end of input"),
            ErrorInternal::MismatchedOperatorList(first, other) => {
                push_text(&mut out, "mismatched operator list; operator ");
                push_text(&mut out, other.as_str());
                push_text(&mut out, " does not match initial operator ");
                push_text(&mut out, first.as_str());
            },
            ErrorInternal::Tokenize(t) => t.write_message(&mut out),
            ErrorInternal::UnexpectedToken(_) => push_text(&mut out, "unexpected token"),
            ErrorInternal::UnterminatedList => push_text(&mut out, "unterminated list"),
        }
        assert(out@ =~= parse_error_text(self.error));
        write_line_column(&mut out, self.line, self.column);
        out
    }
}

} // verus!
