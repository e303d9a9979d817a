//! Positions, positioned outcomes, and the character source that labels
//! each character with its line and column.

use vstd::prelude::*;

verus! {

/// A (line, column) pair, both counted from 1.
pub type Position = (usize, usize);

/// The outcome of reading one item: an item, a fatal error, or the end of
/// input, each with the position where it happened.
#[derive(Debug, PartialEq, Eq)]
pub enum ResultAt<T, E> {
    OkAt(T, Position),
    ErrAt(E, Position),
    NoneAt(Position),
}

impl<T, E> ResultAt<T, E> {
    pub open spec fn spec_position(&self) -> Position {
        match *self {
            ResultAt::OkAt(_, at) => at,
            ResultAt::ErrAt(_, at) => at,
            ResultAt::NoneAt(at) => at,
        }
    }

    /// Where this outcome happened.
    pub fn position(&self) -> (r: Position)
        ensures
            r == self.spec_position(),
    {
        match self {
            ResultAt::OkAt(_, at) => *at,
            ResultAt::ErrAt(_, at) => *at,
            ResultAt::NoneAt(at) => *at,
        }
    }

    /// Drops the position: `Ok(Some(x))`, `Err(e)`, or `Ok(None)` at the end.
    pub fn unfold_contents(self) -> (r: Result<Option<T>, E>)
        ensures
            match self {
                ResultAt::OkAt(x, _) => r == Ok::<Option<T>, E>(Some(x)),
                ResultAt::ErrAt(e, _) => r == Err::<Option<T>, E>(e),
                ResultAt::NoneAt(_) => r == Ok::<Option<T>, E>(None),
            },
    {
        match self {
            ResultAt::OkAt(x, _) => Ok(Some(x)),
            ResultAt::ErrAt(e, _) => Err(e),
            ResultAt::NoneAt(_) => Ok(None),
        }
    }
}

/// The position of the character at `i` in `s`: line and column advance by
/// character, and a newline moves to column 1 of the next line.
pub open spec fn pos_at(s: Seq<char>, i: int) -> (nat, nat)
    decreases i,
{
    if i <= 0 {
        (1, 1)
    } else {
        let p = pos_at(s, i - 1);
        if s[i - 1] == '\n' {
            (p.0 + 1, 1)
        } else {
            (p.0, p.1 + 1)
        }
    }
}

pub open spec fn pos_eq(p: Position, q: (nat, nat)) -> bool {
    p.0 as nat == q.0 && p.1 as nat == q.1
}

/// `p` is the position of one of the characters of `s`.
pub open spec fn in_source(s: Seq<char>, p: Position) -> bool {
    exists|i: int| 0 <= i < s.len() && pos_eq(p, #[trigger] pos_at(s, i))
}

pub proof fn lemma_pos_bounds(s: Seq<char>, i: int)
    requires
        0 <= i,
    ensures
        1 <= pos_at(s, i).0 <= i + 1,
        1 <= pos_at(s, i).1 <= i + 1,
    decreases i,
{
    if i > 0 {
        lemma_pos_bounds(s, i - 1);
    }
}

/// Errors of a [`CharSource`].
#[derive(Copy, Clone, Debug, PartialEq, Eq, Structural)]
pub enum CharReaderError {
    Eof,
}

/// A source of characters labelled with their positions.
#[derive(Debug)]
pub struct CharSource {
    pub input: Vec<char>,
    pub index: usize,
    pub line: usize,
    pub column: usize,
}

impl CharSource {
    pub open spec fn wf(&self) -> bool {
        &&& self.input@.len() < usize::MAX
        &&& self.index <= self.input@.len()
        &&& pos_eq((self.line, self.column), pos_at(self.input@, self.index as int))
    }

    pub open spec fn current_position(&self) -> Position {
        (self.line, self.column)
    }

    pub fn new(input: Vec<char>) -> (r: Self)
        requires
            input@.len() < usize::MAX,
        ensures
            r.wf(),
            r.input@ == input@,
            r.index == 0,
    {
        CharSource { input, index: 0, line: 1, column: 1 }
    }

    /// The next character, without consuming it.
    pub fn peek(&self) -> (r: Option<char>)
        requires
            self.wf(),
        ensures
            self.index < self.input@.len() ==> r == Some(self.input@[self.index as int]),
            self.index == self.input@.len() ==> r is None,
    {
        if self.index < self.input.len() {
            Some(self.input[self.index])
        } else {
            None
        }
    }

    /// The position of the next character, or of the end of input.
    pub fn position(&self) -> (r: Position)
        ensures
            r == self.current_position(),
    {
        (self.line, self.column)
    }

    /// Consumes one character, labelled with its position; at the end of
    /// input, `NoneAt` with the position just past the last character.
    pub fn next(&mut self) -> (r: ResultAt<char, CharReaderError>)
        requires
            old(self).wf(),
        ensures
            final(self).wf(),
            final(self).input@ == old(self).input@,
            old(self).index < old(self).input@.len() ==> final(self).index == old(self).index + 1
                && r == ResultAt::<char, CharReaderError>::OkAt(
                old(self).input@[old(self).index as int],
                old(self).current_position(),
            ),
            old(self).index == old(self).input@.len() ==> *final(self) == *old(self) && r
                == ResultAt::<char, CharReaderError>::NoneAt(old(self).current_position()),
    {
        if self.index < self.input.len() {
            let c = self.input[self.index];
            let at = (self.line, self.column);
            proof {
                lemma_pos_bounds(self.input@, self.index as int + 1);
            }
            if c == '\n' {
                self.line = self.line + 1;
                self.column = 1;
            } else {
                self.column = self.column + 1;
            }
            self.index = self.index + 1;
            ResultAt::OkAt(c, at)
        } else {
            ResultAt::NoneAt((self.line, self.column))
        }
    }
}

} // verus!
