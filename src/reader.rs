//! A reader over the token stream with one outcome of look-ahead.

use vstd::prelude::*;

use crate::source::{in_source, pos_at, pos_eq, ResultAt};
use crate::tokenizer::{self, lemma_token_step_bounds, step_matches, token_step, Error, Token, Tokenizer};

verus! {

/// Wraps a [`Tokenizer`] with a slot for one peeked outcome.
pub struct Reader {
    pub source: Tokenizer,
    pub peeked: Option<ResultAt<Token, Error>>,
    /// Where the tokenizer stood before it produced the peeked outcome.
    pub pending: Ghost<int>,
}

/// What one call of [`Reader::peek`] does: a filled slot is returned as it
/// is; an empty one is filled from the tokenizer.
pub open spec fn peek_spec(before: Reader, after: Reader, r: ResultAt<Token, Error>) -> bool {
    &&& before.peeked is Some ==> after == before && r == before.peeked->Some_0
    &&& before.peeked is None ==> after.peeked == Some(r) && tokenizer::next_spec(
        before.source,
        after.source,
        r,
    )
}

/// What one call of [`Reader::next`] does: a filled slot is emptied and
/// its outcome returned; otherwise the tokenizer takes a step.
pub open spec fn read_spec(before: Reader, after: Reader, r: ResultAt<Token, Error>) -> bool {
    &&& after.peeked is None
    &&& before.peeked is Some ==> r == before.peeked->Some_0 && after.source == before.source
    &&& before.peeked is None ==> tokenizer::next_spec(before.source, after.source, r)
}

impl Reader {
    pub open spec fn wf(&self) -> bool {
        &&& self.source.wf()
        &&& self.peeked matches Some(ResultAt::OkAt(_, p)) ==> in_source(self.text(), p)
    }

    pub open spec fn text(&self) -> Seq<char> {
        self.source.text()
    }

    /// The outcomes still to come are those of the tokenizer from
    /// `cursor()`: nothing has failed yet, or the failure is the peeked outcome.
    pub open spec fn live(&self) -> bool {
        &&& self.wf()
        &&& match self.peeked {
            None => !self.source.stopped,
            Some(x) => 0 <= self.pending@ <= self.text().len() && step_matches(
                self.text(),
                self.pending@,
                x,
            ) && self.source.index() == token_step(self.text(), self.pending@).2
                && self.source.stopped == (x is ErrAt),
        }
    }

    /// The index of the text where the next unread outcome starts.
    pub open spec fn cursor(&self) -> int {
        if self.peeked is None {
            self.source.index()
        } else {
            self.pending@
        }
    }

    /// Decreases with every token consumed, and does not grow on a peek.
    pub open spec fn measure(&self) -> int {
        2 * (self.text().len() - self.source.index()) + match self.peeked {
            None => 1int,
            Some(ResultAt::OkAt(_, _)) => 2int,
            Some(_) => 0int,
        }
    }

    pub fn new(source: Tokenizer) -> (r: Self)
        requires
            source.wf(),
        ensures
            r.wf(),
            r.source == source,
            r.peeked is None,
    {
        Reader { source, peeked: None, pending: Ghost(0) }
    }

    /// One step of the tokenizer, with the facts callers rely on.
    fn step(&mut self) -> (r: ResultAt<Token, Error>)
        requires
            old(self).wf(),
            old(self).peeked is None,
        ensures
            tokenizer::next_spec(old(self).source, final(self).source, r),
            final(self).peeked is None,
            final(self).pending == old(self).pending,
            final(self).source.index() >= old(self).source.index(),
            r matches ResultAt::OkAt(_, p) ==> in_source(old(self).text(), p)
                && final(self).source.index() > old(self).source.index(),
    {
        let ghost s = self.text();
        let ghost i = self.source.index();
        let r = self.source.next();
        proof {
            lemma_token_step_bounds(s, i);
            if !old(self).source.stopped {
                if let ResultAt::OkAt(_, p) = r {
                    let j = token_step(s, i).1;
                    assert(pos_eq(p, pos_at(s, j)));
                }
            }
        }
        r
    }

    /// The next outcome, without consuming it. Peeking again, or reading,
    /// gives the same outcome.
    pub fn peek(&mut self) -> (r: &ResultAt<Token, Error>)
        requires
            old(self).wf(),
        ensures
            peek_spec(*old(self), *final(self), *r),
            final(self).wf(),
            final(self).text() == old(self).text(),
            final(self).measure() <= old(self).measure(),
            final(self).peeked == Some(*r),
            old(self).live() ==> final(self).live() && final(self).cursor() == old(self).cursor(),
    {
        if self.peeked.is_none() {
            self.pending = Ghost(self.source.index());
            let t = self.step();
            self.peeked = Some(t);
        }
        self.peeked.as_ref().unwrap()
    }

    /// Consumes the next outcome: the peeked one, if any.
    pub fn next(&mut self) -> (r: ResultAt<Token, Error>)
        requires
            old(self).wf(),
        ensures
            read_spec(*old(self), *final(self), r),
            final(self).wf(),
            final(self).text() == old(self).text(),
            r matches ResultAt::OkAt(_, p) ==> in_source(old(self).text(), p)
                && final(self).measure() < old(self).measure(),
            old(self).live() ==> step_matches(old(self).text(), old(self).cursor(), r)
                && final(self).cursor() == token_step(old(self).text(), old(self).cursor()).2
                && (r is OkAt ==> final(self).live() && old(self).cursor() < final(self).cursor()
                <= final(self).text().len()),
    {
        proof {
            if old(self).live() {
                lemma_token_step_bounds(self.text(), self.cursor());
            }
        }
        let mut slot = None;
        std::mem::swap(&mut self.peeked, &mut slot);
        match slot {
            Some(x) => x,
            None => self.step(),
        }
    }
}

/// `rs` are the outcomes of successive steps of the tokenizer from index
/// `c` of `s`, after which reading stands at `e`.
pub open spec fn chain(s: Seq<char>, c: int, rs: Seq<ResultAt<Token, Error>>, e: int) -> bool
    decreases rs.len(),
{
    if rs.len() == 0 {
        c == e
    } else {
        step_matches(s, c, rs[0]) && chain(s, token_step(s, c).2, rs.drop_first(), e)
    }
}

proof fn lemma_chain_push(s: Seq<char>, c: int, rs: Seq<ResultAt<Token, Error>>, e: int, x: ResultAt<Token, Error>)
    requires
        chain(s, c, rs, e),
        step_matches(s, e, x),
    ensures
        chain(s, c, rs.push(x), token_step(s, e).2),
    decreases rs.len(),
{
    if rs.len() == 0 {
        assert(rs.push(x).drop_first() =~= Seq::<ResultAt<Token, Error>>::empty());
        reveal_with_fuel(chain, 2);
    } else {
        lemma_chain_push(s, token_step(s, c).2, rs.drop_first(), e, x);
        assert(rs.push(x).drop_first() =~= rs.drop_first().push(x));
    }
}

/// An outcome that is not `NoneAt` as a `Result`.
pub open spec fn result_of(x: ResultAt<Token, Error>) -> Result<Token, Error>
    recommends
        !(x is NoneAt),
{
    match x {
        ResultAt::OkAt(t, _) => Ok(t),
        ResultAt::ErrAt(e, _) => Err(e),
        ResultAt::NoneAt(_) => arbitrary(),
    }
}

/// The tokens of the outcomes `rs`, which are all `OkAt`.
pub open spec fn tokens_of(rs: Seq<ResultAt<Token, Error>>) -> Seq<Token> {
    rs.map_values(|r: ResultAt<Token, Error>| r->OkAt_0)
}

impl Reader {
    /// Every outcome up to and including the first that is not `OkAt`.
    pub fn iter(&mut self) -> (r: Vec<ResultAt<Token, Error>>)
        requires
            old(self).wf(),
        ensures
            final(self).wf(),
            final(self).text() == old(self).text(),
            r@.len() >= 1,
            forall|i: int| 0 <= i < r@.len() - 1 ==> r@[i] is OkAt,
            !(r@.last() is OkAt),
            old(self).live() ==> chain(old(self).text(), old(self).cursor(), r@, final(self).cursor()),
    {
        let ghost s = self.text();
        let ghost c0 = self.cursor();
        let ghost live0 = self.live();
        let mut out: Vec<ResultAt<Token, Error>> = Vec::new();
        loop
            invariant
                self.wf(),
                self.text() == s,
                s == old(self).text(),
                live0 == old(self).live(),
                c0 == old(self).cursor(),
                forall|i: int| 0 <= i < out@.len() ==> out@[i] is OkAt,
                live0 ==> self.live() && chain(s, c0, out@, self.cursor()),
            decreases self.measure(),
        {
            let ghost e = self.cursor();
            let x = self.next();
            let stop = !matches!(x, ResultAt::OkAt(_, _));
            proof {
                if live0 {
                    lemma_chain_push(s, c0, out@, e, x);
                }
            }
            out.push(x);
            if stop {
                return out;
            }
        }
    }

    /// The results of the outcomes up to the first that is not `OkAt`:
    /// the items as `Ok`, and a final error as `Err`.
    pub fn iter_results(&mut self) -> (r: Vec<Result<Token, Error>>)
        requires
            old(self).wf(),
        ensures
            final(self).wf(),
            final(self).text() == old(self).text(),
            old(self).live() ==> exists|rs: Seq<ResultAt<Token, Error>>|
                chain(old(self).text(), old(self).cursor(), rs, final(self).cursor()) && rs.len()
                    >= 1 && r@ == (if rs.last() is NoneAt {
                    rs.drop_last()
                } else {
                    rs
                }).map_values(|x: ResultAt<Token, Error>| result_of(x)),
    {
        let outcomes = self.iter();
        let ghost rs = outcomes@;
        let ghost kept = if rs.last() is NoneAt {
            rs.drop_last()
        } else {
            rs
        };
        let n = if matches!(outcomes[outcomes.len() - 1], ResultAt::NoneAt(_)) {
            outcomes.len() - 1
        } else {
            outcomes.len()
        };
        let mut out: Vec<Result<Token, Error>> = Vec::new();
        let mut k: usize = 0;
        while k < n
            invariant
                n == kept.len(),
                kept == (if rs.last() is NoneAt {
                    rs.drop_last()
                } else {
                    rs
                }),
                rs == outcomes@,
                rs.len() >= 1,
                forall|i: int| 0 <= i < rs.len() - 1 ==> rs[i] is OkAt,
                n <= outcomes@.len(),
                k <= n,
                out@ == kept.subrange(0, k as int).map_values(|x: ResultAt<Token, Error>| result_of(x)),
            decreases n - k,
        {
            let item = match &outcomes[k] {
                ResultAt::OkAt(t, _) => Ok(t.duplicate()),
                ResultAt::ErrAt(e, _) => Err(*e),
                ResultAt::NoneAt(_) => unreached(),
            };
            assert(kept[k as int] == outcomes@[k as int]);
            out.push(item);
            k = k + 1;
            assert(out@ =~= kept.subrange(0, k as int).map_values(|x: ResultAt<Token, Error>| result_of(x)));
        }
        assert(kept.subrange(0, n as int) =~= kept);
        out
    }

    /// The items of the outcomes while they are `OkAt`; the first other
    /// outcome is left peeked.
    pub fn items_while_successful(&mut self) -> (r: Vec<Token>)
        requires
            old(self).wf(),
        ensures
            final(self).wf(),
            final(self).text() == old(self).text(),
            final(self).peeked matches Some(x) && !(x is OkAt),
            old(self).live() ==> final(self).live() && exists|rs: Seq<ResultAt<Token, Error>>|
                chain(old(self).text(), old(self).cursor(), rs, final(self).cursor()) && r@
                    == tokens_of(rs) && forall|i: int| 0 <= i < rs.len() ==> (#[trigger] rs[i]) is OkAt,
    {
        let ghost s = self.text();
        let ghost c0 = self.cursor();
        let ghost live0 = self.live();
        let ghost mut rs: Seq<ResultAt<Token, Error>> = Seq::empty();
        let mut out: Vec<Token> = Vec::new();
        loop
            invariant
                self.wf(),
                self.text() == s,
                s == old(self).text(),
                live0 == old(self).live(),
                c0 == old(self).cursor(),
                out@ == tokens_of(rs),
                forall|i: int| 0 <= i < rs.len() ==> (#[trigger] rs[i]) is OkAt,
                live0 ==> self.live() && chain(s, c0, rs, self.cursor()),
            ensures
                self.peeked matches Some(x) && !(x is OkAt),
            decreases self.measure(),
        {
            let ok = matches!(self.peek(), ResultAt::OkAt(_, _));
            if !ok {
                break;
            }
            let ghost e = self.cursor();
            let x = self.next();
            match x {
                ResultAt::OkAt(t, at) => {
                    proof {
                        if live0 {
                            lemma_chain_push(s, c0, rs, e, ResultAt::OkAt(t, at));
                        }
                        assert(tokens_of(rs.push(ResultAt::OkAt(t, at))) =~= tokens_of(rs).push(t));
                        rs = rs.push(ResultAt::OkAt(t, at));
                    }
                    out.push(t);
                },
                _ => {},
            }
        }
        out
    }

    /// The items of the outcomes while they are `OkAt` and satisfy
    /// `predicate`; the first other outcome is left peeked.
    pub fn items_while_successful_if<F: Fn(&Token) -> bool>(&mut self, predicate: F) -> (r: Vec<
        Token,
    >)
        requires
            old(self).wf(),
            forall|t: &Token| predicate.requires((t,)),
        ensures
            final(self).wf(),
            final(self).text() == old(self).text(),
            final(self).peeked matches Some(x) && (x matches ResultAt::OkAt(t, _)
                ==> predicate.ensures((&t,), false)),
            forall|i: int| 0 <= i < r@.len() ==> predicate.ensures((&r@[i],), true),
            old(self).live() ==> final(self).live() && exists|rs: Seq<ResultAt<Token, Error>>|
                chain(old(self).text(), old(self).cursor(), rs, final(self).cursor()) && r@
                    == tokens_of(rs) && forall|i: int| 0 <= i < rs.len() ==> (#[trigger] rs[i]) is OkAt,
    {
        let ghost s = self.text();
        let ghost c0 = self.cursor();
        let ghost live0 = self.live();
        let ghost mut rs: Seq<ResultAt<Token, Error>> = Seq::empty();
        let mut out: Vec<Token> = Vec::new();
        loop
            invariant
                self.wf(),
                self.text() == s,
                s == old(self).text(),
                live0 == old(self).live(),
                c0 == old(self).cursor(),
                forall|t: &Token| predicate.requires((t,)),
                out@ == tokens_of(rs),
                forall|i: int| 0 <= i < out@.len() ==> predicate.ensures((&out@[i],), true),
                forall|i: int| 0 <= i < rs.len() ==> (#[trigger] rs[i]) is OkAt,
                live0 ==> self.live() && chain(s, c0, rs, self.cursor()),
            ensures
                self.peeked matches Some(x) && (x matches ResultAt::OkAt(t, _)
                    ==> predicate.ensures((&t,), false)),
            decreases self.measure(),
        {
            let ok = match self.peek() {
                ResultAt::OkAt(t, _) => predicate(t),
                _ => false,
            };
            if !ok {
                break;
            }
            let ghost e = self.cursor();
            let x = self.next();
            match x {
                ResultAt::OkAt(t, at) => {
                    proof {
                        if live0 {
                            lemma_chain_push(s, c0, rs, e, ResultAt::OkAt(t, at));
                        }
                        assert(tokens_of(rs.push(ResultAt::OkAt(t, at))) =~= tokens_of(rs).push(t));
                        rs = rs.push(ResultAt::OkAt(t, at));
                    }
                    out.push(t);
                },
                _ => {},
            }
        }
        out
    }
}

/// Peeking twice gives the same outcome, and the second peek changes nothing.
pub proof fn lemma_peek_idempotent(
    a: Reader,
    b: Reader,
    c: Reader,
    r1: ResultAt<Token, Error>,
    r2: ResultAt<Token, Error>,
)
    requires
        peek_spec(a, b, r1),
        peek_spec(b, c, r2),
    ensures
        r2 == r1,
        c == b,
{
}

/// Reading after a peek gives the peeked outcome.
pub proof fn lemma_peek_then_next(
    a: Reader,
    b: Reader,
    c: Reader,
    r1: ResultAt<Token, Error>,
    r2: ResultAt<Token, Error>,
)
    requires
        peek_spec(a, b, r1),
        read_spec(b, c, r2),
    ensures
        r2 == r1,
{
}

} // verus!
