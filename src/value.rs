//! Values: the tree used both for programs and for runtime data, and the
//! side table that attaches information to the nodes of a tree.

use vstd::prelude::*;

use crate::text::{debug_quoted, debug_text, int_text, push_char, push_int, push_text};
use crate::types::{Type, Typeable};

verus! {

pub type Identifier = String;

pub fn identifier(i: &str) -> (r: Identifier)
    ensures
        r@ == i@,
{
    i.to_owned()
}

/// Errors raised when a value does not have the expected shape.
#[derive(Debug, PartialEq, Eq, Structural)]
pub enum Error {
    ExpectedType(Type, Type),
}

/// A value: an atom, a cons cell, or a quoted value. A list is a chain of
/// cells through their right side, ended by `Nil`.
#[derive(Debug, PartialEq, Eq)]
pub enum Value {
    Nil,
    Boolean(bool),
    Integer(i64),
    String(String),
    Identifier(Identifier),
    Cell(Box<Value>, Box<Value>),
    Quoted(Box<Value>),
}

pub open spec fn type_tag(v: Value) -> Type {
    match v {
        Value::Nil => Type::Nil,
        Value::Boolean(_) => Type::Boolean,
        Value::Integer(_) => Type::Integer,
        Value::String(_) => Type::String,
        Value::Identifier(_) => Type::Identifier,
        Value::Cell(_, _) => Type::Cell,
        Value::Quoted(_) => Type::Quoted,
    }
}

impl Typeable for Value {
    open spec fn type_of(&self) -> Type {
        type_tag(*self)
    }

    fn type_(&self) -> (r: Type) {
        match self {
            Value::Nil => Type::Nil,
            Value::Boolean(_) => Type::Boolean,
            Value::Integer(_) => Type::Integer,
            Value::String(_) => Type::String,
            Value::Identifier(_) => Type::Identifier,
            Value::Cell(_, _) => Type::Cell,
            Value::Quoted(_) => Type::Quoted,
        }
    }
}

/// The elements along the right spine of `v`.
pub open spec fn spine(v: Value) -> Seq<Value>
    decreases v,
{
    match v {
        Value::Cell(l, r) => seq![*l] + spine(*r),
        _ => Seq::empty(),
    }
}

/// What ends the right spine of `v`: `Nil` for a proper list.
pub open spec fn spine_end(v: Value) -> Value
    decreases v,
{
    match v {
        Value::Cell(_, r) => spine_end(*r),
        _ => v,
    }
}

pub open spec fn is_list(v: Value) -> bool {
    spine_end(v) is Nil
}

/// The display text of a value: lists as `(a b c)`, an improper tail after
/// ` . `, strings quoted, quoted values after `'`.
pub open spec fn display_of(v: Value) -> Seq<char>
    decreases v, 0nat,
{
    match v {
        Value::Nil => seq!['n', 'i', 'l'],
        Value::Boolean(b) => if b {
            seq!['t', 'r', 'u', 'e']
        } else {
            seq!['f', 'a', 'l', 's', 'e']
        },
        Value::Integer(i) => int_text(i as int),
        Value::String(s) => debug_text(s@),
        Value::Identifier(i) => i@,
        Value::Cell(l, r) => seq!['('] + display_of(*l) + tail_text(*r) + seq![')'],
        Value::Quoted(inner) => seq!['\''] + display_of(*inner),
    }
}

/// The text that follows the first element of a list whose rest is `r`.
pub open spec fn tail_text(r: Value) -> Seq<char>
    decreases r, 1nat,
{
    match r {
        Value::Nil => Seq::empty(),
        Value::Cell(l, rr) => seq![' '] + display_of(*l) + tail_text(*rr),
        _ => seq![' ', '.', ' '] + display_of(r),
    }
}

impl Value {
    /// A copy of this value.
    pub fn duplicate(&self) -> (r: Value)
        ensures
            r == *self,
        decreases self,
    {
        match self {
            Value::Nil => Value::Nil,
            Value::Boolean(b) => Value::Boolean(*b),
            Value::Integer(i) => Value::Integer(*i),
            Value::String(s) => Value::String(s.clone()),
            Value::Identifier(i) => Value::Identifier(i.clone()),
            Value::Cell(l, r) => Value::Cell(Box::new(l.duplicate()), Box::new(r.duplicate())),
            Value::Quoted(v) => Value::Quoted(Box::new(v.duplicate())),
        }
    }

    pub fn is_cell(&self) -> (r: bool)
        ensures
            r == (*self is Cell),
    {
        match self {
            Value::Cell(..) => true,
            _ => false,
        }
    }

    pub fn is_nil(&self) -> (r: bool)
        ensures
            r == (*self is Nil),
    {
        match self {
            Value::Nil => true,
            _ => false,
        }
    }

    pub fn try_as_identifier(&self) -> (r: Result<&Identifier, Error>)
        ensures
            match *self {
                Value::Identifier(i) => r == Ok::<&Identifier, Error>(&i),
                _ => r == Err::<&Identifier, Error>(
                    Error::ExpectedType(Type::Identifier, type_tag(*self)),
                ),
            },
    {
        match self {
            Value::Identifier(i) => Ok(i),
            _ => Err(Error::ExpectedType(Type::Identifier, self.type_())),
        }
    }

    pub fn try_as_integer(&self) -> (r: Result<i64, Error>)
        ensures
            match *self {
                Value::Integer(i) => r == Ok::<i64, Error>(i),
                _ => r == Err::<i64, Error>(Error::ExpectedType(Type::Integer, type_tag(*self))),
            },
    {
        match self {
            Value::Integer(i) => Ok(*i),
            _ => Err(Error::ExpectedType(Type::Integer, self.type_())),
        }
    }

    pub fn try_as_cell(&self) -> (r: Result<(&Value, &Value), Error>)
        ensures
            match *self {
                Value::Cell(l, rr) => r is Ok && *r->Ok_0.0 == *l && *r->Ok_0.1 == *rr,
                _ => r == Err::<(&Value, &Value), Error>(
                    Error::ExpectedType(Type::Cell, type_tag(*self)),
                ),
            },
    {
        match self {
            Value::Cell(l, r) => Ok((&**l, &**r)),
            _ => Err(Error::ExpectedType(Type::Cell, self.type_())),
        }
    }

    /// The elements of this list, in order, or the error for the first
    /// place where the right spine holds neither a cell nor `Nil`.
    pub fn list_items(&self) -> (r: Result<Vec<&Value>, Error>)
        ensures
            is_list(*self) ==> r is Ok && r->Ok_0@.map_values(|x: &Value| *x) == spine(*self),
            !is_list(*self) ==> r == Err::<Vec<&Value>, Error>(
                Error::ExpectedType(Type::Cell, type_tag(spine_end(*self))),
            ),
    {
        let mut items: Vec<&Value> = Vec::new();
        let mut current: &Value = self;
        loop
            invariant
                spine(*self) == items@.map_values(|x: &Value| *x) + spine(*current),
                spine_end(*self) == spine_end(*current),
            decreases *current,
        {
            match current {
                Value::Nil => {
                    assert(spine(*self) =~= items@.map_values(|x: &Value| *x));
                    return Ok(items);
                },
                Value::Cell(l, r) => {
                    let ghost before = items@;
                    items.push(&**l);
                    assert(items@.map_values(|x: &Value| *x) =~= before.map_values(
                        |x: &Value| *x,
                    ).push(**l));
                    current = &**r;
                    assert(spine(*self) =~= items@.map_values(|x: &Value| *x) + spine(*current));
                },
                _ => {
                    return Err(Error::ExpectedType(Type::Cell, current.type_()));
                },
            }
        }
    }

    /// The elements of this list, in order: each element as `Ok`, then
    /// one `Err` if the right spine ends in something other than `Nil`.
    pub fn iter_list(&self) -> (r: Vec<Result<&Value, Error>>)
        ensures
            r@.len() == spine(*self).len() + (if is_list(*self) {
                0int
            } else {
                1int
            }),
            forall|i: int|
                0 <= i < spine(*self).len() ==> r@[i] is Ok && *r@[i]->Ok_0 == spine(*self)[i],
            !is_list(*self) ==> r@.last() == Err::<&Value, Error>(
                Error::ExpectedType(Type::Cell, type_tag(spine_end(*self))),
            ),
    {
        let mut out: Vec<Result<&Value, Error>> = Vec::new();
        let mut current: &Value = self;
        loop
            invariant
                out@.len() + spine(*current).len() == spine(*self).len(),
                forall|i: int| 0 <= i < out@.len() ==> out@[i] is Ok,
                forall|i: int|
                    0 <= i < out@.len() ==> *out@[i]->Ok_0 == spine(*self)[i],
                spine(*self).subrange(out@.len() as int, spine(*self).len() as int) == spine(
                    *current,
                ),
                spine_end(*self) == spine_end(*current),
            decreases *current,
        {
            match current {
                Value::Nil => {
                    return out;
                },
                Value::Cell(l, r) => {
                    proof {
                        let k = out@.len() as int;
                        assert(spine(*current)[0] == **l);
                        assert(spine(*self)[k] == spine(*self).subrange(k, spine(*self).len() as int)[0]);
                        assert(spine(*self).subrange(k + 1, spine(*self).len() as int) =~= spine(
                            *current,
                        ).drop_first());
                        assert(spine(*current).drop_first() =~= spine(**r));
                    }
                    out.push(Ok(&**l));
                    current = &**r;
                },
                _ => {
                    out.push(Err(Error::ExpectedType(Type::Cell, current.type_())));
                    return out;
                },
            }
        }
    }

    /// Appends the display text of this value to `out`.
    pub fn write_display(&self, out: &mut String)
        ensures
            final(out)@ == old(out)@ + display_of(*self),
        decreases self, 0nat,
    {
        match self {
            Value::Nil => push_text(out, "nil"),
            Value::Boolean(b) => {
                if *b {
                    push_text(out, "true")
                } else {
                    push_text(out, "false")
                }
            },
            Value::Integer(i) => push_int(out, *i),
            Value::String(s) => {
                let q = debug_quoted(s.as_str());
                push_text(out, q.as_str());
            },
            Value::Identifier(i) => push_text(out, i.as_str()),
            Value::Cell(l, r) => {
                push_char(out, '(');
                l.write_display(out);
                write_tail(r, out);
                push_char(out, ')');
            },
            Value::Quoted(v) => {
                push_char(out, '\'');
                v.write_display(out);
            },
        }
        proof {
            reveal_strlit("nil");
            reveal_strlit("true");
            reveal_strlit("false");
        }
        assert(final(out)@ =~= old(out)@ + display_of(*self));
    }

    /// The display text of this value.
    pub fn display(&self) -> (r: String)
        ensures
            r@ == display_of(*self),
    {
        let mut out = String::new();
        self.write_display(&mut out);
        assert(out@ =~= display_of(*self));
        out
    }
}

fn write_tail(r: &Value, out: &mut String)
    ensures
        final(out)@ == old(out)@ + tail_text(*r),
    decreases *r, 1nat,
{
    match r {
        Value::Nil => {},
        Value::Cell(l, rr) => {
            push_char(out, ' ');
            l.write_display(out);
            write_tail(rr, out);
        },
        _ => {
            push_char(out, ' ');
            push_char(out, '.');
            push_char(out, ' ');
            r.write_display(out);
        },
    }
    assert(final(out)@ =~= old(out)@ + tail_text(*r));
}

/// A value as a mathematical tree, with text as sequences of characters.
pub enum Datum {
    Nil,
    Boolean(bool),
    Integer(i64),
    Str(Seq<char>),
    Ident(Seq<char>),
    Cell(Box<Datum>, Box<Datum>),
    Quoted(Box<Datum>),
}

/// The proper list of the data `ds`.
pub open spec fn list_datum(ds: Seq<Datum>) -> Datum
    decreases ds.len(),
{
    if ds.len() == 0 {
        Datum::Nil
    } else {
        Datum::Cell(Box::new(ds[0]), Box::new(list_datum(ds.drop_first())))
    }
}

impl Value {
    pub open spec fn view(&self) -> Datum
        decreases self,
    {
        match *self {
            Value::Nil => Datum::Nil,
            Value::Boolean(b) => Datum::Boolean(b),
            Value::Integer(i) => Datum::Integer(i),
            Value::String(s) => Datum::Str(s@),
            Value::Identifier(s) => Datum::Ident(s@),
            Value::Cell(l, r) => Datum::Cell(Box::new(l.view()), Box::new(r.view())),
            Value::Quoted(v) => Datum::Quoted(Box::new(v.view())),
        }
    }
}

/// Information attached to the nodes of a value tree. The map has the
/// shape of the tree it describes: at a cell, `first` describes the left
/// side and `rest` the right side; at a quoted value, `first` describes the
/// inner value. `Empty` attaches nothing to a node or below it.
#[derive(Debug)]
pub enum ContextMap<T> {
    Empty,
    Node(Option<T>, Box<ContextMap<T>>, Box<ContextMap<T>>),
}

pub open spec fn entry_of<T>(m: ContextMap<T>) -> Option<T> {
    match m {
        ContextMap::Empty => None,
        ContextMap::Node(e, _, _) => e,
    }
}

pub open spec fn first_of<T>(m: ContextMap<T>) -> ContextMap<T> {
    match m {
        ContextMap::Empty => ContextMap::Empty,
        ContextMap::Node(_, f, _) => *f,
    }
}

pub open spec fn rest_of<T>(m: ContextMap<T>) -> ContextMap<T> {
    match m {
        ContextMap::Empty => ContextMap::Empty,
        ContextMap::Node(_, _, r) => *r,
    }
}

/// Every node of `v` that stands in the source for itself carries an
/// entry in `m`: atoms, lists and quoted values, but not the cells that
/// continue a list after its first element.
pub open spec fn labeled<T>(v: Value, m: ContextMap<T>) -> bool
    decreases v,
{
    &&& entry_of(m) is Some
    &&& match v {
        Value::Cell(l, r) => labeled(*l, first_of(m)) && spine_labeled(*r, rest_of(m)),
        Value::Quoted(inner) => labeled(*inner, first_of(m)),
        _ => true,
    }
}

/// Every element along the right spine of `v` is labeled in `m`.
pub open spec fn spine_labeled<T>(v: Value, m: ContextMap<T>) -> bool
    decreases v,
{
    match v {
        Value::Cell(l, r) => labeled(*l, first_of(m)) && spine_labeled(*r, rest_of(m)),
        _ => true,
    }
}

impl<T> ContextMap<T> {
    pub fn new() -> (r: Self)
        ensures
            r is Empty,
    {
        ContextMap::Empty
    }

    /// A map for a cell or quoted value: no entry of its own, `first` and
    /// `rest` for its parts.
    pub fn node(first: ContextMap<T>, rest: ContextMap<T>) -> (r: Self)
        ensures
            r == ContextMap::Node(None, Box::new(first), Box::new(rest)),
    {
        ContextMap::Node(None, Box::new(first), Box::new(rest))
    }

    /// Attaches `v` to the node this map describes; returns what was there.
    pub fn insert(&mut self, v: T) -> (r: Option<T>)
        ensures
            entry_of(*final(self)) == Some(v),
            first_of(*final(self)) == first_of(*old(self)),
            rest_of(*final(self)) == rest_of(*old(self)),
            r == entry_of(*old(self)),
    {
        let mut m = ContextMap::Empty;
        std::mem::swap(self, &mut m);
        match m {
            ContextMap::Empty => {
                *self = ContextMap::Node(Some(v), Box::new(ContextMap::Empty), Box::new(ContextMap::Empty));
                None
            },
            ContextMap::Node(e, f, r) => {
                *self = ContextMap::Node(Some(v), f, r);
                e
            },
        }
    }

    /// The entry of the node this map describes.
    pub fn get(&self) -> (r: Option<&T>)
        ensures
            match entry_of(*self) {
                Some(x) => r == Some(&x),
                None => r is None,
            },
    {
        match self {
            ContextMap::Empty => None,
            ContextMap::Node(e, _, _) => e.as_ref(),
        }
    }

    /// The map of the left side of a cell, or of the inner value of a
    /// quoted value.
    pub fn first(&self) -> (r: Option<&ContextMap<T>>)
        ensures
            self is Node ==> r == Some(&first_of(*self)),
            self is Empty ==> r is None,
    {
        match self {
            ContextMap::Empty => None,
            ContextMap::Node(_, f, _) => Some(&**f),
        }
    }

    /// The map of the right side of a cell.
    pub fn rest(&self) -> (r: Option<&ContextMap<T>>)
        ensures
            self is Node ==> r == Some(&rest_of(*self)),
            self is Empty ==> r is None,
    {
        match self {
            ContextMap::Empty => None,
            ContextMap::Node(_, _, r) => Some(&**r),
        }
    }
}


/// The message of a value error.
pub open spec fn value_error_text(e: Error) -> Seq<char> {
    match e {
        Error::ExpectedType(expected, actual) => "expected "@ + crate::types::type_label(expected)
            + ", got "@ + crate::types::type_label(actual),
    }
}

impl Error {
    /// Appends the message of this error.
    pub fn write_message(&self, out: &mut String)
        ensures
            final(out)@ == old(out)@ + value_error_text(*self),
    {
        match self {
            Error::ExpectedType(expected, actual) => {
                push_text(out, "expected ");
                push_text(out, expected.name());
                push_text(out, ", got ");
                push_text(out, actual.name());
            },
        }
        assert(final(out)@ =~= old(out)@ + value_error_text(*self));
    }
}

} // verus!
