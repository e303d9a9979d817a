//! The compiler: a type-checking pass, then an emitting pass with a scoped
//! register allocator, from a parsed program to a list of instructions.

use vstd::prelude::*;

use crate::text::push_text;
use crate::builtins::{self, BuiltinOp};
use crate::code::{max_register, Instruction, PcOffset, RegisterId, RegisterOffset};
use crate::parser::{line_column_text, write_line_column, PositionMap};
use crate::source::Position;
use crate::types::{self, Type, Typeable};
use crate::value::{self, Identifier, Value};

verus! {

#[derive(Debug)]
pub enum ErrorInternal {
    Value(value::Error),
    Type(types::Error),
    UnknownInternalFunction(Identifier),
    /// The program needs more registers than an instruction can name.
    TooManyRegisters,
    /// A block is too long for a jump, or a call has too many arguments.
    ProgramTooLarge,
}

/// A compile error, with the source position it concerns.
#[derive(Debug)]
pub struct Error {
    pub error: ErrorInternal,
    pub line: usize,
    pub column: usize,
}

fn fail(error: ErrorInternal, at: Position) -> (r: Error)
    ensures
        r.error == error,
        (r.line, r.column) == at,
{
    Error { error, line: at.0, column: at.1 }
}

/// Every instruction of `s` names registers up to `h` only, and none is `alloc`.
pub open spec fn bounded(s: Seq<Instruction>, h: int) -> bool {
    forall|i: int| 0 <= i < s.len() ==> max_register(#[trigger] s[i]) <= h && !(s[i] is AllocRegisters)
}

/// Some instruction of `s` names register `h` as its largest.
pub open spec fn reaches(s: Seq<Instruction>, h: int) -> bool {
    exists|i: int| 0 <= i < s.len() && max_register(#[trigger] s[i]) == h
}

proof fn lemma_bounded_concat(a: Seq<Instruction>, b: Seq<Instruction>, h: int)
    requires
        bounded(a, h),
        bounded(b, h),
    ensures
        bounded(a + b, h),
{
    assert forall|i: int| 0 <= i < (a + b).len() implies max_register(#[trigger] (a + b)[i]) <= h
        && !((a + b)[i] is AllocRegisters) by {
        if i < a.len() {
            assert((a + b)[i] == a[i]);
        } else {
            assert((a + b)[i] == b[i - a.len()]);
        }
    }
}

proof fn lemma_bounded_mono(a: Seq<Instruction>, h: int, h2: int)
    requires
        bounded(a, h),
        h <= h2,
    ensures
        bounded(a, h2),
{
}

proof fn lemma_reaches_concat(a: Seq<Instruction>, b: Seq<Instruction>, h: int)
    requires
        reaches(a, h) || reaches(b, h),
    ensures
        reaches(a + b, h),
{
    if reaches(a, h) {
        let i = choose|i: int| 0 <= i < a.len() && max_register(#[trigger] a[i]) == h;
        assert((a + b)[i] == a[i]);
    } else {
        let i = choose|i: int| 0 <= i < b.len() && max_register(#[trigger] b[i]) == h;
        assert((a + b)[a.len() + i] == b[i]);
    }
}

/// Hands out registers in nested ranges. `highest_used` is the watermark:
/// the largest register ever handed out or claimed.
pub struct RegisterAllocator {
    pub highest_used: usize,
    pub start: usize,
    pub end: usize,
    pub stack: Vec<(usize, usize)>,
}

impl RegisterAllocator {
    pub open spec fn wf(&self) -> bool {
        &&& self.highest_used <= 255
        &&& self.start <= self.end <= 256
        &&& self.end <= self.highest_used + 1
        &&& forall|i: int|
            0 <= i < self.stack@.len() ==> (#[trigger] self.stack@[i]).0 <= self.stack@[i].1
                <= self.start
        &&& forall|i: int, j: int|
            0 <= i < j < self.stack@.len() ==> (#[trigger] self.stack@[i]).1 <= (
            #[trigger] self.stack@[j]).0
    }

    pub fn new() -> (r: Self)
        ensures
            r.wf(),
            r.highest_used == 0,
            r.end == 0,
            r.stack@.len() == 0,
    {
        RegisterAllocator { highest_used: 0, start: 0, end: 0, stack: Vec::new() }
    }

    /// Starts a range at the current end; the enclosing one is saved.
    pub fn push_range(&mut self)
        requires
            old(self).wf(),
        ensures
            final(self).wf(),
            final(self).stack@ == old(self).stack@.push((old(self).start, old(self).end)),
            final(self).start == old(self).end,
            final(self).end == old(self).end,
            final(self).highest_used == old(self).highest_used,
    {
        self.stack.push((self.start, self.end));
        self.start = self.end;
    }

    /// Restores the range saved by the matching `push_range`.
    pub fn pop_range(&mut self)
        requires
            old(self).wf(),
            old(self).stack@.len() > 0,
        ensures
            final(self).wf(),
            final(self).stack@ == old(self).stack@.drop_last(),
            (final(self).start, final(self).end) == old(self).stack@.last(),
            final(self).highest_used == old(self).highest_used,
    {
        let (s, e) = self.stack.pop().unwrap();
        self.start = s;
        self.end = e;
    }

    /// Claims register `used` for the current range, which then ends after it.
    pub fn extend_to(&mut self, used: RegisterId)
        requires
            old(self).wf(),
            used >= old(self).end,
        ensures
            final(self).wf(),
            final(self).end == used + 1,
            final(self).start == old(self).start,
            final(self).stack == old(self).stack,
            final(self).highest_used == if used > old(self).highest_used {
                used as usize
            } else {
                old(self).highest_used
            },
    {
        self.end = used as usize + 1;
        if used as usize > self.highest_used {
            self.highest_used = used as usize;
        }
    }

    /// Where the next register would be handed out.
    pub fn current(&self) -> (r: usize)
        ensures
            r == self.end,
    {
        self.end
    }

    /// Hands out the next register, if one is left.
    pub fn allocate(&mut self) -> (r: Option<RegisterId>)
        requires
            old(self).wf(),
        ensures
            final(self).wf(),
            final(self).start == old(self).start,
            final(self).stack == old(self).stack,
            old(self).end < 256 ==> r == Some(old(self).end as RegisterId) && final(self).end
                == old(self).end + 1 && final(self).highest_used == if old(self).end
                > old(self).highest_used {
                old(self).end
            } else {
                old(self).highest_used
            },
            old(self).end >= 256 ==> r is None && *final(self) == *old(self),
    {
        if self.end >= 256 {
            return None;
        }
        let id = self.end;
        self.end = self.end + 1;
        if id > self.highest_used {
            self.highest_used = id;
        }
        Some(id as RegisterId)
    }
}

pub open spec fn deref_map(m: Option<&PositionMap>) -> Option<PositionMap> {
    match m {
        Some(x) => Some(*x),
        None => None,
    }
}

/// The position recorded for the node that `m` describes, or `fallback`.
pub open spec fn node_position(m: Option<PositionMap>, fallback: Position) -> Position {
    match m {
        Some(mm) => match value::entry_of(mm) {
            Some(p) => p,
            None => fallback,
        },
        None => fallback,
    }
}

/// The position recorded for the head of the call that `m` describes.
pub open spec fn head_position(m: Option<PositionMap>, fallback: Position) -> Position {
    match m {
        Some(mm) => node_position(Some(value::first_of(mm)), fallback),
        None => fallback,
    }
}

fn first_map<'a>(m: Option<&'a PositionMap>) -> (r: Option<&'a PositionMap>)
    ensures
        forall|f: Position| node_position(deref_map(r), f) == head_position(
            deref_map(m),
            f,
        ),
{
    match m {
        Some(m) => m.first(),
        None => None,
    }
}

fn rest_map<'a>(m: Option<&'a PositionMap>) -> Option<&'a PositionMap> {
    match m {
        Some(m) => m.rest(),
        None => None,
    }
}

/// The position recorded for a node, or `fallback` if there is none.
fn position_of(m: Option<&PositionMap>, fallback: Position) -> (r: Position)
    ensures
        r == node_position(deref_map(m), fallback),
        r == match m {
            Some(m) => match value::entry_of(*m) {
                Some(p) => p,
                None => fallback,
            },
            None => fallback,
        },
{
    match m {
        Some(m) => match m.get() {
            Some(p) => *p,
            None => fallback,
        },
        None => fallback,
    }
}

proof fn lemma_spine_smaller(v: Value, i: int)
    requires
        0 <= i < value::spine(v).len(),
    ensures
        decreases_to!(v => value::spine(v)[i]),
    decreases v,
{
    match v {
        Value::Cell(l, r) => {
            if i > 0 {
                lemma_spine_smaller(*r, i - 1);
                assert(value::spine(v)[i] == value::spine(*r)[i - 1]);
            }
        },
        _ => {},
    }
}

/// The elements of the list `v`, each with its map.
fn list_with_maps<'a>(v: &'a Value, m: Option<&'a PositionMap>) -> (r: Result<
    (Vec<&'a Value>, Vec<Option<&'a PositionMap>>),
    value::Error,
>)
    ensures
        r is Ok ==> r->Ok_0.0@.len() == r->Ok_0.1@.len() && r->Ok_0.0@.map_values(|x: &Value| *x)
            == value::spine(*v),
        r is Ok <==> value::is_list(*v),
        r is Err ==> r->Err_0 == value::Error::ExpectedType(Type::Cell, value::type_tag(value::spine_end(*v))),
{
    let mut items: Vec<&Value> = Vec::new();
    let mut maps: Vec<Option<&PositionMap>> = Vec::new();
    let mut current: &Value = v;
    let mut cm = m;
    while current.is_cell()
        invariant
            items@.len() == maps@.len(),
            value::spine(*v) == items@.map_values(|x: &Value| *x) + value::spine(*current),
            value::spine_end(*v) == value::spine_end(*current),
        decreases *current,
    {
        let (l, r) = match current.try_as_cell() {
            Ok(x) => x,
            Err(e) => {
                return Err(e);
            },
        };
        let ghost before = items@;
        items.push(l);
        maps.push(first_map(cm));
        assert(items@.map_values(|x: &Value| *x) =~= before.map_values(|x: &Value| *x).push(*l));
        current = r;
        cm = rest_map(cm);
        assert(value::spine(*v) =~= items@.map_values(|x: &Value| *x) + value::spine(*current));
    }
    if !current.is_nil() {
        return Err(value::Error::ExpectedType(Type::Cell, current.type_()));
    }
    assert(value::spine(*v) =~= items@.map_values(|x: &Value| *x));
    Ok((items, maps))
}

/// The error for a call of `op` with `n` arguments that its signature does
/// not allow.
pub open spec fn arity_error(op: BuiltinOp, n: nat) -> types::Error {
    if n < builtins::fixed_args(op).len() {
        types::Error::NotEnoughArguments { expected: builtins::fixed_args(op).len() as usize, actual: n as usize }
    } else {
        types::Error::TooManyArguments { expected: builtins::fixed_args(op).len() as usize, actual: n as usize }
    }
}

/// `call` passes a list of arguments to a name that no built-in has.
pub open spec fn unknown_head(call: Value) -> bool {
    &&& call is Cell
    &&& *call->Cell_0 matches Value::Identifier(n)
    &&& builtins::builtin_named(n@) is None
    &&& value::is_list(*call->Cell_1)
}

/// `call` names a built-in and passes it a list of arguments whose length
/// its signature does not allow.
pub open spec fn arity_violated(call: Value) -> bool {
    let head = *call->Cell_0;
    let args = *call->Cell_1;
    &&& call is Cell
    &&& head is Identifier
    &&& builtins::builtin_named(head->Identifier_0@) is Some
    &&& value::is_list(args)
    &&& !count_fits(builtins::builtin_named(head->Identifier_0@)->Some_0, value::spine(args).len())
}

/// `n` arguments suit the signature of `op`.
pub open spec fn count_fits(op: BuiltinOp, n: nat) -> bool {
    &&& builtins::fixed_args(op).len() <= n
    &&& (n > builtins::fixed_args(op).len() ==> builtins::rest_arg(op) is Some)
}

/// The argument specification of `op` at position `k`.
pub open spec fn op_spec_at(op: BuiltinOp, k: nat) -> Option<types::ArgumentSpec> {
    if k < builtins::fixed_args(op).len() {
        Some(builtins::fixed_args(op)[k as int])
    } else {
        builtins::rest_arg(op)
    }
}

/// Every call in the expression `v` names a built-in and passes it a
/// number of arguments that its signature allows; so does every call in
/// the arguments it evaluates and in the blocks of each `if`.
pub open spec fn calls_fit(v: Value) -> bool
    decreases v, 1nat,
{
    match v {
        Value::Cell(l, r) => match *l {
            Value::Identifier(name) => match builtins::builtin_named(name@) {
                Some(op) => count_fits(op, value::spine(*r).len()) && args_fit(op, *r, 0),
                None => false,
            },
            _ => false,
        },
        _ => true,
    }
}

/// The arguments along `r`, the first at position `k`, each fit.
pub open spec fn args_fit(op: BuiltinOp, r: Value, k: nat) -> bool
    decreases r, 3nat,
{
    match r {
        Value::Cell(a, rest) => arg_fits(op, *a, k) && args_fit(op, *rest, k + 1),
        _ => true,
    }
}

/// The argument `a` at position `k` of a call of `op` fits: an evaluated
/// argument by its calls, a block of `if` by its statements.
pub open spec fn arg_fits(op: BuiltinOp, a: Value, k: nat) -> bool
    decreases a, 2nat,
{
    match op_spec_at(op, k) {
        Some(s) => if !s.raw {
            calls_fit(a)
        } else if op == BuiltinOp::If && (k == 1 || k == 2) {
            program_fits(a)
        } else {
            true
        },
        None => true,
    }
}

/// Every statement of the list `p` fits.
pub open spec fn program_fits(p: Value) -> bool
    decreases p, 1nat,
{
    match p {
        Value::Cell(s, rest) => calls_fit(*s) && program_fits(*rest),
        _ => true,
    }
}

proof fn lemma_args_fit(op: BuiltinOp, r: Value, k: nat)
    requires
        forall|j: int| 0 <= j < value::spine(r).len() ==> arg_fits(op, #[trigger] value::spine(r)[j], k + j as nat),
    ensures
        args_fit(op, r, k),
    decreases r,
{
    if let Value::Cell(a, rest) = r {
        assert(value::spine(r)[0] == *a);
        assert forall|j: int| 0 <= j < value::spine(*rest).len() implies arg_fits(
            op,
            #[trigger] value::spine(*rest)[j],
            (k + 1) as nat + j as nat,
        ) by {
            assert(value::spine(r)[j + 1] == value::spine(*rest)[j]);
        }
        lemma_args_fit(op, *rest, k + 1);
    }
}

proof fn lemma_program_fits(p: Value)
    requires
        forall|j: int| 0 <= j < value::spine(p).len() ==> calls_fit(#[trigger] value::spine(p)[j]),
    ensures
        program_fits(p),
    decreases p,
{
    if let Value::Cell(s, rest) = p {
        assert(value::spine(p)[0] == *s);
        assert forall|j: int| 0 <= j < value::spine(*rest).len() implies calls_fit(
            #[trigger] value::spine(*rest)[j],
        ) by {
            assert(value::spine(p)[j + 1] == value::spine(*rest)[j]);
        }
        lemma_program_fits(*rest);
    }
}

/// The bindings of a type checker: each name with the type bound to it.
pub open spec fn type_bindings(vs: Seq<(String, Type)>) -> Seq<(Seq<char>, Type)> {
    vs.map_values(|p: (String, Type)| (p.0@, p.1))
}

/// The type most recently bound to `name`.
pub open spec fn bound_type(vars: Seq<(Seq<char>, Type)>, name: Seq<char>) -> Option<Type>
    decreases vars.len(),
{
    if vars.len() == 0 {
        None
    } else if vars.last().0 == name {
        Some(vars.last().1)
    } else {
        bound_type(vars.drop_last(), name)
    }
}

/// The bindings of a type checker, as names and types.
pub type Bindings = Seq<(Seq<char>, Type)>;

/// What follows the first `k` cells of the right spine of `r`.
pub open spec fn tail(r: Value, k: nat) -> Value
    decreases k,
{
    if k == 0 {
        r
    } else {
        match r {
            Value::Cell(_, rest) => tail(*rest, (k - 1) as nat),
            _ => r,
        }
    }
}

proof fn lemma_tail_step(r: Value, k: nat)
    requires
        k < value::spine(r).len(),
    ensures
        tail(r, k) is Cell,
        *tail(r, k)->Cell_0 == value::spine(r)[k as int],
        *tail(r, k)->Cell_1 == tail(r, k + 1),
    decreases k,
{
    if let Value::Cell(_, rest) = r {
        assert(tail(r, k + 1) == tail(*rest, k));
        if k > 0 {
            lemma_tail_step(*rest, (k - 1) as nat);
            assert(value::spine(r)[k as int] == value::spine(*rest)[k - 1]);
        }
    }
}

proof fn lemma_tail_end(r: Value)
    ensures
        tail(r, value::spine(r).len()) == value::spine_end(r),
    decreases r,
{
    if let Value::Cell(_, rest) = r {
        lemma_tail_end(*rest);
    }
}

/// Type checking of the expression `v` under `vars`: its type and the
/// bindings after it, or `None` where it does not type check.
pub open spec fn check_expr(v: Value, vars: Bindings) -> Option<(Type, Bindings)>
    decreases v, 1nat,
{
    match v {
        Value::Identifier(name) => match bound_type(vars, name@) {
            Some(t) => Some((t, vars)),
            None => None,
        },
        Value::Cell(_, _) => check_call(v, vars),
        Value::Quoted(inner) => Some((value::type_tag(*inner), vars)),
        _ => Some((value::type_tag(v), vars)),
    }
}

/// Type checking of the call `v`: its head names a built-in, its arguments
/// form a list of a length the signature allows, each argument's type (an
/// unevaluated one's own tag) is accepted, `set` has type nil and binds
/// its name to its
/// value's type, and the blocks of `if` type check.
pub open spec fn check_call(v: Value, vars: Bindings) -> Option<(Type, Bindings)>
    decreases v, 0nat,
{
    match v {
        Value::Cell(l, r) => match *l {
            Value::Identifier(name) => match builtins::builtin_named(name@) {
                None => None,
                Some(op) => if !value::is_list(*r) || !count_fits(op, value::spine(*r).len()) {
                    None
                } else {
                    match check_args(op, *r, 0, vars) {
                        None => None,
                        Some((types, after)) => finish_call(op, *r, types, after),
                    }
                },
            },
            _ => None,
        },
        _ => None,
    }
}

/// The rest of type checking a call of `op` with arguments `r`, once they
/// have types `types` and left bindings `after`.
pub open spec fn finish_call(op: BuiltinOp, r: Value, types: Seq<Type>, after: Bindings) -> Option<(Type, Bindings)>
    decreases r, 4nat,
{
    match op {
        BuiltinOp::SetVariable => match r {
            Value::Cell(target, _) => match *target {
                Value::Identifier(var) => Some((Type::Nil, after.push((var@, types[1])))),
                _ => None,
            },
            _ => None,
        },
        BuiltinOp::If => match r {
            Value::Cell(_, r1) => match *r1 {
                Value::Cell(yes, r2) => match *r2 {
                    Value::Cell(no, _) => if check_program(*yes, after) is Some && check_program(
                        *no,
                        after,
                    ) is Some {
                        Some((Type::Nil, after))
                    } else {
                        None
                    },
                    _ => None,
                },
                _ => None,
            },
            _ => None,
        },
        _ => Some((builtins::return_of(op), after)),
    }
}

/// Type checking of the arguments along `r`, the first at position `k`:
/// their types and the bindings after them.
pub open spec fn check_args(op: BuiltinOp, r: Value, k: nat, vars: Bindings) -> Option<(Seq<Type>, Bindings)>
    decreases r, 2nat,
{
    match r {
        Value::Cell(a, rest) => {
            let spec = op_spec_at(op, k)->Some_0;
            let first = if spec.raw {
                Some((value::type_tag(*a), vars))
            } else {
                check_expr(*a, vars)
            };
            match first {
                None => None,
                Some((t, after)) => if !types::accepts(spec.type_spec, t) {
                    None
                } else {
                    match check_args(op, *rest, k + 1, after) {
                        None => None,
                        Some((ts, last)) => Some((seq![t] + ts, last)),
                    }
                },
            }
        },
        _ => Some((Seq::empty(), vars)),
    }
}

/// `ts` before the types of the outcome `o`.
pub open spec fn prepend_types(ts: Seq<Type>, o: Option<(Seq<Type>, Bindings)>) -> Option<(Seq<Type>, Bindings)> {
    match o {
        None => None,
        Some((us, b)) => Some((ts + us, b)),
    }
}

proof fn lemma_prepend_types(a: Seq<Type>, b: Seq<Type>, o: Option<(Seq<Type>, Bindings)>)
    ensures
        prepend_types(a, prepend_types(b, o)) == prepend_types(a + b, o),
{
    if let Some((us, bs)) = o {
        assert(a + (b + us) =~= (a + b) + us);
    }
}

proof fn lemma_check_program_improper(p: Value, vars: Bindings)
    requires
        !value::is_list(p),
    ensures
        check_program(p, vars) is None,
    decreases p,
{
    if let Value::Cell(s, rest) = p {
        if let Some((_, after)) = check_expr(*s, vars) {
            lemma_check_program_improper(*rest, after);
        }
    }
}

/// Type checking of each statement of the list `p` in turn: the bindings after them.
pub open spec fn check_program(p: Value, vars: Bindings) -> Option<Bindings>
    decreases p, 3nat,
{
    match p {
        Value::Nil => Some(vars),
        Value::Cell(s, rest) => match check_expr(*s, vars) {
            None => None,
            Some((_, after)) => check_program(*rest, after),
        },
        _ => None,
    }
}

/// A compile error, as a spec-level kind.
pub enum CompileFault {
    Value(value::Error),
    Type(types::Error),
    Unknown(Seq<char>),
    Resources,
}

/// The kind of a compile error.
pub open spec fn compile_fault(e: ErrorInternal) -> CompileFault {
    match e {
        ErrorInternal::Value(v) => CompileFault::Value(v),
        ErrorInternal::Type(t) => CompileFault::Type(t),
        ErrorInternal::UnknownInternalFunction(name) => CompileFault::Unknown(name@),
        _ => CompileFault::Resources,
    }
}

/// The error the type checker reports for the expression `v`, where it
/// does not type check: an unbound name, or the call's error.
pub open spec fn fault_expr(v: Value, vars: Bindings) -> CompileFault
    decreases v, 1nat,
{
    match v {
        Value::Identifier(name) => CompileFault::Unknown(name@),
        Value::Cell(_, _) => fault_call(v, vars),
        _ => CompileFault::Resources,
    }
}

/// The error for a call that does not type check, tested in this order:
/// the head is an identifier, the arguments form a list, the head names a
/// built-in, the number of arguments fits, each argument in turn, then the
/// blocks of `if`.
pub open spec fn fault_call(v: Value, vars: Bindings) -> CompileFault
    decreases v, 0nat,
{
    match v {
        Value::Cell(l, r) => match *l {
            Value::Identifier(name) => if !value::is_list(*r) {
                CompileFault::Value(value::Error::ExpectedType(Type::Cell, value::type_tag(value::spine_end(*r))))
            } else {
                match builtins::builtin_named(name@) {
                    None => CompileFault::Unknown(name@),
                    Some(op) => if !count_fits(op, value::spine(*r).len()) {
                        CompileFault::Type(arity_error(op, value::spine(*r).len()))
                    } else {
                        match check_args(op, *r, 0, vars) {
                            None => fault_args(op, *r, 0, vars),
                            Some((_, after)) => finish_fault(op, *r, after),
                        }
                    },
                }
            },
            other => CompileFault::Value(value::Error::ExpectedType(Type::Identifier, value::type_tag(other))),
        },
        _ => CompileFault::Resources,
    }
}

/// The error for a call of `op` whose arguments `r` type check, leaving
/// bindings `after`: a block of `if` that does not type check, or a `set`
/// whose target is no identifier.
pub open spec fn finish_fault(op: BuiltinOp, r: Value, after: Bindings) -> CompileFault
    decreases r, 4nat,
{
    match r {
        Value::Cell(target, r1) => if op == BuiltinOp::If {
            match *r1 {
                Value::Cell(yes, r2) => match *r2 {
                    Value::Cell(no, _) => if check_program(*yes, after) is None {
                        fault_program(*yes, after)
                    } else {
                        fault_program(*no, after)
                    },
                    _ => CompileFault::Resources,
                },
                _ => CompileFault::Resources,
            }
        } else {
            CompileFault::Value(value::Error::ExpectedType(Type::Identifier, value::type_tag(*target)))
        },
        _ => CompileFault::Resources,
    }
}

/// The error for the first argument along `r` (at position `k` on) that
/// does not type check or whose type its specification rejects.
pub open spec fn fault_args(op: BuiltinOp, r: Value, k: nat, vars: Bindings) -> CompileFault
    decreases r, 2nat,
{
    match r {
        Value::Cell(a, rest) => {
            let spec = op_spec_at(op, k)->Some_0;
            let first = if spec.raw {
                Some((value::type_tag(*a), vars))
            } else {
                check_expr(*a, vars)
            };
            match first {
                None => fault_expr(*a, vars),
                Some((t, after)) => if !types::accepts(spec.type_spec, t) {
                    CompileFault::Type(
                        types::Error::InvalidArgument {
                            position: k as usize,
                            source: Box::new(
                                types::Error::ExpectedType {
                                    expected: types::expected_of(spec.type_spec),
                                    actual: t,
                                },
                            ),
                        },
                    )
                } else {
                    fault_args(op, *rest, k + 1, after)
                },
            }
        },
        _ => CompileFault::Resources,
    }
}

/// The error for the first statement of the list `p` that does not type
/// check, or for a list that is not proper.
pub open spec fn fault_program(p: Value, vars: Bindings) -> CompileFault
    decreases p, 3nat,
{
    if !value::is_list(p) {
        CompileFault::Value(value::Error::ExpectedType(Type::Cell, value::type_tag(value::spine_end(p))))
    } else {
        match p {
            Value::Cell(s, rest) => match check_expr(*s, vars) {
                None => fault_expr(*s, vars),
                Some((_, after)) => fault_program(*rest, after),
            },
            _ => CompileFault::Resources,
        }
    }
}

/// The first pass: infers the type of each expression and checks each
/// call against its built-in's signature.
pub struct TypeCheckVisitor {
    pub variables: Vec<(String, Type)>,
}

fn copy_types(vs: &Vec<(String, Type)>) -> (r: Vec<(String, Type)>)
    ensures
        type_bindings(r@) == type_bindings(vs@),
{
    let mut r: Vec<(String, Type)> = Vec::new();
    let mut k: usize = 0;
    while k < vs.len()
        invariant
            k <= vs@.len(),
            type_bindings(r@) == type_bindings(vs@.subrange(0, k as int)),
        decreases vs@.len() - k,
    {
        let name = vs[k].0.clone();
        let ghost prev = r@;
        r.push((name, vs[k].1));
        assert(type_bindings(r@) =~= type_bindings(prev).push((vs@[k as int].0@, vs@[k as int].1)));
        assert(type_bindings(vs@.subrange(0, k + 1)) =~= type_bindings(vs@.subrange(0, k as int)).push(
            (vs@[k as int].0@, vs@[k as int].1),
        ));
        k = k + 1;
    }
    assert(vs@.subrange(0, k as int) =~= vs@);
    r
}

impl TypeCheckVisitor {
    pub fn new() -> (r: Self)
        ensures
            r.variables@.len() == 0,
    {
        TypeCheckVisitor { variables: Vec::new() }
    }

    fn lookup(&self, name: &String) -> (r: Option<Type>)
        ensures
            r == bound_type(type_bindings(self.variables@), name@),
    {
        let ghost all = type_bindings(self.variables@);
        let mut k = self.variables.len();
        assert(all.subrange(0, k as int) =~= all);
        while k > 0
            invariant
                k <= self.variables@.len(),
                all == type_bindings(self.variables@),
                bound_type(all, name@) == bound_type(all.subrange(0, k as int), name@),
            decreases k,
        {
            assert(all.subrange(0, k as int).drop_last() =~= all.subrange(0, k - 1));
            k = k - 1;
            assert(all[k as int] == (self.variables@[k as int].0@, self.variables@[k as int].1));
            if self.variables[k].0 == *name {
                return Some(self.variables[k].1);
            }
        }
        None
    }

    /// Checks each statement of the list `program`.
    pub fn visit_program(&mut self, program: &Value, m: Option<&PositionMap>, fallback: Position) -> (r: Result<(), Error>)
        ensures
            r is Ok ==> program_fits(*program),
            r is Ok <==> check_program(*program, type_bindings(old(self).variables@)) is Some,
            r matches Err(e) ==> compile_fault(e.error) == fault_program(*program, type_bindings(old(self).variables@)),
            r is Ok ==> check_program(*program, type_bindings(old(self).variables@)) == Some(
                type_bindings(final(self).variables@),
            ),
        decreases *program, 2nat,
    {
        let ghost b0 = type_bindings(self.variables@);
        let (items, maps) = match list_with_maps(program, m) {
            Ok(x) => x,
            Err(e) => {
                proof {
                    lemma_check_program_improper(*program, b0);
                }
                return Err(fail(ErrorInternal::Value(e), position_of(m, fallback)));
            },
        };
        let mut k: usize = 0;
        while k < items.len()
            invariant
                items@.len() == maps@.len(),
                items@.map_values(|x: &Value| *x) == value::spine(*program),
                k <= items@.len(),
                forall|j: int| 0 <= j < k ==> calls_fit(#[trigger] value::spine(*program)[j]),
                value::is_list(*program),
                b0 == type_bindings(old(self).variables@),
                check_program(*program, b0) == check_program(
                    tail(*program, k as nat),
                    type_bindings(self.variables@),
                ),
                value::is_list(tail(*program, k as nat)),
                fault_program(*program, b0) == fault_program(
                    tail(*program, k as nat),
                    type_bindings(self.variables@),
                ),
            decreases items@.len() - k,
        {
            proof {
                assert(*items@[k as int] == items@.map_values(|x: &Value| *x)[k as int]);
                lemma_spine_smaller(*program, k as int);
                lemma_tail_step(*program, k as nat);
            }
            let at = position_of(maps[k], fallback);
            match self.visit_expr(items[k], maps[k], at) {
                Ok(_) => {},
                Err(e) => {
                    return Err(e);
                },
            }
            k = k + 1;
        }
        proof {
            lemma_program_fits(*program);
            lemma_tail_end(*program);
        }
        Ok(())
    }

    /// The type of an expression.
    pub fn visit_expr(&mut self, expr: &Value, m: Option<&PositionMap>, fallback: Position) -> (r: Result<Type, Error>)
        ensures
            r is Ok ==> calls_fit(*expr),
            r is Ok <==> check_expr(*expr, type_bindings(old(self).variables@)) is Some,
            r matches Err(e) ==> compile_fault(e.error) == fault_expr(*expr, type_bindings(old(self).variables@)),
            (*expr matches Value::Identifier(n) && bound_type(type_bindings(old(self).variables@), n@) is None)
                ==> r is Err && r->Err_0.error == ErrorInternal::UnknownInternalFunction(
                expr->Identifier_0,
            ),
            (*expr matches Value::Identifier(n) && bound_type(type_bindings(old(self).variables@), n@) is None)
                ==> r is Err && (r->Err_0.line, r->Err_0.column) == node_position(deref_map(m), fallback),
            r matches Ok(t) ==> check_expr(*expr, type_bindings(old(self).variables@)) == Some(
                (t, type_bindings(final(self).variables@)),
            ),
        decreases *expr, 1nat,
    {
        let at = position_of(m, fallback);
        match expr {
            Value::Identifier(i) => match self.lookup(i) {
                Some(t) => Ok(t),
                None => Err(fail(ErrorInternal::UnknownInternalFunction(i.clone()), at)),
            },
            Value::Cell(_, _) => self.visit_call(expr, m, at),
            Value::Quoted(inner) => Ok(inner.type_()),
            _ => Ok(expr.type_()),
        }
    }

    /// The type of a call `(name args...)`, after checking it.
    pub fn visit_call(&mut self, call: &Value, m: Option<&PositionMap>, fallback: Position) -> (r: Result<Type, Error>)
        requires
            call is Cell,
        ensures
            r is Ok ==> calls_fit(*call),
            r is Ok <==> check_call(*call, type_bindings(old(self).variables@)) is Some,
            r matches Err(e) ==> compile_fault(e.error) == fault_call(*call, type_bindings(old(self).variables@)),
            unknown_head(*call) ==> r is Err && r->Err_0.error
                == ErrorInternal::UnknownInternalFunction((*call->Cell_0)->Identifier_0),
            unknown_head(*call) || arity_violated(*call) ==> r is Err && (r->Err_0.line, r->Err_0.column)
                == head_position(deref_map(m), fallback),
            arity_violated(*call) ==> r is Err && r->Err_0.error == ErrorInternal::Type(
                arity_error(
                    builtins::builtin_named((*call->Cell_0)->Identifier_0@)->Some_0,
                    value::spine(*call->Cell_1).len(),
                ),
            ),
            r matches Ok(t) ==> check_call(*call, type_bindings(old(self).variables@)) == Some(
                (t, type_bindings(final(self).variables@)),
            ),
        decreases *call, 0nat,
    {
        let (l, r) = match call {
            Value::Cell(l, r) => (&**l, &**r),
            _ => {
                return Err(fail(ErrorInternal::Value(value::Error::ExpectedType(Type::Cell, call.type_())), fallback));
            },
        };
        assert(value::spine(*call) == seq![*l] + value::spine(*r));
        let head_at = position_of(first_map(m), fallback);
        let name = match l.try_as_identifier() {
            Ok(n) => n,
            Err(e) => {
                return Err(fail(ErrorInternal::Value(e), head_at));
            },
        };
        let (args, arg_maps) = match list_with_maps(r, rest_map(m)) {
            Ok(x) => x,
            Err(e) => {
                return Err(fail(ErrorInternal::Value(e), head_at));
            },
        };
        let builtin = match builtins::get(name) {
            Some(b) => b,
            None => {
                return Err(fail(ErrorInternal::UnknownInternalFunction(name.clone()), head_at));
            },
        };
        assert(value::spine(*r).len() == args@.len()) by {
            assert(args@.map_values(|x: &Value| *x).len() == args@.len());
        }
        match builtin.signature.check_arguments_length(args.len()) {
            Ok(()) => {},
            Err(e) => {
                return Err(fail(ErrorInternal::Type(e), head_at));
            },
        }
        let specs = builtin.signature.specs_by_position(args.len());
        if specs.len() < args.len() {
            return Err(fail(ErrorInternal::Type(types::Error::TooManyArguments { expected: specs.len(), actual: args.len() }), head_at));
        }
        let ghost b0 = type_bindings(self.variables@);
        let ghost op = builtin.op;
        proof {
            assert(count_fits(op, value::spine(*r).len()));
            assert(check_call(*call, b0) == match check_args(op, *r, 0, b0) {
                None => None,
                Some((ts, af)) => finish_call(op, *r, ts, af),
            });
            assert(prepend_types(Seq::<Type>::empty(), check_args(op, *r, 0, b0)) == check_args(op, *r, 0, b0)) by {
                if let Some((ts, bs)) = check_args(op, *r, 0, b0) {
                    assert(Seq::<Type>::empty() + ts =~= ts);
                }
            }
        }
        let mut types: Vec<Type> = Vec::new();
        let mut k: usize = 0;
        while k < args.len()
            invariant
                specs@.len() >= args@.len(),
                args@.len() == arg_maps@.len(),
                args@.map_values(|x: &Value| *x) == value::spine(*r),
                value::spine(*call) == seq![*l] + value::spine(*r),
                types@.len() == k,
                k <= args@.len(),
                specs@.len() == args@.len(),
                forall|j: int| 0 <= j < specs@.len() ==> types::spec_at(builtin.signature, j as nat) == Some(#[trigger] specs@[j]),
                builtins::has_signature(builtin.signature, builtin.op),
                forall|j: int|
                    0 <= j < k ==> (!(#[trigger] specs@[j]).raw ==> calls_fit(value::spine(*r)[j])),
                value::is_list(*r),
                !arity_violated(*call),
                !unknown_head(*call),
                op == builtin.op,
                b0 == type_bindings(old(self).variables@),
                check_call(*call, b0) == match check_args(op, *r, 0, b0) {
                    None => None,
                    Some((ts, af)) => finish_call(op, *r, ts, af),
                },
                fault_call(*call, b0) == match check_args(op, *r, 0, b0) {
                    None => fault_args(op, *r, 0, b0),
                    Some((_, af)) => finish_fault(op, *r, af),
                },
                fault_args(op, *r, 0, b0) == fault_args(
                    op,
                    tail(*r, k as nat),
                    k as nat,
                    type_bindings(self.variables@),
                ),
                check_args(op, *r, 0, b0) == prepend_types(
                    types@,
                    check_args(op, tail(*r, k as nat), k as nat, type_bindings(self.variables@)),
                ),
            decreases args@.len() - k,
        {
            let arg_at = position_of(arg_maps[k], head_at);
            let ghost bk = type_bindings(self.variables@);
            proof {
                assert(types::spec_at(builtin.signature, k as nat) == Some(specs@[k as int]));
                assert(op_spec_at(op, k as nat) == Some(specs@[k as int]));
                lemma_tail_step(*r, k as nat);
                assert(*args@[k as int] == args@.map_values(|x: &Value| *x)[k as int]);
            }
            let t = if specs[k].is_raw() {
                args[k].type_()
            } else {
                proof {
                    assert(*args@[k as int] == args@.map_values(|x: &Value| *x)[k as int]);
                    assert(value::spine(*call)[k + 1] == value::spine(*r)[k as int]);
                    lemma_spine_smaller(*call, k + 1);
                }
                match self.visit_expr(args[k], arg_maps[k], arg_at) {
                    Ok(t) => t,
                    Err(e) => {
                        return Err(e);
                    },
                }
            };
            match specs[k].check_at(t, k) {
                Ok(()) => {},
                Err(e) => {
                    return Err(fail(ErrorInternal::Type(e), arg_at));
                },
            }
            proof {
                lemma_prepend_types(
                    types@,
                    seq![t],
                    check_args(op, tail(*r, k as nat + 1), k as nat + 1, type_bindings(self.variables@)),
                );
                assert(types@.push(t) =~= types@ + seq![t]);
            }
            types.push(t);
            k = k + 1;
        }
        proof {
            lemma_tail_end(*r);
            assert(types@ + Seq::<Type>::empty() =~= types@);
        }
        let ghost after = type_bindings(self.variables@);
        let ghost op = builtin.op;
        proof {
            assert(value::spine(*r).len() == args@.len()) by {
                assert(args@.map_values(|x: &Value| *x).len() == args@.len());
            }
            assert forall|j: int|
                0 <= j < args@.len() implies op_spec_at(op, j as nat) == Some(#[trigger] specs@[j]) by {
                assert(types::spec_at(builtin.signature, j as nat) == Some(specs@[j]));
            }
        }
        match builtin.op {
            BuiltinOp::SetVariable => {
                if args.len() < 2 {
                    return Err(fail(ErrorInternal::Type(types::Error::NotEnoughArguments { expected: 2, actual: args.len() }), head_at));
                }
                proof {
                    assert(*args@[0] == args@.map_values(|x: &Value| *x)[0]);
                    assert(value::spine(*r)[0] == *r->Cell_0);
                }
                let var = match args[0].try_as_identifier() {
                    Ok(n) => n,
                    Err(e) => {
                        return Err(fail(ErrorInternal::Value(e), head_at));
                    },
                };
                let ghost prev = self.variables@;
                self.variables.push((var.clone(), types[1]));
                proof {
                    assert(type_bindings(self.variables@) =~= type_bindings(prev).push((var@, types@[1])));
                    assert(args@[0] == args@.map_values(|x: &Value| *x)[0]);
                    if r is Cell {
                        assert(value::spine(*r)[1] == value::spine(*r->Cell_1)[0]);
                    }
                    assert forall|j: int| 0 <= j < value::spine(*r).len() implies arg_fits(
                        op,
                        #[trigger] value::spine(*r)[j],
                        0 + j as nat,
                    ) by {
                        assert(op_spec_at(op, j as nat) == Some(specs@[j]));
                    }
                    lemma_args_fit(op, *r, 0);
                }
                Ok(Type::Nil)
            },
            BuiltinOp::If => {
                if args.len() < 3 {
                    return Err(fail(ErrorInternal::Type(types::Error::NotEnoughArguments { expected: 3, actual: args.len() }), head_at));
                }
                proof {
                    lemma_tail_step(*r, 0);
                    lemma_tail_step(*r, 1);
                    lemma_tail_step(*r, 2);
                    assert(tail(*r, 0) == *r);
                    assert(check_call(*call, b0) == finish_call(op, *r, types@, after));
                    assert(finish_fault(op, *r, after) == (if check_program(value::spine(*r)[1], after) is None {
                            fault_program(value::spine(*r)[1], after)
                        } else {
                            fault_program(value::spine(*r)[2], after)
                        }));
                }
                let mut k: usize = 1;
                while k < 3
                    invariant
                        args@.len() >= 3,
                        args@.len() == arg_maps@.len(),
                        args@.map_values(|x: &Value| *x) == value::spine(*r),
                        value::spine(*call) == seq![*l] + value::spine(*r),
                        type_bindings(self.variables@) == after,
                        forall|j: int| 1 <= j < k ==> check_program(#[trigger] value::spine(*r)[j], after) is Some,
                        op == BuiltinOp::If,
                        !arity_violated(*call),
                        !unknown_head(*call),
                        b0 == type_bindings(old(self).variables@),
                        check_call(*call, b0) == finish_call(op, *r, types@, after),
                        fault_call(*call, b0) == finish_fault(op, *r, after),
                        finish_fault(op, *r, after) == (if check_program(value::spine(*r)[1], after) is None {
                            fault_program(value::spine(*r)[1], after)
                        } else {
                            fault_program(value::spine(*r)[2], after)
                        }),
                        finish_call(op, *r, types@, after) == (if check_program(value::spine(*r)[1], after) is Some
                            && check_program(value::spine(*r)[2], after) is Some {
                            Some((Type::Nil, after))
                        } else {
                            None
                        }),
                        1 <= k <= 3,
                        forall|j: int| 1 <= j < k ==> program_fits(#[trigger] value::spine(*r)[j]),
                    decreases 3 - k,
                {
                    proof {
                        assert(*args@[k as int] == args@.map_values(|x: &Value| *x)[k as int]);
                        assert(value::spine(*call)[k + 1] == value::spine(*r)[k as int]);
                        lemma_spine_smaller(*call, k + 1);
                    }
                    proof {
                        assert(*args@[k as int] == args@.map_values(|x: &Value| *x)[k as int]);
                    }
                    let mut block = TypeCheckVisitor { variables: copy_types(&self.variables) };
                    match block.visit_program(args[k], arg_maps[k], head_at) {
                        Ok(()) => {},
                        Err(e) => {
                            return Err(e);
                        },
                    }
                    k = k + 1;
                }
                proof {
                    lemma_tail_step(*r, 1);
                    lemma_tail_step(*r, 2);
                    assert forall|j: int| 0 <= j < value::spine(*r).len() implies arg_fits(
                        op,
                        #[trigger] value::spine(*r)[j],
                        0 + j as nat,
                    ) by {
                        assert(op_spec_at(op, j as nat) == Some(specs@[j]));
                        if 1 <= j < 3 {
                            assert(program_fits(value::spine(*r)[j]));
                        }
                    }
                    lemma_args_fit(op, *r, 0);
                }
                Ok(Type::Nil)
            },
            _ => {
                proof {
                    assert forall|j: int| 0 <= j < value::spine(*r).len() implies arg_fits(
                        op,
                        #[trigger] value::spine(*r)[j],
                        0 + j as nat,
                    ) by {
                        assert(op_spec_at(op, j as nat) == Some(specs@[j]));
                    }
                    lemma_args_fit(op, *r, 0);
                }
                Ok(builtin.signature.return_type)
            },
        }
    }
}

/// The registers of a compiler's variables, as names and register ids.
pub type RegisterBindings = Seq<(Seq<char>, RegisterId)>;

pub open spec fn register_bindings(vs: Seq<(String, RegisterId)>) -> RegisterBindings {
    vs.map_values(|p: (String, RegisterId)| (p.0@, p.1))
}

/// The register most recently bound to `name`.
pub open spec fn bound_register(vars: RegisterBindings, name: Seq<char>) -> Option<RegisterId>
    decreases vars.len(),
{
    if vars.len() == 0 {
        None
    } else if vars.last().0 == name {
        Some(vars.last().1)
    } else {
        bound_register(vars.drop_last(), name)
    }
}

/// Where registers are handed out after the expression `v` from `end`:
/// an `if` restores the range it found, every other expression takes one
/// register.
pub open spec fn next_end(v: Value, end: int) -> int {
    match v {
        Value::Cell(l, _) => match *l {
            Value::Identifier(n) => if builtins::builtin_named(n@) == Some(BuiltinOp::If) {
                end
            } else {
                end + 1
            },
            _ => end + 1,
        },
        _ => end + 1,
    }
}

/// The code for the expression `v` whose value goes to register `end`
/// and the variable
/// registers after it; `None` where it cannot be compiled. Registers after
/// it are handed out from `next_end(v, end)`. An atom is
/// loaded, a variable copied from its register, and a call, `set` and `if`
/// are lowered as `emit_call`, `emit_set` and `emit_if` say.
pub open spec fn emit_expr(v: Value, vars: RegisterBindings, end: int) -> Option<(Seq<Instruction>, RegisterBindings)>
    decreases v, 3nat,
{
    if !(0 <= end < 256) {
        None
    } else {
        match v {
            Value::Identifier(name) => match bound_register(vars, name@) {
                Some(src) => Some((seq![Instruction::Copy { dest: end as RegisterId, src }], vars)),
                None => None,
            },
            Value::Cell(_, _) => emit_call(v, vars, end),
            Value::Quoted(inner) => Some(
                (seq![Instruction::LoadImmediate { dest: end as RegisterId, value: *inner }], vars),
            ),
            _ => Some((seq![Instruction::LoadImmediate { dest: end as RegisterId, value: v }], vars)),
        }
    }
}

/// A call of a built-in: its arguments into the registers from `end` on,
/// then the call with its base at `end`.
pub open spec fn emit_call(v: Value, vars: RegisterBindings, end: int) -> Option<(Seq<Instruction>, RegisterBindings)>
    decreases v, 2nat,
{
    match v {
        Value::Cell(l, r) => match *l {
            Value::Identifier(name) => match builtins::builtin_named(name@) {
                Some(BuiltinOp::If) => emit_if(v, vars, end),
                Some(BuiltinOp::SetVariable) => emit_set(v, vars, end),
                Some(_) => if !value::is_list(*r) || value::spine(*r).len() > 32767 {
                    None
                } else {
                    match emit_args(*r, vars, end) {
                        None => None,
                        Some((code, after)) => Some(
                            (
                                code.push(
                                    Instruction::CallInternal {
                                        ident: name,
                                        base: end as RegisterId,
                                        num_args: value::spine(*r).len() as RegisterOffset,
                                    },
                                ),
                                after,
                            ),
                        ),
                    }
                },
                None => None,
            },
            _ => None,
        },
        _ => None,
    }
}

/// The arguments along `r`, each into the next register from `end`.
pub open spec fn emit_args(r: Value, vars: RegisterBindings, end: int) -> Option<(Seq<Instruction>, RegisterBindings)>
    decreases r, 4nat,
{
    match r {
        Value::Nil => Some((Seq::empty(), vars)),
        Value::Cell(a, rest) => match emit_expr(*a, vars, end) {
            None => None,
            Some((c1, v1)) => match emit_args(*rest, v1, end + 1) {
                None => None,
                Some((c2, v2)) => Some((c1 + c2, v2)),
            },
        },
        _ => None,
    }
}

/// `set name value`: the value's code, with the value in register `end`,
/// which becomes the variable's register.
pub open spec fn emit_set(v: Value, vars: RegisterBindings, end: int) -> Option<(Seq<Instruction>, RegisterBindings)>
    decreases v, 1nat,
{
    match v {
        Value::Cell(_, r) => if !value::is_list(*r) || value::spine(*r).len() < 2 {
            None
        } else {
            match *r {
                Value::Cell(target, r1) => match *target {
                    Value::Identifier(var) => match *r1 {
                        Value::Cell(value, _) => match emit_expr(*value, vars, end) {
                            None => None,
                            Some((code, after)) => Some((code, after.push((var@, end as RegisterId)))),
                        },
                        _ => None,
                    },
                    _ => None,
                },
                _ => None,
            }
        },
        _ => None,
    }
}

/// `if cond T F`: the condition's code into register `end`, a jump over
/// the false block, the false block, `true` into a scratch register and a
/// jump over the true block, the true block. The blocks use registers from
/// `end + 1` on, the true block's first.
pub open spec fn emit_if(v: Value, vars: RegisterBindings, end: int) -> Option<(Seq<Instruction>, RegisterBindings)>
    decreases v, 1nat,
{
    match v {
        Value::Cell(_, r) => if !value::is_list(*r) || value::spine(*r).len() < 3 {
            None
        } else {
            match *r {
                Value::Cell(cond, r1) => match *r1 {
                    Value::Cell(yes, r2) => match *r2 {
                        Value::Cell(no, _) => match emit_expr(*cond, vars, end) {
                            None => None,
                            Some((cc, v1)) => match emit_program(*yes, v1, next_end(*cond, end)) {
                                None => None,
                                Some((ct, _, et)) => match emit_program(*no, v1, et) {
                                    None => None,
                                    Some((cf, _, ef)) => if !(0 <= ef < 256) || cf.len() > 2147483645
                                        || ct.len() > 2147483647 {
                                        None
                                    } else {
                                        Some(
                                            (
                                                cc + seq![
                                                    Instruction::JumpIf {
                                                        cond: end as RegisterId,
                                                        distance: (cf.len() + 2) as PcOffset,
                                                    },
                                                ] + cf + seq![
                                                    Instruction::LoadImmediate {
                                                        dest: ef as RegisterId,
                                                        value: Value::Boolean(true),
                                                    },
                                                    Instruction::JumpIf {
                                                        cond: ef as RegisterId,
                                                        distance: ct.len() as PcOffset,
                                                    },
                                                ] + ct,
                                                v1,
                                            ),
                                        )
                                    },
                                },
                            },
                        },
                        _ => None,
                    },
                    _ => None,
                },
                _ => None,
            }
        },
        _ => None,
    }
}

/// The statements of the list `p` in turn, from register `end`: their
/// code, the variable registers after them, and the next free register.
pub open spec fn emit_program(p: Value, vars: RegisterBindings, end: int) -> Option<(Seq<Instruction>, RegisterBindings, int)>
    decreases p, 4nat,
{
    match p {
        Value::Nil => Some((Seq::empty(), vars, end)),
        Value::Cell(s, rest) => match emit_expr(*s, vars, end) {
            None => None,
            Some((c1, v1)) => match emit_program(*rest, v1, next_end(*s, end)) {
                None => None,
                Some((c2, v2, e2)) => Some((c1 + c2, v2, e2)),
            },
        },
        _ => None,
    }
}

/// `c` before the code of the outcome `o`.
pub open spec fn prepend_code(c: Seq<Instruction>, o: Option<(Seq<Instruction>, RegisterBindings)>) -> Option<(Seq<Instruction>, RegisterBindings)> {
    match o {
        None => None,
        Some((d, b)) => Some((c + d, b)),
    }
}

/// `c` before the code of the outcome `o` of a program.
pub open spec fn prepend_program(c: Seq<Instruction>, o: Option<(Seq<Instruction>, RegisterBindings, int)>) -> Option<(Seq<Instruction>, RegisterBindings, int)> {
    match o {
        None => None,
        Some((d, b, e)) => Some((c + d, b, e)),
    }
}

proof fn lemma_emit_program_improper(p: Value, vars: RegisterBindings, end: int)
    requires
        !value::is_list(p),
    ensures
        emit_program(p, vars, end) is None,
    decreases p,
{
    if let Value::Cell(s, rest) = p {
        if let Some((_, after)) = emit_expr(*s, vars, end) {
            lemma_emit_program_improper(*rest, after, next_end(*s, end));
        }
    }
}

/// `after` follows `before` by the code and variable registers of `o`,
/// and hands out registers from `end`.
pub open spec fn emitted(before: CompilerVisitor, after: CompilerVisitor, o: Option<(Seq<Instruction>, RegisterBindings)>, end: int) -> bool {
    &&& o is Some
    &&& after.output@ == before.output@ + o->Some_0.0
    &&& register_bindings(after.variables@) == o->Some_0.1
    &&& after.allocator.end == end
}

/// The second pass: emits instructions, handing out registers from the
/// allocator. `floor` is the watermark when this visitor's output began.
pub struct CompilerVisitor {
    pub output: Vec<Instruction>,
    pub allocator: RegisterAllocator,
    pub variables: Vec<(String, RegisterId)>,
    pub floor: Ghost<int>,
}

fn copy_registers(vs: &Vec<(String, RegisterId)>) -> (r: Vec<(String, RegisterId)>)
    ensures
        r@.len() == vs@.len(),
        forall|i: int| 0 <= i < r@.len() ==> r@[i].1 == vs@[i].1,
        register_bindings(r@) == register_bindings(vs@),
{
    let mut r: Vec<(String, RegisterId)> = Vec::new();
    let mut k: usize = 0;
    while k < vs.len()
        invariant
            k <= vs@.len(),
            r@.len() == k,
            forall|i: int| 0 <= i < r@.len() ==> r@[i].1 == vs@[i].1,
            register_bindings(r@) == register_bindings(vs@.subrange(0, k as int)),
        decreases vs@.len() - k,
    {
        let name = vs[k].0.clone();
        let ghost prev = r@;
        r.push((name, vs[k].1));
        assert(register_bindings(r@) =~= register_bindings(prev).push((vs@[k as int].0@, vs@[k as int].1)));
        assert(register_bindings(vs@.subrange(0, k + 1)) =~= register_bindings(vs@.subrange(0, k as int)).push(
            (vs@[k as int].0@, vs@[k as int].1),
        ));
        k = k + 1;
    }
    assert(vs@.subrange(0, k as int) =~= vs@);
    r
}

/// The layout of `if`: the condition's code, a jump over the false block,
/// the false block, a jump over the true block, the true block.
proof fn lemma_if_layout(
    out1: Seq<Instruction>,
    t: Seq<Instruction>,
    f: Seq<Instruction>,
    j1: Instruction,
    l: Instruction,
    j2: Instruction,
    floor: int,
    h1: int,
    h2: int,
    h3: int,
    h4: int,
)
    requires
        floor <= h1 <= h2 <= h3 <= h4,
        bounded(out1, h1),
        bounded(t, h2),
        bounded(f, h3),
        bounded(seq![j1, l, j2], h4),
        h1 > floor ==> reaches(out1, h1),
        h2 > h1 ==> reaches(t, h2),
        h3 > h2 ==> reaches(f, h3),
        h4 > h3 ==> max_register(l) == h4,
    ensures
        bounded(out1 + seq![j1] + f + seq![l, j2] + t, h4),
        h4 > floor ==> reaches(out1 + seq![j1] + f + seq![l, j2] + t, h4),
{
    let a = out1 + seq![j1];
    let b = a + f;
    let c = b + seq![l, j2];
    let d = c + t;
    lemma_bounded_mono(out1, h1, h4);
    lemma_bounded_mono(t, h2, h4);
    lemma_bounded_mono(f, h3, h4);
    assert(bounded(seq![j1], h4)) by {
        assert(seq![j1][0] == seq![j1, l, j2][0]);
    }
    assert(bounded(seq![l, j2], h4)) by {
        assert(seq![l, j2][0] == seq![j1, l, j2][1]);
        assert(seq![l, j2][1] == seq![j1, l, j2][2]);
    }
    lemma_bounded_concat(out1, seq![j1], h4);
    lemma_bounded_concat(a, f, h4);
    lemma_bounded_concat(b, seq![l, j2], h4);
    lemma_bounded_concat(c, t, h4);
    if h4 > floor {
        if h4 > h3 {
            assert(max_register(seq![l, j2][0]) == h4);
            lemma_reaches_concat(b, seq![l, j2], h4);
            lemma_reaches_concat(c, t, h4);
        } else if h3 > h2 {
            lemma_reaches_concat(a, f, h4);
            lemma_reaches_concat(b, seq![l, j2], h4);
            lemma_reaches_concat(c, t, h4);
        } else if h2 > h1 {
            lemma_reaches_concat(c, t, h4);
        } else {
            lemma_reaches_concat(out1, seq![j1], h4);
            lemma_reaches_concat(a, f, h4);
            lemma_reaches_concat(b, seq![l, j2], h4);
            lemma_reaches_concat(c, t, h4);
        }
    }
}

/// `after` is `before` with more instructions and perhaps a higher
/// watermark, its ranges as they were.
pub open spec fn keeps(before: CompilerVisitor, after: CompilerVisitor) -> bool {
    &&& after.wf()
    &&& after.floor == before.floor
    &&& after.allocator.start == before.allocator.start
    &&& after.allocator.stack@ == before.allocator.stack@
    &&& before.allocator.highest_used <= after.allocator.highest_used
    &&& after.variables@.len() >= before.variables@.len()
}

impl CompilerVisitor {
    pub open spec fn wf(&self) -> bool {
        &&& self.allocator.wf()
        &&& 0 <= self.floor@ <= self.allocator.highest_used
        &&& bounded(self.output@, self.allocator.highest_used as int)
        &&& self.allocator.highest_used > self.floor@ ==> reaches(
            self.output@,
            self.allocator.highest_used as int,
        )
        &&& forall|i: int|
            0 <= i < self.variables@.len() ==> (#[trigger] self.variables@[i]).1
                <= self.allocator.highest_used
    }

    /// A visitor with an empty output that hands out registers from `allocator`.
    pub fn new(allocator: RegisterAllocator, variables: Vec<(String, RegisterId)>) -> (r: Self)
        requires
            allocator.wf(),
            forall|i: int| 0 <= i < variables@.len() ==> (#[trigger] variables@[i]).1 <= allocator.highest_used,
        ensures
            r.wf(),
            r.output@.len() == 0,
            r.allocator == allocator,
            r.variables == variables,
            r.floor@ == allocator.highest_used,
    {
        let ghost h = allocator.highest_used as int;
        CompilerVisitor { output: Vec::new(), allocator, variables, floor: Ghost(h) }
    }

    /// Appends one instruction.
    pub fn push(&mut self, i: Instruction)
        requires
            old(self).allocator.wf(),
            bounded(old(self).output@, old(self).allocator.highest_used as int),
            max_register(i) <= old(self).allocator.highest_used,
            !(i is AllocRegisters),
        ensures
            final(self).output@ == old(self).output@.push(i),
            final(self).allocator == old(self).allocator,
            final(self).variables == old(self).variables,
            final(self).floor == old(self).floor,
            bounded(final(self).output@, final(self).allocator.highest_used as int),
            reaches(old(self).output@, old(self).allocator.highest_used as int) ==> reaches(
                final(self).output@,
                final(self).allocator.highest_used as int,
            ),
            max_register(i) == old(self).allocator.highest_used ==> reaches(
                final(self).output@,
                final(self).allocator.highest_used as int,
            ),
    {
        let ghost before = self.output@;
        self.output.push(i);
        proof {
            assert(self.output@ == before + seq![i]);
            assert(bounded(seq![i], self.allocator.highest_used as int));
            lemma_bounded_concat(before, seq![i], self.allocator.highest_used as int);
            if max_register(i) == old(self).allocator.highest_used {
                assert(max_register(seq![i][0]) == self.allocator.highest_used);
            }
            if reaches(before, self.allocator.highest_used as int) || max_register(i)
                == old(self).allocator.highest_used {
                lemma_reaches_concat(before, seq![i], self.allocator.highest_used as int);
            }
        }
    }

    /// Appends instructions.
    pub fn extend(&mut self, is: Vec<Instruction>)
        ensures
            final(self).output@ == old(self).output@ + is@,
            final(self).allocator == old(self).allocator,
            final(self).variables == old(self).variables,
            final(self).floor == old(self).floor,
    {
        let mut is = is;
        self.output.append(&mut is);
    }

    fn lookup(&self, name: &String) -> (r: Option<RegisterId>)
        ensures
            r == bound_register(register_bindings(self.variables@), name@),
            r matches Some(x) ==> exists|i: int| 0 <= i < self.variables@.len() && self.variables@[i].1 == x,
    {
        let ghost all = register_bindings(self.variables@);
        let mut k = self.variables.len();
        assert(all.subrange(0, k as int) =~= all);
        while k > 0
            invariant
                k <= self.variables@.len(),
                all == register_bindings(self.variables@),
                bound_register(all, name@) == bound_register(all.subrange(0, k as int), name@),
            decreases k,
        {
            assert(all.subrange(0, k as int).drop_last() =~= all.subrange(0, k - 1));
            k = k - 1;
            assert(all[k as int] == (self.variables@[k as int].0@, self.variables@[k as int].1));
            if self.variables[k].0 == *name {
                return Some(self.variables[k].1);
            }
        }
        None
    }

    /// Emits a load of `v` into a fresh register.
    fn load_fresh(&mut self, v: Value, at: Position) -> (r: Result<(), Error>)
        requires
            old(self).wf(),
        ensures
            r is Ok <==> old(self).allocator.end < 256,
            r is Ok ==> keeps(*old(self), *final(self)) && final(self).allocator.highest_used
                >= old(self).allocator.end && final(self).output@ == old(self).output@.push(
                Instruction::LoadImmediate { dest: old(self).allocator.end as RegisterId, value: v },
            ) && final(self).variables == old(self).variables && final(self).allocator.end
                == old(self).allocator.end + 1,
    {
        let d = match self.allocator.allocate() {
            Some(d) => d,
            None => {
                return Err(fail(ErrorInternal::TooManyRegisters, at));
            },
        };
        self.push(Instruction::LoadImmediate { dest: d, value: v });
        Ok(())
    }

    /// Emits each statement of the list `program`.
    pub fn visit_program(&mut self, program: &Value, m: Option<&PositionMap>, fallback: Position) -> (r: Result<(), Error>)
        requires
            old(self).wf(),
        ensures
            r is Ok <==> emit_program(
                *program,
                register_bindings(old(self).variables@),
                old(self).allocator.end as int,
            ) is Some,
            r is Ok ==> keeps(*old(self), *final(self)) && ({
                let o = emit_program(
                    *program,
                    register_bindings(old(self).variables@),
                    old(self).allocator.end as int,
                )->Some_0;
                &&& final(self).output@ == old(self).output@ + o.0
                &&& register_bindings(final(self).variables@) == o.1
                &&& final(self).allocator.end == o.2
            }),
        decreases *program, 3nat,
    {
        let ghost b0 = register_bindings(self.variables@);
        let ghost e0 = self.allocator.end as int;
        let ghost out0 = self.output@;
        let (items, maps) = match list_with_maps(program, m) {
            Ok(x) => x,
            Err(e) => {
                proof {
                    lemma_emit_program_improper(*program, b0, e0);
                }
                return Err(fail(ErrorInternal::Value(e), position_of(m, fallback)));
            },
        };
        proof {
            if let Some((c, v, e)) = emit_program(*program, b0, e0) {
                assert(Seq::<Instruction>::empty() + c =~= c);
            }
            assert(self.output@.subrange(out0.len() as int, self.output@.len() as int) =~= Seq::<
                Instruction,
            >::empty());
        }
        let mut k: usize = 0;
        while k < items.len()
            invariant
                items@.len() == maps@.len(),
                items@.map_values(|x: &Value| *x) == value::spine(*program),
                keeps(*old(self), *self),
                k <= items@.len(),
                value::is_list(*program),
                b0 == register_bindings(old(self).variables@),
                e0 == old(self).allocator.end as int,
                out0 == old(self).output@,
                out0.len() <= self.output@.len(),
                self.output@.subrange(0, out0.len() as int) == out0,
                emit_program(*program, b0, e0) == prepend_program(
                    self.output@.subrange(out0.len() as int, self.output@.len() as int),
                    emit_program(
                        tail(*program, k as nat),
                        register_bindings(self.variables@),
                        self.allocator.end as int,
                    ),
                ),
            decreases items@.len() - k,
        {
            proof {
                assert(*items@[k as int] == items@.map_values(|x: &Value| *x)[k as int]);
                lemma_spine_smaller(*program, k as int);
                lemma_tail_step(*program, k as nat);
            }
            let at = position_of(maps[k], fallback);
            let ghost before = *self;
            match self.visit_expr(items[k], maps[k], at) {
                Ok(()) => {},
                Err(e) => {
                    return Err(e);
                },
            }
            proof {
                let done = before.output@.subrange(out0.len() as int, before.output@.len() as int);
                let code = emit_expr(
                    *items@[k as int],
                    register_bindings(before.variables@),
                    before.allocator.end as int,
                )->Some_0.0;
                if let Some((c2, v2, e2)) = emit_program(
                    tail(*program, k as nat + 1),
                    register_bindings(self.variables@),
                    self.allocator.end as int,
                ) {
                    assert(done + (code + c2) =~= (done + code) + c2);
                }
                assert(self.output@.subrange(out0.len() as int, self.output@.len() as int) =~= done
                    + code);
                assert(self.output@.subrange(0, out0.len() as int) =~= out0);
            }
            k = k + 1;
        }
        proof {
            lemma_tail_end(*program);
            let done = self.output@.subrange(out0.len() as int, self.output@.len() as int);
            assert(done + Seq::<Instruction>::empty() =~= done);
            assert(self.output@ =~= out0 + done);
        }
        Ok(())
    }

    /// Emits code that leaves the value of `expr` in a fresh register.
    pub fn visit_expr(&mut self, expr: &Value, m: Option<&PositionMap>, fallback: Position) -> (r: Result<(), Error>)
        requires
            old(self).wf(),
        ensures
            r is Ok <==> emit_expr(
                *expr,
                register_bindings(old(self).variables@),
                old(self).allocator.end as int,
            ) is Some,
            r is Ok ==> keeps(*old(self), *final(self)) && final(self).allocator.highest_used
                >= old(self).allocator.end && emitted(
                *old(self),
                *final(self),
                emit_expr(*expr, register_bindings(old(self).variables@), old(self).allocator.end as int),
                next_end(*expr, old(self).allocator.end as int),
            ),
        decreases *expr, 2nat,
    {
        let at = position_of(m, fallback);
        match expr {
            Value::Identifier(i) => {
                let src = match self.lookup(i) {
                    Some(src) => src,
                    None => {
                        return Err(fail(ErrorInternal::UnknownInternalFunction(i.clone()), at));
                    },
                };
                let d = match self.allocator.allocate() {
                    Some(d) => d,
                    None => {
                        return Err(fail(ErrorInternal::TooManyRegisters, at));
                    },
                };
                let ghost before = self.output@;
                self.push(Instruction::Copy { dest: d, src });
                assert(self.output@ =~= before + seq![Instruction::Copy { dest: d, src }]);
                Ok(())
            },
            Value::Cell(_, _) => self.visit_call(expr, m, at),
            Value::Quoted(inner) => {
                let ghost before = self.output@;
                let r = self.load_fresh(inner.duplicate(), at);
                assert(r is Ok ==> self.output@ =~= before + seq![
                    Instruction::LoadImmediate { dest: old(self).allocator.end as RegisterId, value: **inner },
                ]);
                r
            },
            _ => {
                let ghost before = self.output@;
                let r = self.load_fresh(expr.duplicate(), at);
                assert(r is Ok ==> self.output@ =~= before + seq![
                    Instruction::LoadImmediate { dest: old(self).allocator.end as RegisterId, value: *expr },
                ]);
                r
            },
        }
    }

    /// Emits a call of a built-in: its arguments into consecutive registers
    /// from `base`, then the call, whose result stays in `base`.
    #[verifier::rlimit(100)]
    pub fn visit_call(&mut self, call: &Value, m: Option<&PositionMap>, fallback: Position) -> (r: Result<(), Error>)
        requires
            old(self).wf(),
            call is Cell,
        ensures
            r is Ok <==> emit_expr(
                *call,
                register_bindings(old(self).variables@),
                old(self).allocator.end as int,
            ) is Some,
            r is Ok ==> keeps(*old(self), *final(self)) && final(self).allocator.highest_used
                >= old(self).allocator.end && emitted(
                *old(self),
                *final(self),
                emit_expr(*call, register_bindings(old(self).variables@), old(self).allocator.end as int),
                next_end(*call, old(self).allocator.end as int),
            ),
        decreases *call, 1nat,
    {
        let ghost b0 = register_bindings(self.variables@);
        let ghost e0 = self.allocator.end as int;
        let (l, r) = match call {
            Value::Cell(l, r) => (&**l, &**r),
            _ => {
                return Err(fail(ErrorInternal::Value(value::Error::ExpectedType(Type::Cell, call.type_())), fallback));
            },
        };
        assert(value::spine(*call) == seq![*l] + value::spine(*r));
        let head_at = position_of(first_map(m), fallback);
        let name = match l.try_as_identifier() {
            Ok(n) => n,
            Err(e) => {
                return Err(fail(ErrorInternal::Value(e), head_at));
            },
        };
        match builtins::lookup(name.as_str()) {
            Some(BuiltinOp::If) => {
                assert(emit_expr(*call, b0, e0) == emit_if(*call, b0, e0));
                return self.visit_if(call, m, head_at);
            },
            Some(BuiltinOp::SetVariable) => {
                assert(emit_expr(*call, b0, e0) == emit_set(*call, b0, e0));
                return self.visit_set(call, m, head_at);
            },
            Some(_) => {},
            None => {
                return Err(fail(ErrorInternal::UnknownInternalFunction(name.clone()), head_at));
            },
        }
        let (args, arg_maps) = match list_with_maps(r, rest_map(m)) {
            Ok(x) => x,
            Err(e) => {
                return Err(fail(ErrorInternal::Value(e), head_at));
            },
        };
        assert(value::spine(*r).len() == args@.len()) by {
            assert(args@.map_values(|x: &Value| *x).len() == args@.len());
        }
        if args.len() > 32767 {
            return Err(fail(ErrorInternal::ProgramTooLarge, head_at));
        }
        let num_args = args.len() as RegisterOffset;
        let base = self.allocator.current();
        if base >= 256 {
            return Err(fail(ErrorInternal::TooManyRegisters, head_at));
        }
        self.allocator.push_range();
        let ghost mid = *self;
        let ghost out0 = self.output@;
        proof {
            assert(emit_expr(*call, b0, e0) == match emit_args(*r, b0, e0) {
                    None => None,
                    Some((code, after)) => Some(
                        (
                            code.push(
                                Instruction::CallInternal {
                                    ident: *name,
                                    base: e0 as RegisterId,
                                    num_args: value::spine(*r).len() as RegisterOffset,
                                },
                            ),
                            after,
                        ),
                    ),
                });
            if let Some((c, v)) = emit_args(*r, b0, e0) {
                assert(Seq::<Instruction>::empty() + c =~= c);
            }
            assert(self.output@.subrange(out0.len() as int, self.output@.len() as int) =~= Seq::<
                Instruction,
            >::empty());
        }
        let mut k: usize = 0;
        while k < args.len()
            invariant
                args@.len() == arg_maps@.len(),
                args@.map_values(|x: &Value| *x) == value::spine(*r),
                value::spine(*call) == seq![*l] + value::spine(*r),
                value::is_list(*r),
                k <= args@.len(),
                keeps(mid, *self),
                mid.allocator.stack@ == old(self).allocator.stack@.push(
                    (old(self).allocator.start, old(self).allocator.end),
                ),
                base == old(self).allocator.end,
                base < 256,
                old(self).allocator.highest_used <= mid.allocator.highest_used,
                mid.floor == old(self).floor,
                mid.variables@.len() == old(self).variables@.len(),
                b0 == register_bindings(old(self).variables@),
                e0 == base as int,
                out0 == old(self).output@,
                emit_expr(*call, b0, e0) == match emit_args(*r, b0, e0) {
                    None => None,
                    Some((code, after)) => Some(
                        (
                            code.push(
                                Instruction::CallInternal {
                                    ident: *name,
                                    base: e0 as RegisterId,
                                    num_args: value::spine(*r).len() as RegisterOffset,
                                },
                            ),
                            after,
                        ),
                    ),
                },
                self.allocator.end == base + k,
                k > 0 ==> self.allocator.highest_used >= base + k - 1,
                out0.len() <= self.output@.len(),
                self.output@.subrange(0, out0.len() as int) == out0,
                emit_args(*r, b0, e0) == prepend_code(
                    self.output@.subrange(out0.len() as int, self.output@.len() as int),
                    emit_args(tail(*r, k as nat), register_bindings(self.variables@), base + k),
                ),
            decreases args@.len() - k,
        {
            proof {
                assert(*args@[k as int] == args@.map_values(|x: &Value| *x)[k as int]);
                assert(value::spine(*call)[k + 1] == value::spine(*r)[k as int]);
                lemma_spine_smaller(*call, k + 1);
                lemma_tail_step(*r, k as nat);
            }
            let arg_at = position_of(arg_maps[k], head_at);
            let ghost before = *self;
            match self.visit_expr(args[k], arg_maps[k], arg_at) {
                Ok(()) => {},
                Err(e) => {
                    return Err(e);
                },
            }
            if self.allocator.current() == base + k {
                self.allocator.extend_to((base + k) as RegisterId);
            }
            proof {
                let done = before.output@.subrange(out0.len() as int, before.output@.len() as int);
                let code = emit_expr(
                    *args@[k as int],
                    register_bindings(before.variables@),
                    before.allocator.end as int,
                )->Some_0.0;
                if let Some((c2, v2)) = emit_args(
                    tail(*r, k as nat + 1),
                    register_bindings(self.variables@),
                    base + k + 1,
                ) {
                    assert(done + (code + c2) =~= (done + code) + c2);
                }
                assert(self.output@.subrange(out0.len() as int, self.output@.len() as int) =~= done
                    + code);
                assert(self.output@.subrange(0, out0.len() as int) =~= out0);
            }
            k = k + 1;
        }
        proof {
            lemma_tail_end(*r);
            let done = self.output@.subrange(out0.len() as int, self.output@.len() as int);
            assert(done + Seq::<Instruction>::empty() =~= done);
            assert(self.output@ =~= out0 + done);
        }
        self.allocator.pop_range();
        assert(self.allocator.stack@ =~= old(self).allocator.stack@);
        self.allocator.extend_to(base as RegisterId);
        let ghost before_call = self.output@;
        let call_instr = Instruction::CallInternal { ident: name.clone(), base: base as RegisterId, num_args };
        self.push(call_instr);
        proof {
            let done = before_call.subrange(out0.len() as int, before_call.len() as int);
            assert(self.output@ =~= out0 + done.push(call_instr));
        }
        Ok(())
    }

    /// Emits `set name value`: the value's register becomes the variable's.
    pub fn visit_set(&mut self, call: &Value, m: Option<&PositionMap>, at: Position) -> (r: Result<(), Error>)
        requires
            old(self).wf(),
            call is Cell,
        ensures
            r is Ok <==> emit_set(
                *call,
                register_bindings(old(self).variables@),
                old(self).allocator.end as int,
            ) is Some,
            r is Ok ==> keeps(*old(self), *final(self)) && final(self).allocator.highest_used
                >= old(self).allocator.end && emitted(
                *old(self),
                *final(self),
                emit_set(*call, register_bindings(old(self).variables@), old(self).allocator.end as int),
                old(self).allocator.end + 1,
            ),
        decreases *call, 0nat,
    {
        let r = match call {
            Value::Cell(_, r) => &**r,
            _ => {
                return Err(fail(ErrorInternal::Value(value::Error::ExpectedType(Type::Cell, call.type_())), at));
            },
        };
        let (args, arg_maps) = match list_with_maps(r, rest_map(m)) {
            Ok(x) => x,
            Err(e) => {
                return Err(fail(ErrorInternal::Value(e), at));
            },
        };
        assert(value::spine(*r).len() == args@.len()) by {
            assert(args@.map_values(|x: &Value| *x).len() == args@.len());
        }
        if args.len() < 2 {
            return Err(fail(ErrorInternal::Type(types::Error::NotEnoughArguments { expected: 2, actual: args.len() }), at));
        }
        proof {
            lemma_tail_step(*r, 0);
            lemma_tail_step(*r, 1);
            assert(tail(*r, 0) == *r);
            assert(*args@[0] == args@.map_values(|x: &Value| *x)[0]);
            assert(*args@[1] == args@.map_values(|x: &Value| *x)[1]);
        }
        let name = match args[0].try_as_identifier() {
            Ok(n) => n,
            Err(e) => {
                return Err(fail(ErrorInternal::Value(e), at));
            },
        };
        let reg = self.allocator.current();
        if reg >= 256 {
            return Err(fail(ErrorInternal::TooManyRegisters, at));
        }
        proof {
            assert(value::spine(*call)[2] == value::spine(*r)[1]);
            lemma_spine_smaller(*call, 2);
        }
        let value_at = position_of(arg_maps[1], at);
        match self.visit_expr(args[1], arg_maps[1], value_at) {
            Ok(()) => {},
            Err(e) => {
                return Err(e);
            },
        }
        if self.allocator.current() == reg {
            self.allocator.extend_to(reg as RegisterId);
        }
        let ghost prev = self.variables@;
        self.variables.push((name.clone(), reg as RegisterId));
        assert(register_bindings(self.variables@) =~= register_bindings(prev).push((name@, reg as RegisterId)));
        Ok(())
    }

    /// Emits `if cond {true block} {false block}`: the condition, a jump
    /// over the false block, the false block, a jump over the true block,
    /// the true block. The register range is restored afterwards.
    #[verifier::rlimit(100)]
    pub fn visit_if(&mut self, call: &Value, m: Option<&PositionMap>, at: Position) -> (r: Result<(), Error>)
        requires
            old(self).wf(),
            call is Cell,
        ensures
            r is Ok <==> emit_if(
                *call,
                register_bindings(old(self).variables@),
                old(self).allocator.end as int,
            ) is Some,
            r is Ok ==> keeps(*old(self), *final(self)) && final(self).allocator.highest_used
                >= old(self).allocator.end && emitted(
                *old(self),
                *final(self),
                emit_if(*call, register_bindings(old(self).variables@), old(self).allocator.end as int),
                old(self).allocator.end as int,
            ),
        decreases *call, 0nat,
    {
        let ghost b0 = register_bindings(self.variables@);
        let r = match call {
            Value::Cell(_, r) => &**r,
            _ => {
                return Err(fail(ErrorInternal::Value(value::Error::ExpectedType(Type::Cell, call.type_())), at));
            },
        };
        let (args, arg_maps) = match list_with_maps(r, rest_map(m)) {
            Ok(x) => x,
            Err(e) => {
                return Err(fail(ErrorInternal::Value(e), at));
            },
        };
        assert(value::spine(*r).len() == args@.len()) by {
            assert(args@.map_values(|x: &Value| *x).len() == args@.len());
        }
        if args.len() < 3 {
            return Err(fail(ErrorInternal::Type(types::Error::NotEnoughArguments { expected: 3, actual: args.len() }), at));
        }
        proof {
            assert forall|k: int| 0 <= k < 3 implies decreases_to!(*call => *args@[k]) by {
                assert(*args@[k] == args@.map_values(|x: &Value| *x)[k]);
                assert(value::spine(*call)[k + 1] == value::spine(*r)[k]);
                lemma_spine_smaller(*call, k + 1);
            }
            lemma_tail_step(*r, 0);
            lemma_tail_step(*r, 1);
            lemma_tail_step(*r, 2);
            assert(tail(*r, 0) == *r);
            assert(*args@[0] == args@.map_values(|x: &Value| *x)[0]);
            assert(*args@[1] == args@.map_values(|x: &Value| *x)[1]);
            assert(*args@[2] == args@.map_values(|x: &Value| *x)[2]);
        }
        let cond = self.allocator.current();
        if cond >= 256 {
            return Err(fail(ErrorInternal::TooManyRegisters, at));
        }
        self.allocator.push_range();
        let ghost before = *self;
        let cond_at = position_of(arg_maps[0], at);
        match self.visit_expr(args[0], arg_maps[0], cond_at) {
            Ok(()) => {},
            Err(e) => {
                return Err(e);
            },
        }
        let ghost out1 = self.output@;
        let ghost h1 = self.allocator.highest_used as int;
        let ghost v1 = register_bindings(self.variables@);

        let mut held = RegisterAllocator::new();
        std::mem::swap(&mut self.allocator, &mut held);
        let mut block = CompilerVisitor::new(held, copy_registers(&self.variables));
        match block.visit_program(args[1], arg_maps[1], at) {
            Ok(()) => {},
            Err(e) => {
                return Err(e);
            },
        }
        let true_output = block.output;
        self.allocator = block.allocator;
        let ghost h2 = self.allocator.highest_used as int;

        let mut held = RegisterAllocator::new();
        std::mem::swap(&mut self.allocator, &mut held);
        let mut block = CompilerVisitor::new(held, copy_registers(&self.variables));
        match block.visit_program(args[2], arg_maps[2], at) {
            Ok(()) => {},
            Err(e) => {
                return Err(e);
            },
        }
        let false_output = block.output;
        self.allocator = block.allocator;
        let ghost h3 = self.allocator.highest_used as int;

        if false_output.len() > 2147483645 || true_output.len() > 2147483647 {
            return Err(fail(ErrorInternal::ProgramTooLarge, at));
        }
        let always = match self.allocator.allocate() {
            Some(a) => a,
            None => {
                return Err(fail(ErrorInternal::TooManyRegisters, at));
            },
        };
        let j1 = Instruction::JumpIf { cond: cond as RegisterId, distance: false_output.len() as PcOffset + 2 };
        let l = Instruction::LoadImmediate { dest: always, value: Value::Boolean(true) };
        let j2 = Instruction::JumpIf { cond: always, distance: true_output.len() as PcOffset };
        let ghost t = true_output@;
        let ghost f = false_output@;
        let ghost (gj1, gl, gj2) = (j1, l, j2);
        proof {
            let h4 = self.allocator.highest_used as int;
            assert(bounded(seq![gj1, gl, gj2], h4)) by {
                assert(seq![gj1, gl, gj2][0] == gj1);
                assert(seq![gj1, gl, gj2][1] == gl);
                assert(seq![gj1, gl, gj2][2] == gj2);
            }
            lemma_if_layout(out1, t, f, gj1, gl, gj2, self.floor@, h1, h2, h3, h4);
            assert(t =~= Seq::<Instruction>::empty() + t);
            assert(f =~= Seq::<Instruction>::empty() + f);
        }
        self.output.push(j1);
        self.extend(false_output);
        self.output.push(l);
        self.output.push(j2);
        self.extend(true_output);
        assert(self.output@ =~= out1 + seq![gj1] + f + seq![gl, gj2] + t);
        self.allocator.pop_range();
        assert(self.allocator.stack@ =~= old(self).allocator.stack@);
        proof {
            let cc = emit_expr(*args@[0], b0, cond as int)->Some_0.0;
            assert(out1 =~= old(self).output@ + cc);
            assert(self.output@ =~= old(self).output@ + (cc + seq![gj1] + f + seq![gl, gj2] + t));
        }
        Ok(())
    }
}

/// The program's instructions, after type checking it: `alloc N`, then the
/// code of each statement. `N` is one more than the largest register that
/// any later instruction names.
pub open spec fn watermark_ok(prog: Seq<Instruction>) -> bool {
    &&& prog.len() >= 1
    &&& prog[0] is AllocRegisters
    &&& forall|i: int|
        1 <= i < prog.len() ==> max_register(#[trigger] prog[i]) < prog[0]->AllocRegisters_count
            && !(prog[i] is AllocRegisters)
    &&& prog.len() > 1 ==> exists|i: int|
        1 <= i < prog.len() && max_register(#[trigger] prog[i]) == prog[0]->AllocRegisters_count
            - 1
}

/// Compiles a parsed program: a list of statements, each a call. It
/// succeeds exactly when the program type checks and can be lowered (its
/// registers and jumps fit the instructions); the result is `alloc N`
/// followed by the lowered code. When it does not type check, the error is
/// the type checker's (`fault_program`). A program with a call, anywhere in it,
/// whose number of arguments its built-in's signature does not allow does
/// not compile.
pub fn compile(program: &Value, positions: &PositionMap) -> (r: Result<Vec<Instruction>, Error>)
    ensures
        r is Ok ==> watermark_ok(r->Ok_0@) && program_fits(*program),
        r is Ok <==> check_program(*program, Seq::empty()) is Some && emit_program(
            *program,
            Seq::empty(),
            0,
        ) is Some,
        r is Ok ==> r->Ok_0@.drop_first() == emit_program(*program, Seq::empty(), 0)->Some_0.0,
        check_program(*program, Seq::empty()) is None ==> (r matches Err(e) && compile_fault(e.error)
            == fault_program(*program, Seq::empty())),
{
    let mut checker = TypeCheckVisitor::new();
    assert(type_bindings(checker.variables@) =~= Seq::<(Seq<char>, Type)>::empty());
    match checker.visit_program(program, Some(positions), (1, 1)) {
        Ok(()) => {},
        Err(e) => {
            return Err(e);
        },
    }
    let mut visitor = CompilerVisitor::new(RegisterAllocator::new(), Vec::new());
    assert(register_bindings(visitor.variables@) =~= Seq::<(Seq<char>, RegisterId)>::empty());
    assert(visitor.output@ =~= Seq::<Instruction>::empty());
    match visitor.visit_program(program, Some(positions), (1, 1)) {
        Ok(()) => {},
        Err(e) => {
            return Err(e);
        },
    }
    let h = visitor.allocator.highest_used;
    let count = h as RegisterOffset + 1;
    let mut output = visitor.output;
    let ghost body = output@;
    proof {
        if body.len() > 0 && h == 0 {
            assert(max_register(body[0]) == 0);
        }
    }
    output.insert(0, Instruction::AllocRegisters { count });
    proof {
        assert(output@ =~= seq![Instruction::AllocRegisters { count }] + body);
        assert(output@.drop_first() =~= body);
        assert(body =~= Seq::<Instruction>::empty() + body);
        assert forall|i: int| 1 <= i < output@.len() implies max_register(#[trigger] output@[i]) < count
            && !(output@[i] is AllocRegisters) by {
            assert(output@[i] == body[i - 1]);
        }
        if output@.len() > 1 {
            let j = choose|j: int| 0 <= j < body.len() && max_register(#[trigger] body[j]) == h;
            assert(output@[j + 1] == body[j]);
        }
    }
    Ok(output)
}


/// The message of a compile error.
pub open spec fn compile_error_text(e: ErrorInternal) -> Seq<char> {
    match e {
        ErrorInternal::Value(v) => "invalid value in program: "@ + value::value_error_text(v),
        ErrorInternal::Type(t) => "type error: "@ + types::error_text(t),
        ErrorInternal::UnknownInternalFunction(name) => "unknown internal function: "@ + name@,
        ErrorInternal::TooManyRegisters => "too many registers"@,
        ErrorInternal::ProgramTooLarge => "program too large"@,
    }
}

impl Error {
    /// The error as a diagnostic: `<message> (at line L, column C)`.
    pub fn describe(&self) -> (r: String)
        ensures
            r@ == compile_error_text(self.error) + line_column_text(self.line, self.column),
    {
        let mut out = String::new();
        match &self.error {
            ErrorInternal::Value(v) => {
                push_text(&mut out, "invalid value in program: ");
                v.write_message(&mut out);
            },
            ErrorInternal::Type(t) => {
                push_text(&mut out, "type error: ");
                t.write_message(&mut out);
            },
            ErrorInternal::UnknownInternalFunction(name) => {
                push_text(&mut out, "unknown internal function: ");
                push_text(&mut out, name.as_str());
            },
            ErrorInternal::TooManyRegisters => push_text(&mut out, "too many registers"),
            ErrorInternal::ProgramTooLarge => push_text(&mut out, "program too large"),
        }
        assert(out@ =~= compile_error_text(self.error));
        write_line_column(&mut out, self.line, self.column);
        out
    }
}

} // verus!
