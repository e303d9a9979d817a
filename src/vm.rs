//! The register virtual machine.

use vstd::prelude::*;

use crate::builtins::{builtin_named, lookup, BuiltinOp};
use crate::code::{grown_len, window, Instruction, Pc, PcOffset, RegisterId, RegisterOffset, Registers};
use crate::text::{hex_text, nat_text, push_char, push_count, push_hex, push_text};
use crate::types::Type;
use crate::value::{self, display_of, type_tag, Identifier, Value};

verus! {

#[derive(Debug)]
pub enum ErrorInternal {
    UnknownInternalFunction(Identifier),
    Runtime(value::Error),
    InvalidRegister(RegisterId),
    IntegerOverflow,
    StepLimit,
}

/// A machine error, with the program counter of the failing instruction.
#[derive(Debug)]
pub struct VmError {
    pub error: ErrorInternal,
    pub pc: Pc,
}

pub type Error = VmError;

/// What the machine's state means: the register file, the window offset
/// and the saved offsets, and the debug output written so far.
pub struct MachineView {
    pub values: Seq<Value>,
    pub offset: int,
    pub stack: Seq<usize>,
    pub output: Seq<char>,
}

/// How many arguments a call of `n` arguments sees when `available`
/// registers lie in its window: all of them if `n` is negative or too large.
pub open spec fn arg_count(n: RegisterOffset, available: int) -> int {
    if n < 0 || n > available {
        available
    } else {
        n as int
    }
}

/// The argument registers of a call of `n` arguments through a window at `offset`.
pub open spec fn args_of(values: Seq<Value>, offset: int, n: RegisterOffset) -> Seq<Value> {
    let w = window(values, offset);
    w.take(arg_count(n, w.len() as int))
}

/// The integers held by `args`, or the error for the first that holds none.
pub open spec fn ints_of(args: Seq<Value>) -> Result<Seq<i64>, value::Error>
    decreases args.len(),
{
    if args.len() == 0 {
        Ok(Seq::empty())
    } else {
        match ints_of(args.drop_last()) {
            Err(e) => Err(e),
            Ok(xs) => match args.last() {
                Value::Integer(i) => Ok(xs.push(i)),
                other => Err(value::Error::ExpectedType(Type::Integer, type_tag(other))),
            },
        }
    }
}

pub open spec fn fits_i64(x: int) -> bool {
    i64::MIN <= x <= i64::MAX
}

/// The sum of `xs`, added from the left, if no partial sum leaves `i64`.
pub open spec fn sum_of(xs: Seq<i64>) -> Option<int>
    decreases xs.len(),
{
    if xs.len() == 0 {
        Some(0)
    } else {
        match sum_of(xs.drop_last()) {
            None => None,
            Some(a) => if fits_i64(a + xs.last()) {
                Some(a + xs.last())
            } else {
                None
            },
        }
    }
}

/// The first of `xs` minus each of the others in turn (0 when empty), if
/// no partial difference leaves `i64`.
pub open spec fn difference_of(xs: Seq<i64>) -> Option<int>
    decreases xs.len(),
{
    if xs.len() == 0 {
        Some(0)
    } else if xs.len() == 1 {
        Some(xs[0] as int)
    } else {
        match difference_of(xs.drop_last()) {
            None => None,
            Some(a) => if fits_i64(a - xs.last()) {
                Some(a - xs.last())
            } else {
                None
            },
        }
    }
}

/// The display texts of `args`, separated by single spaces.
pub open spec fn joined(args: Seq<Value>) -> Seq<char>
    decreases args.len(),
{
    if args.len() == 0 {
        Seq::empty()
    } else if args.len() == 1 {
        display_of(args[0])
    } else {
        joined(args.drop_last()) + seq![' '] + display_of(args.last())
    }
}

/// What a built-in computes through a window at `offset`: the value for
/// the window's register 0 and the new debug output.
pub open spec fn builtin_outcome(
    op: BuiltinOp,
    values: Seq<Value>,
    offset: int,
    output: Seq<char>,
    n: RegisterOffset,
) -> Result<(Value, Seq<char>), ErrorInternal> {
    let args = args_of(values, offset, n);
    match op {
        BuiltinOp::Add => match ints_of(args) {
            Err(e) => Err(ErrorInternal::Runtime(e)),
            Ok(xs) => match sum_of(xs) {
                None => Err(ErrorInternal::IntegerOverflow),
                Some(t) => Ok((Value::Integer(t as i64), output)),
            },
        },
        BuiltinOp::Subtract => match ints_of(args) {
            Err(e) => Err(ErrorInternal::Runtime(e)),
            Ok(xs) => match difference_of(xs) {
                None => Err(ErrorInternal::IntegerOverflow),
                Some(t) => Ok((Value::Integer(t as i64), output)),
            },
        },
        BuiltinOp::Less => if offset >= values.len() {
            Err(ErrorInternal::InvalidRegister(0))
        } else if offset + 1 >= values.len() {
            Err(ErrorInternal::InvalidRegister(1))
        } else {
            match (values[offset], values[offset + 1]) {
                (Value::Integer(a), Value::Integer(b)) => Ok((Value::Boolean(a < b), output)),
                (Value::Integer(_), other) => Err(
                    ErrorInternal::Runtime(
                        value::Error::ExpectedType(Type::Integer, type_tag(other)),
                    ),
                ),
                (other, _) => Err(
                    ErrorInternal::Runtime(
                        value::Error::ExpectedType(Type::Integer, type_tag(other)),
                    ),
                ),
            }
        },
        _ => Ok((Value::Nil, output + joined(args) + seq!['\n'])),
    }
}

/// Where a taken jump of `distance` at `pc` leads: past the end of a
/// program of `len` instructions if it leaves the program.
pub open spec fn jump_target(pc: int, distance: PcOffset, len: int) -> int {
    let t = pc + 1 + distance;
    if 0 <= t <= len {
        t
    } else {
        len
    }
}

/// One instruction at `pc`: the new machine and the next program counter.
pub open spec fn step_of(m: MachineView, prog: Seq<Instruction>, pc: int) -> Result<
    (MachineView, int),
    ErrorInternal,
> {
    let valid = |r: RegisterId| m.offset + r < m.values.len();
    match prog[pc] {
        Instruction::AllocRegisters { count } => Ok(
            (
                MachineView {
                    values: Seq::new(
                        grown_len(m.values.len() as int, count as int) as nat,
                        |i: int|
                            if i < m.values.len() {
                                m.values[i]
                            } else {
                                Value::Nil
                            },
                    ),
                    ..m
                },
                pc + 1,
            ),
        ),
        Instruction::LoadImmediate { dest, value } => if valid(dest) {
            Ok((MachineView { values: m.values.update(m.offset + dest, value), ..m }, pc + 1))
        } else {
            Err(ErrorInternal::InvalidRegister(dest))
        },
        Instruction::Copy { dest, src } => if !valid(src) {
            Err(ErrorInternal::InvalidRegister(src))
        } else if !valid(dest) {
            Err(ErrorInternal::InvalidRegister(dest))
        } else {
            Ok(
                (
                    MachineView {
                        values: m.values.update(m.offset + dest, m.values[m.offset + src]),
                        ..m
                    },
                    pc + 1,
                ),
            )
        },
        Instruction::CallInternal { ident, base, num_args } => match builtin_named(ident@) {
            Some(op) => if op == BuiltinOp::If || op == BuiltinOp::SetVariable {
                Err(ErrorInternal::UnknownInternalFunction(ident))
            } else {
                match builtin_outcome(op, m.values, base as int, m.output, num_args) {
                    Err(e) => Err(e),
                    Ok((v, out)) => if base < m.values.len() {
                        Ok(
                            (
                                MachineView {
                                    values: m.values.update(base as int, v),
                                    output: out,
                                    ..m
                                },
                                pc + 1,
                            ),
                        )
                    } else {
                        Err(ErrorInternal::InvalidRegister(0))
                    },
                }
            },
            None => Err(ErrorInternal::UnknownInternalFunction(ident)),
        },
        Instruction::JumpIf { cond, distance } => if !valid(cond) {
            Err(ErrorInternal::InvalidRegister(cond))
        } else if m.values[m.offset + cond] == Value::Boolean(true) {
            Ok((m, jump_target(pc, distance, prog.len() as int)))
        } else {
            Ok((m, pc + 1))
        },
    }
}

/// Running from `pc` for at most `fuel` steps: the final machine, and the
/// error with the program counter where it happened, if any.
pub open spec fn run_of(m: MachineView, prog: Seq<Instruction>, pc: int, fuel: nat) -> (
    MachineView,
    Option<(ErrorInternal, int)>,
)
    decreases fuel,
{
    if pc < 0 || pc >= prog.len() {
        (m, None)
    } else if fuel == 0 {
        (m, Some((ErrorInternal::StepLimit, pc)))
    } else {
        match step_of(m, prog, pc) {
            Err(e) => (m, Some((e, pc))),
            Ok((m2, pc2)) => run_of(m2, prog, pc2, (fuel - 1) as nat),
        }
    }
}

/// A call that succeeds restores the window: the offset and the saved
/// offsets are as before, register `base` of the file holds what the
/// built-in computed, and every other register is unchanged.
pub proof fn lemma_call_window(m: MachineView, prog: Seq<Instruction>, pc: int, m2: MachineView, next: int)
    requires
        0 <= pc < prog.len(),
        prog[pc] is CallInternal,
        step_of(m, prog, pc) == Ok::<(MachineView, int), ErrorInternal>((m2, next)),
    ensures
        next == pc + 1,
        m2.offset == m.offset,
        m2.stack == m.stack,
        m2.values.len() == m.values.len(),
        ({
            let base = prog[pc]->CallInternal_base as int;
            let op = builtin_named(prog[pc]->CallInternal_ident@)->Some_0;
            &&& builtin_outcome(op, m.values, base, m.output, prog[pc]->CallInternal_num_args)
                == Ok::<(Value, Seq<char>), ErrorInternal>((m2.values[base], m2.output))
            &&& forall|j: int| 0 <= j < m.values.len() && j != base ==> m2.values[j] == m.values[j]
        }),
{
}

/// The code for `if` is `jump_if c (F + 2)`, the false block of `F`
/// instructions, `load a true`, `jump_if a T`, and the true block of `T`
/// instructions. When register `c` holds `true` the first jump lands on the
/// first instruction of the true block, past the false block; otherwise
/// execution enters the false block, and from its end the load and the
/// second jump land just past the true block. So exactly one block runs,
/// and both ways continue at `pc + F + T + 3`.
pub proof fn lemma_branch_neutral(
    m: MachineView,
    after_false: MachineView,
    prog: Seq<Instruction>,
    pc: int,
    c: RegisterId,
    a: RegisterId,
    f: int,
    t: int,
)
    requires
        0 <= pc,
        0 <= f,
        0 <= t,
        pc + f + t + 3 <= prog.len(),
        prog[pc] == (Instruction::JumpIf { cond: c, distance: (f + 2) as PcOffset }),
        f + 2 <= i32::MAX,
        t <= i32::MAX,
        prog[pc + f + 1] == (Instruction::LoadImmediate { dest: a, value: Value::Boolean(true) }),
        prog[pc + f + 2] == (Instruction::JumpIf { cond: a, distance: t as PcOffset }),
        0 <= m.offset,
        m.offset + c < m.values.len(),
        0 <= after_false.offset,
        after_false.offset + a < after_false.values.len(),
    ensures
        m.values[m.offset + c] == Value::Boolean(true) ==> step_of(m, prog, pc) == Ok::<
            (MachineView, int),
            ErrorInternal,
        >((m, pc + f + 3)),
        m.values[m.offset + c] != Value::Boolean(true) ==> step_of(m, prog, pc) == Ok::<
            (MachineView, int),
            ErrorInternal,
        >((m, pc + 1)),
        ({
            let loaded = MachineView {
                values: after_false.values.update(after_false.offset + a, Value::Boolean(true)),
                ..after_false
            };
            &&& step_of(after_false, prog, pc + f + 1) == Ok::<(MachineView, int), ErrorInternal>(
                (loaded, pc + f + 2),
            )
            &&& step_of(loaded, prog, pc + f + 2) == Ok::<(MachineView, int), ErrorInternal>(
                (loaded, pc + f + t + 3),
            )
        }),
{
    let loaded = MachineView {
        values: after_false.values.update(after_false.offset + a, Value::Boolean(true)),
        ..after_false
    };
    assert(loaded.values[loaded.offset + a] == Value::Boolean(true));
    assert(jump_target(pc + f + 2, t as PcOffset, prog.len() as int) == pc + f + t + 3);
    assert(jump_target(pc, (f + 2) as PcOffset, prog.len() as int) == pc + f + 3);
}

/// The virtual machine: a program, a register file and a debug output.
pub struct Vm {
    pub instructions: Vec<Instruction>,
    pub registers: Registers,
    pub debug_output: String,
}

impl Vm {
    pub open spec fn view(&self) -> MachineView {
        MachineView {
            values: self.registers.values@,
            offset: self.registers.offset as int,
            stack: self.registers.offset_stack@,
            output: self.debug_output@,
        }
    }

    pub fn new() -> (r: Self)
        ensures
            r.instructions@.len() == 0,
            r.view().values.len() == 0,
            r.view().offset == 0,
            r.view().stack.len() == 0,
            r.view().output.len() == 0,
    {
        Vm { instructions: Vec::new(), registers: Registers::new(), debug_output: String::new() }
    }

    /// Installs a program.
    pub fn load(&mut self, instructions: Vec<Instruction>)
        ensures
            final(self).instructions == instructions,
            final(self).view() == old(self).view(),
    {
        self.instructions = instructions;
    }

    /// The debug output written so far.
    pub fn output(&self) -> (r: &String)
        ensures
            r@ == self.debug_output@,
    {
        &self.debug_output
    }

    pub fn into_registers(self) -> (r: Vec<Value>)
        ensures
            r@ == self.registers.values@,
    {
        self.registers.into_values()
    }
}

/// The number of argument registers a call of `num_args` sees.
fn window_count(regs: &Registers, num_args: RegisterOffset) -> (r: usize)
    ensures
        r == args_of(regs.values@, regs.offset as int, num_args).len(),
        r as int == arg_count(num_args, window(regs.values@, regs.offset as int).len() as int),
        r > 0 ==> regs.offset + r <= regs.values@.len(),
{
    let available: usize = if regs.offset <= regs.values.len() {
        regs.values.len() - regs.offset
    } else {
        0
    };
    if num_args < 0 || (num_args as usize) > available {
        available
    } else {
        num_args as usize
    }
}

/// The integers in the argument registers of a call of `num_args`.
fn iter_as_integers(registers: &Registers, num_args: RegisterOffset) -> (r: Result<Vec<i64>, value::Error>)
    ensures
        match ints_of(args_of(registers.values@, registers.offset as int, num_args)) {
            Ok(xs) => r is Ok && r->Ok_0@ == xs,
            Err(e) => r == Err::<Vec<i64>, value::Error>(e),
        },
{
    let ghost args = args_of(registers.values@, registers.offset as int, num_args);
    let count = window_count(registers, num_args);
    let mut xs: Vec<i64> = Vec::new();
    let mut k: usize = 0;
    while k < count
        invariant
            k <= count,
            count == args.len(),
            count > 0 ==> registers.offset + count <= registers.values@.len(),
            args == args_of(registers.values@, registers.offset as int, num_args),
            ints_of(args.take(k as int)) == Ok::<Seq<i64>, value::Error>(xs@),
        decreases count - k,
    {
        assert(args.take(k as int + 1).drop_last() =~= args.take(k as int));
        assert(args[k as int] == registers.values@[registers.offset + k]);
        let _len = registers.values.len();
        let idx: usize = registers.offset + k;
        match registers.values[idx].try_as_integer() {
            Ok(i) => {
                xs.push(i);
            },
            Err(e) => {
                proof {
                    lemma_ints_error_sticks(args, k as int + 1);
                }
                return Err(e);
            },
        }
        k = k + 1;
    }
    assert(args.take(k as int) =~= args);
    Ok(xs)
}

proof fn lemma_ints_error_sticks(args: Seq<Value>, n: int)
    requires
        0 <= n <= args.len(),
        ints_of(args.take(n)) is Err,
    ensures
        ints_of(args) == ints_of(args.take(n)),
    decreases args.len() - n,
{
    if n < args.len() {
        assert(args.take(n + 1).drop_last() =~= args.take(n));
        lemma_ints_error_sticks(args, n + 1);
    } else {
        assert(args.take(n) =~= args);
    }
}

proof fn lemma_sum_none_sticks(xs: Seq<i64>, n: int)
    requires
        0 <= n <= xs.len(),
        sum_of(xs.take(n)) is None,
    ensures
        sum_of(xs) is None,
    decreases xs.len() - n,
{
    if n < xs.len() {
        assert(xs.take(n + 1).drop_last() =~= xs.take(n));
        lemma_sum_none_sticks(xs, n + 1);
    } else {
        assert(xs.take(n) =~= xs);
    }
}

proof fn lemma_difference_none_sticks(xs: Seq<i64>, n: int)
    requires
        1 <= n <= xs.len(),
        difference_of(xs.take(n)) is None,
    ensures
        difference_of(xs) is None,
    decreases xs.len() - n,
{
    if n < xs.len() {
        assert(xs.take(n + 1).drop_last() =~= xs.take(n));
        lemma_difference_none_sticks(xs, n + 1);
    } else {
        assert(xs.take(n) =~= xs);
    }
}

fn sum(xs: &Vec<i64>) -> (r: Option<i64>)
    ensures
        match sum_of(xs@) {
            Some(t) => r == Some(t as i64),
            None => r is None,
        },
{
    let mut acc: i64 = 0;
    let mut k: usize = 0;
    while k < xs.len()
        invariant
            k <= xs@.len(),
            sum_of(xs@.take(k as int)) == Some(acc as int),
        decreases xs@.len() - k,
    {
        assert(xs@.take(k as int + 1).drop_last() =~= xs@.take(k as int));
        let t: i128 = acc as i128 + xs[k] as i128;
        if t < i64::MIN as i128 || t > i64::MAX as i128 {
            proof {
                lemma_sum_none_sticks(xs@, k as int + 1);
            }
            return None;
        }
        acc = t as i64;
        k = k + 1;
    }
    assert(xs@.take(k as int) =~= xs@);
    Some(acc)
}

fn difference(xs: &Vec<i64>) -> (r: Option<i64>)
    ensures
        match difference_of(xs@) {
            Some(t) => r == Some(t as i64),
            None => r is None,
        },
{
    if xs.len() == 0 {
        return Some(0);
    }
    let mut acc: i64 = xs[0];
    let mut k: usize = 1;
    assert(xs@.take(1) =~= seq![xs@[0]]);
    while k < xs.len()
        invariant
            1 <= k <= xs@.len(),
            difference_of(xs@.take(k as int)) == Some(acc as int),
        decreases xs@.len() - k,
    {
        assert(xs@.take(k as int + 1).drop_last() =~= xs@.take(k as int));
        let t: i128 = acc as i128 - xs[k] as i128;
        if t < i64::MIN as i128 || t > i64::MAX as i128 {
            proof {
                lemma_difference_none_sticks(xs@, k as int + 1);
            }
            return None;
        }
        acc = t as i64;
        k = k + 1;
    }
    assert(xs@.take(k as int) =~= xs@);
    Some(acc)
}

/// The text `debug` writes for the argument registers of a call.
fn debug_text(registers: &Registers, num_args: RegisterOffset) -> (r: String)
    ensures
        r@ == joined(args_of(registers.values@, registers.offset as int, num_args)) + seq!['\n'],
{
    let ghost args = args_of(registers.values@, registers.offset as int, num_args);
    let count = window_count(registers, num_args);
    let mut out = String::new();
    let mut k: usize = 0;
    while k < count
        invariant
            k <= count,
            count == args.len(),
            count > 0 ==> registers.offset + count <= registers.values@.len(),
            args == args_of(registers.values@, registers.offset as int, num_args),
            out@ == joined(args.take(k as int)),
        decreases count - k,
    {
        assert(args.take(k as int + 1).drop_last() =~= args.take(k as int));
        assert(args[k as int] == registers.values@[registers.offset + k]);
        if k > 0 {
            push_char(&mut out, ' ');
        }
        let _len = registers.values.len();
        let idx: usize = registers.offset + k;
        registers.values[idx].write_display(&mut out);
        k = k + 1;
        proof {
            if k == 1 {
                assert(args.take(1) =~= seq![args[0]]);
                assert(out@ =~= joined(args.take(k as int)));
            } else {
                assert(out@ =~= joined(args.take(k as int)));
            }
        }
    }
    assert(args.take(k as int) =~= args);
    push_char(&mut out, '\n');
    out
}

impl Vm {
    /// Runs built-in `op` with the window already at its base.
    fn run_builtin(&mut self, op: BuiltinOp, num_args: RegisterOffset) -> (r: Result<(), ErrorInternal>)
        requires
            op != BuiltinOp::If && op != BuiltinOp::SetVariable,
        ensures
            final(self).instructions == old(self).instructions,
            final(self).registers.offset == old(self).registers.offset,
            final(self).registers.offset_stack == old(self).registers.offset_stack,
            r is Err ==> final(self).registers.values@ == old(self).registers.values@
                && final(self).debug_output@ == old(self).debug_output@,
            match builtin_outcome(
                op,
                old(self).registers.values@,
                old(self).registers.offset as int,
                old(self).debug_output@,
                num_args,
            ) {
                Err(e) => r == Err::<(), ErrorInternal>(e),
                Ok((v, out)) => if old(self).registers.offset < old(self).registers.values@.len() {
                    r is Ok && final(self).registers.values@ == old(self).registers.values@.update(
                        old(self).registers.offset as int,
                        v,
                    ) && final(self).debug_output@ == out
                } else {
                    r == Err::<(), ErrorInternal>(ErrorInternal::InvalidRegister(0))
                },
            },
    {
        let result: Value = match op {
            BuiltinOp::Add | BuiltinOp::Subtract => {
                let xs = match iter_as_integers(&self.registers, num_args) {
                    Ok(xs) => xs,
                    Err(e) => {
                        return Err(ErrorInternal::Runtime(e));
                    },
                };
                let t = if op == BuiltinOp::Add {
                    sum(&xs)
                } else {
                    difference(&xs)
                };
                match t {
                    Some(t) => Value::Integer(t),
                    None => {
                        return Err(ErrorInternal::IntegerOverflow);
                    },
                }
            },
            BuiltinOp::Less => {
                let a = match self.registers.get(0) {
                    Some(v) => v,
                    None => {
                        return Err(ErrorInternal::InvalidRegister(0));
                    },
                };
                let b = match self.registers.get(1) {
                    Some(v) => v,
                    None => {
                        return Err(ErrorInternal::InvalidRegister(1));
                    },
                };
                let x = match a.try_as_integer() {
                    Ok(x) => x,
                    Err(e) => {
                        return Err(ErrorInternal::Runtime(e));
                    },
                };
                let y = match b.try_as_integer() {
                    Ok(y) => y,
                    Err(e) => {
                        return Err(ErrorInternal::Runtime(e));
                    },
                };
                Value::Boolean(x < y)
            },
            _ => {
                if self.registers.get(0).is_none() {
                    return Err(ErrorInternal::InvalidRegister(0));
                }
                let text = debug_text(&self.registers, num_args);
                push_text(&mut self.debug_output, text.as_str());
                Value::Nil
            },
        };
        if self.registers.set(0, result) {
            Ok(())
        } else {
            Err(ErrorInternal::InvalidRegister(0))
        }
    }

    /// Calls built-in `ident` through a window at `base`.
    fn call_internal(&mut self, ident: &Identifier, base: RegisterId, num_args: RegisterOffset) -> (r: Result<(), ErrorInternal>)
        ensures
            final(self).instructions == old(self).instructions,
            r is Err ==> final(self).view() == old(self).view(),
            match step_of(
                old(self).view(),
                seq![Instruction::CallInternal { ident: *ident, base, num_args }],
                0,
            ) {
                Ok((m, _)) => r is Ok && final(self).view() == m,
                Err(e) => r == Err::<(), ErrorInternal>(e),
            },
    {
        let op = match lookup(ident.as_str()) {
            Some(op) => op,
            None => {
                return Err(ErrorInternal::UnknownInternalFunction(ident.clone()));
            },
        };
        if op == BuiltinOp::If || op == BuiltinOp::SetVariable {
            return Err(ErrorInternal::UnknownInternalFunction(ident.clone()));
        }
        let ghost before = self.registers.offset_stack@;
        self.registers.push_window_starting(base);
        let r = self.run_builtin(op, num_args);
        self.registers.pop_window();
        assert(self.registers.offset_stack@ =~= before);
        assert(r is Err ==> self.view() =~= old(self).view());
        r
    }

    /// Executes the instruction at `pc`; returns the next program counter.
    pub fn step(&mut self, pc: Pc) -> (r: Result<Pc, ErrorInternal>)
        requires
            pc < old(self).instructions@.len(),
        ensures
            final(self).instructions == old(self).instructions,
            r is Err ==> final(self).view() == old(self).view(),
            match step_of(old(self).view(), old(self).instructions@, pc as int) {
                Ok((m, next)) => r == Ok::<Pc, ErrorInternal>(next as Pc) && final(self).view() == m,
                Err(e) => r == Err::<Pc, ErrorInternal>(e),
            },
    {
        let ghost m0 = self.view();
        let len = self.instructions.len();
        match &self.instructions[pc] {
            Instruction::AllocRegisters { count } => {
                let c = *count;
                self.registers.allocate(c);
                assert(self.view().values =~= step_of(m0, self.instructions@, pc as int)->Ok_0.0.values);
                Ok(pc + 1)
            },
            Instruction::LoadImmediate { dest, value } => {
                let d = *dest;
                let v = value.duplicate();
                if self.registers.set(d, v) {
                    Ok(pc + 1)
                } else {
                    Err(ErrorInternal::InvalidRegister(d))
                }
            },
            Instruction::Copy { dest, src } => {
                let d = *dest;
                let s = *src;
                let v = match self.registers.get(s) {
                    Some(v) => v.duplicate(),
                    None => {
                        return Err(ErrorInternal::InvalidRegister(s));
                    },
                };
                if self.registers.set(d, v) {
                    Ok(pc + 1)
                } else {
                    Err(ErrorInternal::InvalidRegister(d))
                }
            },
            Instruction::CallInternal { ident, base, num_args } => {
                let ident = ident.clone();
                let b = *base;
                let n = *num_args;
                match self.call_internal(&ident, b, n) {
                    Ok(()) => Ok(pc + 1),
                    Err(e) => Err(e),
                }
            },
            Instruction::JumpIf { cond, distance } => {
                let c = *cond;
                let d = *distance;
                let taken = match self.registers.get(c) {
                    Some(Value::Boolean(b)) => *b,
                    Some(_) => false,
                    None => {
                        return Err(ErrorInternal::InvalidRegister(c));
                    },
                };
                if taken {
                    let t: i128 = pc as i128 + 1 + d as i128;
                    if 0 <= t && t <= len as i128 {
                        Ok(t as usize)
                    } else {
                        Ok(len)
                    }
                } else {
                    Ok(pc + 1)
                }
            },
        }
    }

    /// Runs the program from the start for at most `max_steps` steps.
    pub fn run_for(&mut self, max_steps: u64) -> (r: Result<(), VmError>)
        ensures
            final(self).instructions@ == old(self).instructions@,
            ({
                let (m, outcome) = run_of(old(self).view(), old(self).instructions@, 0, max_steps as nat);
                &&& final(self).view() == m
                &&& match outcome {
                    None => r is Ok,
                    Some((e, at)) => r is Err && r->Err_0.error == e && r->Err_0.pc == at,
                }
            }),
    {
        let ghost prog = self.instructions@;
        let mut pc: usize = 0;
        let mut fuel: u64 = max_steps;
        while pc < self.instructions.len()
            invariant
                self.instructions@ == prog,
                prog == old(self).instructions@,
                run_of(self.view(), prog, pc as int, fuel as nat) == run_of(
                    old(self).view(),
                    prog,
                    0,
                    max_steps as nat,
                ),
            decreases fuel,
        {
            if fuel == 0 {
                return Err(VmError { error: ErrorInternal::StepLimit, pc });
            }
            match self.step(pc) {
                Ok(next) => {
                    pc = next;
                },
                Err(e) => {
                    return Err(VmError { error: e, pc });
                },
            }
            fuel = fuel - 1;
        }
        Ok(())
    }

    /// Runs the program from the start until it ends or fails.
    pub fn run(&mut self) -> (r: Result<(), VmError>)
        ensures
            final(self).instructions@ == old(self).instructions@,
            ({
                let (m, outcome) = run_of(old(self).view(), old(self).instructions@, 0, u64::MAX as nat);
                &&& final(self).view() == m
                &&& match outcome {
                    None => r is Ok,
                    Some((e, at)) => r is Err && r->Err_0.error == e && r->Err_0.pc == at,
                }
            }),
    {
        self.run_for(u64::MAX)
    }
}


/// The message of a machine error.
pub open spec fn vm_error_text(e: ErrorInternal) -> Seq<char> {
    match e {
        ErrorInternal::UnknownInternalFunction(name) => "unknown internal function: "@ + name@,
        ErrorInternal::Runtime(v) => value::value_error_text(v),
        ErrorInternal::InvalidRegister(r) => "invalid register "@ + nat_text(r as nat),
        ErrorInternal::IntegerOverflow => "integer overflow"@,
        ErrorInternal::StepLimit => "step limit reached"@,
    }
}

impl VmError {
    /// The error as a diagnostic: `<message> (at PC 0x<hex>)`.
    pub fn describe(&self) -> (r: String)
        ensures
            r@ == vm_error_text(self.error) + " (at PC 0x"@ + hex_text(self.pc as nat) + ")"@,
    {
        let mut out = String::new();
        match &self.error {
            ErrorInternal::UnknownInternalFunction(name) => {
                push_text(&mut out, "unknown internal function: ");
                push_text(&mut out, name.as_str());
            },
            ErrorInternal::Runtime(v) => v.write_message(&mut out),
            ErrorInternal::InvalidRegister(r) => {
                push_text(&mut out, "invalid register ");
                push_count(&mut out, *r as usize);
            },
            ErrorInternal::IntegerOverflow => push_text(&mut out, "integer overflow"),
            ErrorInternal::StepLimit => push_text(&mut out, "step limit reached"),
        }
        assert(out@ =~= vm_error_text(self.error));
        push_text(&mut out, " (at PC 0x");
        push_hex(&mut out, self.pc as u64);
        push_text(&mut out, ")");
        assert(out@ =~= vm_error_text(self.error) + " (at PC 0x"@ + hex_text(self.pc as nat) + ")"@);
        out
    }
}

} // verus!
