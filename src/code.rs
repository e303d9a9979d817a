//! The instruction set and the register file of the virtual machine.

use vstd::prelude::*;

use crate::text::{push_char, push_int, push_text};
use crate::value::{display_of, Identifier, Value};

verus! {

pub type RegisterId = u8;

pub type RegisterOffset = i16;

/// A signed jump distance, counted from the instruction after the jump.
pub type PcOffset = i32;

pub type Pc = usize;

#[derive(Debug)]
pub enum Instruction {
    /// Grow the register file by `count` registers (shrink if negative).
    AllocRegisters { count: RegisterOffset },
    /// Set register `dest` to `value`.
    LoadImmediate { dest: RegisterId, value: Value },
    /// Set register `dest` to a copy of register `src`.
    Copy { dest: RegisterId, src: RegisterId },
    /// Call built-in `ident` on the window of `num_args` registers from `base`.
    CallInternal { ident: Identifier, base: RegisterId, num_args: RegisterOffset },
    /// If register `cond` holds `true`, skip `distance` instructions.
    JumpIf { cond: RegisterId, distance: PcOffset },
}

/// The largest register an instruction names (0 for `alloc`); for a call,
/// the last of its argument registers `base .. base + num_args - 1`, or its
/// base when it has at most one argument.
pub open spec fn max_register(i: Instruction) -> int {
    match i {
        Instruction::AllocRegisters { .. } => 0,
        Instruction::LoadImmediate { dest, .. } => dest as int,
        Instruction::Copy { dest, src } => if dest >= src {
            dest as int
        } else {
            src as int
        },
        Instruction::CallInternal { base, num_args, .. } => if num_args > 1 {
            base as int + num_args as int - 1
        } else {
            base as int
        },
        Instruction::JumpIf { cond, .. } => cond as int,
    }
}

/// The text of an instruction: `alloc 3`, `load 0 1`, `copy 2 0`,
/// `call + 0 3`, `jump_if 0 4 `.
pub open spec fn instruction_text(i: Instruction) -> Seq<char> {
    match i {
        Instruction::AllocRegisters { count } => seq!['a', 'l', 'l', 'o', 'c', ' '] + crate::text::int_text(count as int),
        Instruction::LoadImmediate { dest, value } => seq!['l', 'o', 'a', 'd', ' '] + crate::text::int_text(dest as int) + seq![' '] + display_of(value),
        Instruction::Copy { dest, src } => seq!['c', 'o', 'p', 'y', ' '] + crate::text::int_text(dest as int) + seq![' '] + crate::text::int_text(src as int),
        Instruction::CallInternal { ident, base, num_args } => seq!['c', 'a', 'l', 'l', ' '] + ident@ + seq![' '] + crate::text::int_text(base as int) + seq![' '] + crate::text::int_text(num_args as int),
        Instruction::JumpIf { cond, distance } => seq!['j', 'u', 'm', 'p', '_', 'i', 'f', ' '] + crate::text::int_text(cond as int) + seq![' '] + crate::text::int_text(distance as int) + seq![' '],
    }
}

impl Instruction {
    /// The text of this instruction.
    pub fn display(&self) -> (r: String)
        ensures
            r@ == instruction_text(*self),
    {
        let mut out = String::new();
        match self {
            Instruction::AllocRegisters { count } => {
                push_text(&mut out, "alloc ");
                push_int(&mut out, *count as i64);
            },
            Instruction::LoadImmediate { dest, value } => {
                push_text(&mut out, "load ");
                push_int(&mut out, *dest as i64);
                push_char(&mut out, ' ');
                value.write_display(&mut out);
            },
            Instruction::Copy { dest, src } => {
                push_text(&mut out, "copy ");
                push_int(&mut out, *dest as i64);
                push_char(&mut out, ' ');
                push_int(&mut out, *src as i64);
            },
            Instruction::CallInternal { ident, base, num_args } => {
                push_text(&mut out, "call ");
                push_text(&mut out, ident.as_str());
                push_char(&mut out, ' ');
                push_int(&mut out, *base as i64);
                push_char(&mut out, ' ');
                push_int(&mut out, *num_args as i64);
            },
            Instruction::JumpIf { cond, distance } => {
                push_text(&mut out, "jump_if ");
                push_int(&mut out, *cond as i64);
                push_char(&mut out, ' ');
                push_int(&mut out, *distance as i64);
                push_char(&mut out, ' ');
            },
        }
        proof {
            reveal_strlit("alloc ");
            reveal_strlit("load ");
            reveal_strlit("copy ");
            reveal_strlit("call ");
            reveal_strlit("jump_if ");
        }
        assert(out@ =~= instruction_text(*self));
        out
    }
}

/// The register file: a vector of values and a stack of window offsets.
/// Register `i` names the value at `offset + i`.
#[derive(Debug)]
pub struct Registers {
    pub values: Vec<Value>,
    pub offset_stack: Vec<usize>,
    pub offset: usize,
}

/// The values visible through a window starting at `offset`.
pub open spec fn window(values: Seq<Value>, offset: int) -> Seq<Value> {
    if offset <= values.len() {
        values.subrange(offset, values.len() as int)
    } else {
        Seq::empty()
    }
}

/// The length a register file of `len` registers has after growing by `count`.
pub open spec fn grown_len(len: int, count: int) -> int {
    if len + count < 0 {
        0
    } else {
        len + count
    }
}

impl Registers {
    pub fn new() -> (r: Self)
        ensures
            r.values@.len() == 0,
            r.offset_stack@.len() == 0,
            r.offset == 0,
    {
        Registers { values: Vec::new(), offset_stack: Vec::new(), offset: 0 }
    }

    /// Grows the register file by `count` registers holding `Nil`, or drops
    /// `-count` registers from its end; never below zero registers.
    pub fn allocate(&mut self, count: RegisterOffset)
        ensures
            final(self).values@.len() == grown_len(old(self).values@.len() as int, count as int),
            forall|i: int|
                0 <= i < final(self).values@.len() ==> #[trigger] final(self).values@[i] == (
                if i < old(self).values@.len() {
                    old(self).values@[i]
                } else {
                    Value::Nil
                }),
            final(self).offset == old(self).offset,
            final(self).offset_stack == old(self).offset_stack,
    {
        if count >= 0 {
            let mut k: i16 = 0;
            let ghost v0 = self.values@;
            while k < count
                invariant
                    0 <= k <= count,
                    self.values@.len() == v0.len() + k,
                    forall|i: int|
                        0 <= i < self.values@.len() ==> #[trigger] self.values@[i] == (if i
                            < v0.len() {
                            v0[i]
                        } else {
                            Value::Nil
                        }),
                    self.offset == old(self).offset,
                    self.offset_stack == old(self).offset_stack,
                    v0 == old(self).values@,
                decreases count - k,
            {
                self.values.push(Value::Nil);
                k = k + 1;
            }
        } else {
            let drop: usize = (-(count as i32)) as usize;
            if drop >= self.values.len() {
                self.values.truncate(0);
            } else {
                let keep = self.values.len() - drop;
                self.values.truncate(keep);
            }
        }
    }

    /// Opens a window over the last `size` registers.
    pub fn push_window(&mut self, size: RegisterOffset)
        requires
            old(self).values@.len() + 32768 <= usize::MAX,
        ensures
            final(self).offset_stack@ == old(self).offset_stack@.push(old(self).offset),
            final(self).offset == grown_len(old(self).values@.len() as int, -(size as int)),
            final(self).values == old(self).values,
    {
        self.offset_stack.push(self.offset);
        let len = self.values.len();
        if size <= 0 {
            self.offset = len + (-(size as i32)) as usize;
        } else if (size as usize) >= len {
            self.offset = 0;
        } else {
            self.offset = len - size as usize;
        }
    }

    /// Opens a window starting at register `at` of the whole file.
    pub fn push_window_starting(&mut self, at: RegisterId)
        ensures
            final(self).offset_stack@ == old(self).offset_stack@.push(old(self).offset),
            final(self).offset == at as usize,
            final(self).values == old(self).values,
    {
        self.offset_stack.push(self.offset);
        self.offset = at as usize;
    }

    /// Closes the innermost window: back to the previous offset, or to 0.
    pub fn pop_window(&mut self)
        ensures
            old(self).offset_stack@.len() > 0 ==> final(self).offset == old(self).offset_stack@.last()
                && final(self).offset_stack@ == old(self).offset_stack@.drop_last(),
            old(self).offset_stack@.len() == 0 ==> final(self).offset == 0
                && final(self).offset_stack@.len() == 0,
            final(self).values == old(self).values,
    {
        match self.offset_stack.pop() {
            Some(o) => {
                self.offset = o;
            },
            None => {
                self.offset = 0;
            },
        }
    }

    /// The register `i` of the current window, if it exists.
    pub fn get(&self, i: RegisterId) -> (r: Option<&Value>)
        ensures
            self.offset + i < self.values@.len() ==> r == Some(&self.values@[self.offset + i]),
            self.offset + i >= self.values@.len() ==> r is None,
    {
        if self.offset < self.values.len() && (i as usize) < self.values.len() - self.offset {
            Some(&self.values[self.offset + i as usize])
        } else {
            None
        }
    }

    /// Sets register `i` of the current window; false if it does not exist.
    pub fn set(&mut self, i: RegisterId, v: Value) -> (r: bool)
        ensures
            r == (old(self).offset + i < old(self).values@.len()),
            r ==> final(self).values@ == old(self).values@.update(old(self).offset + i, v),
            !r ==> final(self).values@ == old(self).values@,
            final(self).offset == old(self).offset,
            final(self).offset_stack == old(self).offset_stack,
    {
        if self.offset < self.values.len() && (i as usize) < self.values.len() - self.offset {
            let k = self.offset + i as usize;
            self.values.set(k, v);
            true
        } else {
            false
        }
    }

    /// Copies of the values in the current window.
    pub fn iter(&self) -> (r: Vec<Value>)
        ensures
            r@ == window(self.values@, self.offset as int),
    {
        let mut r: Vec<Value> = Vec::new();
        if self.offset > self.values.len() {
            return r;
        }
        let mut k = self.offset;
        while k < self.values.len()
            invariant
                self.offset <= k <= self.values@.len(),
                r@ == self.values@.subrange(self.offset as int, k as int),
            decreases self.values@.len() - k,
        {
            r.push(self.values[k].duplicate());
            k = k + 1;
            assert(r@ =~= self.values@.subrange(self.offset as int, k as int));
        }
        r
    }

    pub fn into_values(self) -> (r: Vec<Value>)
        ensures
            r == self.values,
    {
        self.values
    }
}

} // verus!
