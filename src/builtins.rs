//! The built-in functions: their names, signatures and what they compute.

use vstd::prelude::*;

use crate::text::chars_of;
use crate::types::{ArgumentSpec, Signature, Type, TypeSpec};
use crate::value::Identifier;

verus! {

/// The operation behind a built-in. `If` and `SetVariable` exist for type checking
/// only: the compiler lowers them and the machine never calls them.
#[derive(Copy, Clone, Debug, PartialEq, Eq, Structural)]
pub enum BuiltinOp {
    Add,
    Subtract,
    Less,
    Debug,
    If,
    SetVariable,
}

/// A built-in: its signature and its operation.
#[derive(Clone, Debug)]
pub struct Builtin {
    pub signature: Signature,
    pub op: BuiltinOp,
}

/// The built-in with the given name.
pub open spec fn builtin_named(name: Seq<char>) -> Option<BuiltinOp> {
    if name == seq!['+'] {
        Some(BuiltinOp::Add)
    } else if name == seq!['-'] {
        Some(BuiltinOp::Subtract)
    } else if name == seq!['<'] {
        Some(BuiltinOp::Less)
    } else if name == seq!['d', 'e', 'b', 'u', 'g'] {
        Some(BuiltinOp::Debug)
    } else if name == seq!['i', 'f'] {
        Some(BuiltinOp::If)
    } else if name == seq!['s', 'e', 't'] {
        Some(BuiltinOp::SetVariable)
    } else {
        None
    }
}

pub open spec fn arg(t: TypeSpec, raw: bool) -> ArgumentSpec {
    ArgumentSpec { type_spec: t, raw }
}

/// The fixed argument specifications of a built-in.
pub open spec fn fixed_args(op: BuiltinOp) -> Seq<ArgumentSpec> {
    match op {
        BuiltinOp::Add | BuiltinOp::Subtract | BuiltinOp::Debug => Seq::empty(),
        BuiltinOp::Less => seq![
            arg(TypeSpec::Base(Type::Integer), false),
            arg(TypeSpec::Base(Type::Integer), false),
        ],
        BuiltinOp::If => seq![
            arg(TypeSpec::Base(Type::Boolean), false),
            arg(TypeSpec::List, true),
            arg(TypeSpec::List, true),
        ],
        BuiltinOp::SetVariable => seq![
            arg(TypeSpec::Base(Type::Identifier), true),
            arg(TypeSpec::Any, false),
        ],
    }
}

/// The rest argument specification of a built-in.
pub open spec fn rest_arg(op: BuiltinOp) -> Option<ArgumentSpec> {
    match op {
        BuiltinOp::Add | BuiltinOp::Subtract => Some(arg(TypeSpec::Base(Type::Integer), false)),
        BuiltinOp::Debug => Some(arg(TypeSpec::Any, false)),
        _ => None,
    }
}

pub open spec fn return_of(op: BuiltinOp) -> Type {
    match op {
        BuiltinOp::Add | BuiltinOp::Subtract => Type::Integer,
        BuiltinOp::Less => Type::Boolean,
        _ => Type::Nil,
    }
}

pub open spec fn has_signature(sig: Signature, op: BuiltinOp) -> bool {
    &&& sig.argument_specs@ == fixed_args(op)
    &&& sig.rest_argument_spec == rest_arg(op)
    &&& sig.return_type == return_of(op)
}

/// The operation of the built-in named `name`, if there is one.
pub fn lookup(name: &str) -> (r: Option<BuiltinOp>)
    ensures
        r == builtin_named(name@),
{
    let cs = chars_of(name);
    let n = cs.len();
    if n == 1 && cs[0] == '+' {
        assert(cs@ =~= seq!['+']);
        Some(BuiltinOp::Add)
    } else if n == 1 && cs[0] == '-' {
        assert(cs@ =~= seq!['-']);
        Some(BuiltinOp::Subtract)
    } else if n == 1 && cs[0] == '<' {
        assert(cs@ =~= seq!['<']);
        Some(BuiltinOp::Less)
    } else if n == 5 && cs[0] == 'd' && cs[1] == 'e' && cs[2] == 'b' && cs[3] == 'u' && cs[4] == 'g' {
        assert(cs@ =~= seq!['d', 'e', 'b', 'u', 'g']);
        Some(BuiltinOp::Debug)
    } else if n == 2 && cs[0] == 'i' && cs[1] == 'f' {
        assert(cs@ =~= seq!['i', 'f']);
        Some(BuiltinOp::If)
    } else if n == 3 && cs[0] == 's' && cs[1] == 'e' && cs[2] == 't' {
        assert(cs@ =~= seq!['s', 'e', 't']);
        Some(BuiltinOp::SetVariable)
    } else {
        proof {
            if n == 1 {
                assert(cs@ != seq!['+'] ==> true);
                assert(seq!['+'][0] == '+');
                assert(seq!['-'][0] == '-');
                assert(seq!['<'][0] == '<');
            }
            if n == 5 {
                let d = seq!['d', 'e', 'b', 'u', 'g'];
                assert(d[0] == 'd' && d[1] == 'e' && d[2] == 'b' && d[3] == 'u' && d[4] == 'g');
            }
            if n == 2 {
                let d = seq!['i', 'f'];
                assert(d[0] == 'i' && d[1] == 'f');
            }
            if n == 3 {
                let d = seq!['s', 'e', 't'];
                assert(d[0] == 's' && d[1] == 'e' && d[2] == 't');
            }
        }
        None
    }
}

/// The signature of a built-in.
pub fn signature(op: BuiltinOp) -> (r: Signature)
    ensures
        has_signature(r, op),
{
    let integer = ArgumentSpec::new(TypeSpec::Base(Type::Integer)).build();
    let s = match op {
        BuiltinOp::Add | BuiltinOp::Subtract => Signature::new().add_rest(integer).return_type(
            Type::Integer,
        ),
        BuiltinOp::Less => Signature::new().add(integer).add(integer).return_type(Type::Boolean),
        BuiltinOp::Debug => Signature::new().add_rest(ArgumentSpec::new(TypeSpec::Any).build()),
        BuiltinOp::If => Signature::new().add(
            ArgumentSpec::new(TypeSpec::Base(Type::Boolean)).build(),
        ).add(ArgumentSpec::new(TypeSpec::List).raw(true).build()).add(
            ArgumentSpec::new(TypeSpec::List).raw(true).build(),
        ),
        BuiltinOp::SetVariable => Signature::new().add(
            ArgumentSpec::new(TypeSpec::Base(Type::Identifier)).raw(true).build(),
        ).add(ArgumentSpec::new(TypeSpec::Any).build()),
    };
    let r = s.build();
    assert(r.argument_specs@ =~= fixed_args(op));
    r
}

/// The built-in named `name`, if there is one.
pub fn get(name: &Identifier) -> (r: Option<Builtin>)
    ensures
        match builtin_named(name@) {
            None => r is None,
            Some(op) => r is Some && r->Some_0.op == op && has_signature(r->Some_0.signature, op),
        },
{
    match lookup(name.as_str()) {
        None => None,
        Some(op) => Some(Builtin { signature: signature(op), op }),
    }
}

} // verus!
