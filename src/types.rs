//! Type tags, argument specifications and built-in signatures.

use vstd::prelude::*;

use crate::text::{nat_text, push_count, push_text};

verus! {

/// The dynamic type tag of a value.
#[derive(Copy, Clone, Debug, PartialEq, Eq, Structural)]
pub enum Type {
    Nil,
    Boolean,
    Integer,
    String,
    Identifier,
    Cell,
    Quoted,
}

/// Errors raised while checking types and argument lists.
#[derive(Debug)]
pub enum Error {
    ExpectedType { expected: Type, actual: Type },
    InvalidArgument { position: usize, source: Box<Error> },
    TooManyArguments { expected: usize, actual: usize },
    NotEnoughArguments { expected: usize, actual: usize },
}

/// The name of a type, as messages show it.
pub open spec fn type_label(t: Type) -> Seq<char> {
    match t {
        Type::Nil => "nil"@,
        Type::Boolean => "boolean"@,
        Type::Integer => "integer"@,
        Type::String => "string"@,
        Type::Identifier => "identifier"@,
        Type::Cell => "cell"@,
        Type::Quoted => "quoted"@,
    }
}

impl Type {
    /// The name of this type, as messages show it.
    pub fn name(&self) -> (r: &'static str)
        ensures
            r@ == type_label(*self),
    {
        match self {
            Type::Nil => "nil",
            Type::Boolean => "boolean",
            Type::Integer => "integer",
            Type::String => "string",
            Type::Identifier => "identifier",
            Type::Cell => "cell",
            Type::Quoted => "quoted",
        }
    }
}

/// The message of a type error.
pub open spec fn error_text(e: Error) -> Seq<char>
    decreases e,
{
    match e {
        Error::ExpectedType { expected, actual } => "expected "@ + type_label(expected) + ", got "@
            + type_label(actual),
        Error::InvalidArgument { position, source } => "argument "@ + nat_text(position as nat)
            + " invalid: "@ + error_text(*source),
        Error::TooManyArguments { expected, actual } => "too many arguments; expected less than "@
            + nat_text(expected as nat) + ", got "@ + nat_text(actual as nat),
        Error::NotEnoughArguments { expected, actual } => "not enough arguments; expected at least "@
            + nat_text(expected as nat) + ", got "@ + nat_text(actual as nat),
    }
}

impl Error {
    /// Appends the message of this error.
    pub fn write_message(&self, out: &mut String)
        ensures
            final(out)@ == old(out)@ + error_text(*self),
        decreases self,
    {
        match self {
            Error::ExpectedType { expected, actual } => {
                push_text(out, "expected ");
                push_text(out, expected.name());
                push_text(out, ", got ");
                push_text(out, actual.name());
            },
            Error::InvalidArgument { position, source } => {
                push_text(out, "argument ");
                push_count(out, *position);
                push_text(out, " invalid: ");
                source.write_message(out);
            },
            Error::TooManyArguments { expected, actual } => {
                push_text(out, "too many arguments; expected less than ");
                push_count(out, *expected);
                push_text(out, ", got ");
                push_count(out, *actual);
            },
            Error::NotEnoughArguments { expected, actual } => {
                push_text(out, "not enough arguments; expected at least ");
                push_count(out, *expected);
                push_text(out, ", got ");
                push_count(out, *actual);
            },
        }
        assert(final(out)@ =~= old(out)@ + error_text(*self));
    }
}

/// Anything that carries a type tag.
pub trait Typeable {
    spec fn type_of(&self) -> Type;

    fn type_(&self) -> (r: Type)
        ensures
            r == self.type_of(),
    ;
}

impl Typeable for Type {
    open spec fn type_of(&self) -> Type {
        *self
    }

    fn type_(&self) -> (r: Type) {
        *self
    }
}

/// What an argument position accepts.
#[derive(Copy, Clone, Debug, PartialEq, Eq, Structural)]
pub enum TypeSpec {
    Any,
    Base(Type),
    List,
}

/// Whether `spec` accepts a value of type `actual`.
pub open spec fn accepts(spec: TypeSpec, actual: Type) -> bool {
    match spec {
        TypeSpec::Any => true,
        TypeSpec::Base(expected) => actual == expected,
        TypeSpec::List => actual == Type::Nil || actual == Type::Cell,
    }
}

/// The type named in the error when `spec` rejects a value.
pub open spec fn expected_of(spec: TypeSpec) -> Type {
    match spec {
        TypeSpec::Base(expected) => expected,
        _ => Type::Cell,
    }
}

impl TypeSpec {
    pub fn check(&self, actual: Type) -> (r: Result<(), Error>)
        ensures
            r is Ok <==> accepts(*self, actual),
            r is Err ==> r == Err::<(), Error>(
                Error::ExpectedType { expected: expected_of(*self), actual },
            ),
    {
        match *self {
            TypeSpec::Any => Ok(()),
            TypeSpec::Base(expected) => {
                if actual == expected {
                    Ok(())
                } else {
                    Err(Error::ExpectedType { expected, actual })
                }
            },
            TypeSpec::List => {
                if actual == Type::Nil || actual == Type::Cell {
                    Ok(())
                } else {
                    Err(Error::ExpectedType { expected: Type::Cell, actual })
                }
            },
        }
    }
}

/// The specification of one argument: its accepted types, and whether it is
/// passed unevaluated.
#[derive(Copy, Clone, Debug, PartialEq, Eq, Structural)]
pub struct ArgumentSpec {
    pub type_spec: TypeSpec,
    pub raw: bool,
}

/// Builds an [`ArgumentSpec`].
#[derive(Copy, Clone, Debug)]
pub struct ArgumentSpecBuilder(pub ArgumentSpec);

impl ArgumentSpec {
    pub fn new(type_spec: TypeSpec) -> (r: ArgumentSpecBuilder)
        ensures
            r.0 == (ArgumentSpec { type_spec, raw: false }),
    {
        ArgumentSpecBuilder(ArgumentSpec { type_spec, raw: false })
    }

    /// Checks `type_` against this argument, tagging a failure with the
    /// argument's position.
    pub fn check_at(&self, type_: Type, position: usize) -> (r: Result<(), Error>)
        ensures
            r is Ok <==> accepts(self.type_spec, type_),
            r is Err ==> r == Err::<(), Error>(
                Error::InvalidArgument {
                    position,
                    source: Box::new(
                        Error::ExpectedType { expected: expected_of(self.type_spec), actual: type_ },
                    ),
                },
            ),
    {
        match self.type_spec.check(type_) {
            Ok(()) => Ok(()),
            Err(e) => Err(Error::InvalidArgument { position, source: Box::new(e) }),
        }
    }

    pub fn is_raw(&self) -> (r: bool)
        ensures
            r == self.raw,
    {
        self.raw
    }
}

impl ArgumentSpecBuilder {
    pub fn raw(self, raw: bool) -> (r: Self)
        ensures
            r.0 == (ArgumentSpec { raw, ..self.0 }),
    {
        ArgumentSpecBuilder(ArgumentSpec { raw, ..self.0 })
    }

    pub fn build(self) -> (r: ArgumentSpec)
        ensures
            r == self.0,
    {
        self.0
    }
}

/// A function signature: return type, fixed arguments and an optional rest
/// argument that matches any number of further arguments.
#[derive(Clone, Debug)]
pub struct Signature {
    pub return_type: Type,
    pub argument_specs: Vec<ArgumentSpec>,
    pub rest_argument_spec: Option<ArgumentSpec>,
}

/// Builds a [`Signature`].
#[derive(Clone, Debug)]
pub struct SignatureBuilder(pub Signature);

/// Whether `count` arguments fit the signature's arity.
pub open spec fn arity_ok(sig: Signature, count: nat) -> bool {
    &&& sig.argument_specs@.len() <= count
    &&& (count > sig.argument_specs@.len() ==> sig.rest_argument_spec is Some)
}

/// The specification of the argument at `position`, if any.
pub open spec fn spec_at(sig: Signature, position: nat) -> Option<ArgumentSpec> {
    if position < sig.argument_specs@.len() {
        Some(sig.argument_specs@[position as int])
    } else {
        sig.rest_argument_spec
    }
}

impl Signature {
    pub fn new() -> (r: SignatureBuilder)
        ensures
            r.0.return_type == Type::Nil,
            r.0.argument_specs@.len() == 0,
            r.0.rest_argument_spec is None,
    {
        SignatureBuilder(Signature {
            return_type: Type::Nil,
            argument_specs: Vec::new(),
            rest_argument_spec: None,
        })
    }

    pub fn check_arguments_length(&self, actual: usize) -> (r: Result<(), Error>)
        ensures
            r is Ok <==> arity_ok(*self, actual as nat),
            actual < self.argument_specs@.len() ==> r == Err::<(), Error>(
                Error::NotEnoughArguments { expected: self.argument_specs@.len() as usize, actual },
            ),
            actual > self.argument_specs@.len() && self.rest_argument_spec is None ==> r == Err::<
                (),
                Error,
            >(Error::TooManyArguments { expected: self.argument_specs@.len() as usize, actual }),
    {
        let expected = self.argument_specs.len();
        if actual < expected {
            Err(Error::NotEnoughArguments { expected, actual })
        } else if actual > expected && self.rest_argument_spec.is_none() {
            Err(Error::TooManyArguments { expected, actual })
        } else {
            Ok(())
        }
    }

    /// The specifications of the first `count` argument positions: the fixed
    /// ones in order, then the rest specification repeated.
    pub fn specs_by_position(&self, count: usize) -> (r: Vec<ArgumentSpec>)
        ensures
            r@.len() <= count,
            arity_ok(*self, count as nat) ==> r@.len() == count,
            forall|i: int| 0 <= i < r@.len() ==> spec_at(*self, i as nat) == Some(r@[i]),
            r@.len() < count ==> spec_at(*self, r@.len()) is None,
    {
        let mut r: Vec<ArgumentSpec> = Vec::new();
        let mut i: usize = 0;
        while i < count
            invariant
                i <= count,
                r@.len() == i,
                forall|j: int| 0 <= j < i ==> spec_at(*self, j as nat) == Some(r@[j]),
            decreases count - i,
        {
            if i < self.argument_specs.len() {
                r.push(self.argument_specs[i]);
            } else {
                match self.rest_argument_spec {
                    Some(spec) => r.push(spec),
                    None => {
                        return r;
                    },
                }
            }
            i = i + 1;
        }
        r
    }
}

impl SignatureBuilder {
    pub fn build(self) -> (r: Signature)
        ensures
            r == self.0,
    {
        self.0
    }

    pub fn return_type(self, return_type: Type) -> (r: Self)
        ensures
            r.0.return_type == return_type,
            r.0.argument_specs@ == self.0.argument_specs@,
            r.0.rest_argument_spec == self.0.rest_argument_spec,
    {
        SignatureBuilder(Signature { return_type, ..self.0 })
    }

    pub fn add(self, argument_spec: ArgumentSpec) -> (r: Self)
        ensures
            r.0.return_type == self.0.return_type,
            r.0.argument_specs@ == self.0.argument_specs@.push(argument_spec),
            r.0.rest_argument_spec == self.0.rest_argument_spec,
    {
        let mut s = self.0;
        s.argument_specs.push(argument_spec);
        SignatureBuilder(s)
    }

    pub fn add_rest(self, argument_spec: ArgumentSpec) -> (r: Self)
        ensures
            r.0.return_type == self.0.return_type,
            r.0.argument_specs@ == self.0.argument_specs@,
            r.0.rest_argument_spec == Some(argument_spec),
    {
        SignatureBuilder(Signature { rest_argument_spec: Some(argument_spec), ..self.0 })
    }
}

} // verus!
