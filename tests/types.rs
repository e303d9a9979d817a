use scarab::types::{ArgumentSpec, Error, Signature, Type, TypeSpec};

fn check_args(signature: &Signature, args: Vec<Type>) -> Result<(), Error> {
    signature.check_arguments_length(args.len())?;
    let specs = signature.specs_by_position(args.len());
    for (i, (spec, t)) in specs.iter().zip(args.into_iter()).enumerate() {
        spec.check_at(t, i)?;
    }
    Ok(())
}

fn spec(t: TypeSpec) -> ArgumentSpec {
    ArgumentSpec::new(t).build()
}

fn contains_in_order(text: &str, parts: &[&str]) -> bool {
    let mut rest = text;
    for p in parts {
        match rest.find(p) {
            Some(i) => rest = &rest[i + p.len()..],
            None => return false,
        }
    }
    true
}

#[test]
fn any_takes_any_type() {
    for type_ in vec![Type::Nil, Type::Boolean, Type::Integer, Type::String] {
        assert!(TypeSpec::Any.check(type_).is_ok());
    }
}

#[test]
fn specific_type_takes_only_that_type() {
    let s = TypeSpec::Base(Type::Boolean);
    assert!(s.check(Type::Boolean).is_ok());
    let e = format!("{:?}", s.check(Type::Integer).unwrap_err());
    assert!(contains_in_order(&e, &["ExpectedType", "Boolean", "Integer"]), "{}", e);
}

#[test]
fn list_takes_cell_or_nil() {
    let s = TypeSpec::List;
    assert!(s.check(Type::Nil).is_ok());
    assert!(s.check(Type::Cell).is_ok());
    let e = format!("{:?}", s.check(Type::Integer).unwrap_err());
    assert!(contains_in_order(&e, &["ExpectedType", "Cell", "Integer"]), "{}", e);
}

#[test]
fn function_taking_any_takes_any_type() {
    let signature = Signature::new().add_rest(spec(TypeSpec::Any)).build();
    assert!(check_args(&signature, vec![Type::Nil, Type::Boolean, Type::Integer, Type::String]).is_ok());
}

#[test]
fn function_taking_type_takes_only_that_type() {
    let signature = Signature::new().add_rest(spec(TypeSpec::Base(Type::Integer))).build();
    assert!(check_args(&signature, vec![Type::Integer]).is_ok());
    let e = format!("{:?}", check_args(&signature, vec![Type::String]).unwrap_err());
    assert!(contains_in_order(&e, &["InvalidArgument", "0", "Integer", "String"]), "{}", e);
}

#[test]
fn function_taking_fixed_and_rest_arguments_rejects_less() {
    let signature = Signature::new().add(spec(TypeSpec::Any)).add_rest(spec(TypeSpec::Any)).build();
    assert!(check_args(&signature, vec![Type::Integer]).is_ok());
    assert!(check_args(&signature, vec![Type::Integer, Type::Integer]).is_ok());
    let e = format!("{:?}", check_args(&signature, vec![]).unwrap_err());
    assert!(contains_in_order(&e, &["NotEnoughArguments", "1", "0"]), "{}", e);
}

#[test]
fn function_taking_fixed_arguments_rejects_more_or_less() {
    let signature = Signature::new().add(spec(TypeSpec::Any)).add(spec(TypeSpec::Any)).build();
    assert!(check_args(&signature, vec![Type::Integer, Type::Integer]).is_ok());
    let e = format!("{:?}", check_args(&signature, vec![Type::Integer, Type::Integer, Type::Integer]).unwrap_err());
    assert!(contains_in_order(&e, &["TooManyArguments", "2", "3"]), "{}", e);
    let e = format!("{:?}", check_args(&signature, vec![Type::Integer]).unwrap_err());
    assert!(contains_in_order(&e, &["NotEnoughArguments", "2", "1"]), "{}", e);
}

#[test]
fn function_taking_infinite_arguments_accepts_any() {
    let signature = Signature::new().add_rest(spec(TypeSpec::Any)).build();
    assert!(check_args(&signature, Vec::new()).is_ok());
    assert!(check_args(&signature, vec![Type::Integer, Type::Integer]).is_ok());
}

#[test]
fn function_taking_mixed_arguments_enforces_types() {
    let signature = Signature::new()
        .add(spec(TypeSpec::Base(Type::Integer)))
        .add(spec(TypeSpec::Base(Type::Boolean)))
        .build();
    assert!(check_args(&signature, vec![Type::Integer, Type::Boolean]).is_ok());
    let e = format!("{:?}", check_args(&signature, vec![Type::String, Type::Boolean]).unwrap_err());
    assert!(contains_in_order(&e, &["InvalidArgument", "0", "Integer", "String"]), "{}", e);
    let e = format!("{:?}", check_args(&signature, vec![Type::Integer, Type::String]).unwrap_err());
    assert!(contains_in_order(&e, &["InvalidArgument", "1", "Boolean", "String"]), "{}", e);
}

#[test]
fn raw_flag_and_return_type() {
    let a = ArgumentSpec::new(TypeSpec::List).raw(true).build();
    assert!(a.is_raw());
    assert!(!spec(TypeSpec::List).is_raw());
    let s = Signature::new().return_type(Type::Boolean).build();
    assert_eq!(s.return_type, Type::Boolean);
}
