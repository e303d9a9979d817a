use scarab::code::Instruction;
use scarab::compiler::{compile, TypeCheckVisitor};
use scarab::parser::{parse_implicit_form_list, parse_value};
use scarab::types::Type;

fn compile_display(program: &str) -> Result<String, String> {
    let (program, positions) = parse_implicit_form_list(program).unwrap();
    match compile(&program, &positions) {
        Ok(instructions) => Ok(instructions
            .iter()
            .map(|i| i.display())
            .collect::<Vec<_>>()
            .join(";\n")
            + ";"),
        Err(e) => Err(format!("{:?}", e)),
    }
}

fn contains_in_order(text: &str, parts: &[&str]) -> bool {
    let mut rest = text;
    for p in parts {
        match rest.find(p) {
            Some(i) => rest = &rest[i + p.len()..],
            None => return false,
        }
    }
    true
}

#[test]
fn compiler_basic_add() {
    assert_eq!(
        compile_display("+ 1 2 3").unwrap(),
        "alloc 3;\nload 0 1;\nload 1 2;\nload 2 3;\ncall + 0 3;"
    );
}

#[test]
fn basic_mixed() {
    assert_eq!(
        compile_display("debug 1 \"a\" true nil").unwrap(),
        "alloc 4;\nload 0 1;\nload 1 \"a\";\nload 2 true;\nload 3 nil;\ncall debug 0 4;"
    );
}

#[test]
fn compiler_unknown_internal_func_fails() {
    let e = compile_display("-unknown-").unwrap_err();
    assert!(contains_in_order(&e, &["Unknown", "line", "1", "1"]), "{}", e);
}

#[test]
fn incorrect_add_fails() {
    let e = compile_display("+ \"a\" 1").unwrap_err();
    assert!(e.contains("InvalidArgument"), "{}", e);
}

#[test]
fn nested_add() {
    assert_eq!(
        compile_display("+ 1 (+ 2 3)").unwrap(),
        "alloc 3;\nload 0 1;\nload 1 2;\nload 2 3;\ncall + 1 2;\ncall + 0 2;"
    );
}

#[test]
fn double_nested_add() {
    assert_eq!(
        compile_display("+ 1 (+ 2 3) (+ 4 5)").unwrap(),
        "alloc 4;\nload 0 1;\nload 1 2;\nload 2 3;\ncall + 1 2;\nload 2 4;\nload 3 5;\ncall + 2 2;\ncall + 0 3;"
    );
}

#[test]
fn compiler_constant_if() {
    assert_eq!(
        compile_display("if (< 1 2) {debug 1} {debug 2}").unwrap(),
        "alloc 4;\nload 0 1;\nload 1 2;\ncall < 0 2;\njump_if 0 4 ;\nload 2 2;\ncall debug 2 1;\nload 3 true;\njump_if 3 2 ;\nload 1 1;\ncall debug 1 1;"
    );
}

#[test]
fn compiler_nested_if() {
    assert_eq!(
        compile_display(
            "
                if (< 1 2) {
                    if (< 3 2) nil nil
                } nil
                "
        )
        .unwrap(),
        "alloc 3;\nload 0 1;\nload 1 2;\ncall < 0 2;\njump_if 0 2 ;\nload 1 true;\njump_if 1 6 ;\nload 1 3;\nload 2 2;\ncall < 1 2;\njump_if 1 2 ;\nload 2 true;\njump_if 2 0 ;"
    );
}

#[test]
fn basic_variables() {
    assert_eq!(
        compile_display(
            "
                set a 1
                set b 2
                + a b
            "
        )
        .unwrap(),
        "alloc 4;\nload 0 1;\nload 1 2;\ncopy 2 0;\ncopy 3 1;\ncall + 2 2;"
    );
}

#[test]
fn arity_is_checked() {
    let e = compile_display("< 1").unwrap_err();
    assert!(contains_in_order(&e, &["NotEnoughArguments", "2", "1"]), "{}", e);
    let e = compile_display("< 1 2 3").unwrap_err();
    assert!(contains_in_order(&e, &["TooManyArguments", "2", "3"]), "{}", e);
    let e = compile_display("if true {debug 1}").unwrap_err();
    assert!(e.contains("NotEnoughArguments"), "{}", e);
}

#[test]
fn arity_is_checked_inside_blocks() {
    let e = compile_display("if true {< 1} {}").unwrap_err();
    assert!(e.contains("NotEnoughArguments"), "{}", e);
}

#[test]
fn watermark_counts_zero_argument_calls() {
    let (program, positions) = parse_implicit_form_list("+ 1 (+)").unwrap();
    let instructions = compile(&program, &positions).unwrap();
    assert!(matches!(instructions[0], Instruction::AllocRegisters { count: 2 }));
}

#[test]
fn empty_program_allocates_one_register() {
    assert_eq!(compile_display("").unwrap(), "alloc 1;");
}

#[test]
fn unknown_variable_fails_at_its_position() {
    let e = compile_display("debug 1\ndebug zz").unwrap_err();
    assert!(contains_in_order(&e, &["UnknownInternalFunction", "zz", "line: 2", "column: 7"]), "{}", e);
}

#[test]
fn call_head_must_be_an_identifier() {
    let e = compile_display("(1 2)").unwrap_err();
    assert!(contains_in_order(&e, &["Value", "ExpectedType", "Identifier", "Cell"]), "{}", e);
}

#[test]
fn too_many_registers_is_an_error() {
    let program = format!("+{}", " 1".repeat(300));
    let e = compile_display(&program).unwrap_err();
    assert!(e.contains("TooManyRegisters"), "{}", e);
    let program = format!("+{}", " 1".repeat(256));
    assert!(compile_display(&program).unwrap().starts_with("alloc 256;"));
}

#[test]
fn type_checker_infers_types() {
    let mut checker = TypeCheckVisitor::new();
    let mut infer = |text: &str| {
        let (v, m) = parse_value(text).unwrap();
        checker.visit_expr(&v, Some(&m), (1, 1)).map_err(|e| e.describe())
    };
    assert_eq!(infer("(+ 1 2)"), Ok(Type::Integer));
    assert_eq!(infer("(< 1 2)"), Ok(Type::Boolean));
    assert_eq!(infer("(set flag (< 1 2))"), Ok(Type::Nil));
    assert_eq!(infer("flag"), Ok(Type::Boolean));
    assert_eq!(infer("(if flag {debug 1} {})"), Ok(Type::Nil));
    assert_eq!(infer("'abc"), Ok(Type::Identifier));
    assert_eq!(infer("\"s\""), Ok(Type::String));
    assert!(infer("(if 1 {} {})").is_err());
}

#[test]
fn set_has_type_nil() {
    let e = compile_display("+ 1 (set a 2)").unwrap_err();
    assert!(contains_in_order(&e, &["InvalidArgument", "Integer", "Nil"]), "{}", e);
}

#[test]
fn zero_argument_call_is_counted_in_alloc() {
    assert_eq!(
        compile_display("debug 1 (debug)").unwrap(),
        "alloc 2;\nload 0 1;\ncall debug 1 0;\ncall debug 0 2;"
    );
}

#[test]
fn if_as_an_argument_keeps_its_slot() {
    let code = compile_display("debug (if true {} {}) 7").unwrap();
    assert!(code.ends_with("load 1 7;\ncall debug 0 2;"), "{}", code);
    assert!(code.starts_with("alloc 2;"), "{}", code);
}
