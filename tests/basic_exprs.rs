use scarab::compiler::compile;
use scarab::parser::parse_implicit_form_list;
use scarab::vm::Vm;

fn exec(code: &str) -> String {
    let (program, positions) = parse_implicit_form_list(code).expect("parsing failed");
    let instructions = compile(&program, &positions).expect("compilation failed");
    let mut vm = Vm::new();
    vm.load(instructions);
    vm.run().expect("running program failed");
    vm.output().trim().to_string()
}

#[test]
fn basic_math() {
    assert_eq!(exec("debug [1 + 2 + [6 - 3]]"), "6");
}

#[test]
fn basic_exprs_constant_if() {
    assert_eq!(exec("if (< 1 2) {debug 1} {debug 2}"), "1");
}

#[test]
fn basic_exprs_nested_if() {
    assert_eq!(
        exec("if (< 1 2) {if (< 3 2) {debug 3} {debug 2}} {debug 1}"),
        "2"
    );
}

#[test]
fn variables_add_up() {
    assert_eq!(exec("set a 1; set b 2; debug (+ a b)"), "3");
}

#[test]
fn debug_prints_strings_numbers_and_lists() {
    assert_eq!(exec("debug \"hi\" 100 '(abc)"), "\"hi\" 100 (abc)");
}

#[test]
fn unknown_function_in_an_argument_fails() {
    let (program, positions) = parse_implicit_form_list("debug \"hi\" 100 (abc)").unwrap();
    let e = compile(&program, &positions).unwrap_err();
    assert!(format!("{:?}", e).contains("UnknownInternalFunction(\"abc\")"));
}

#[test]
fn false_branch_runs_when_condition_fails() {
    assert_eq!(exec("if (< 2 1) {debug 1} {debug 2}"), "2");
}

#[test]
fn variables_are_visible_inside_blocks() {
    assert_eq!(exec("set a 5\nif (< a 9) {debug a} {debug 0}"), "5");
}

#[test]
fn empty_arithmetic_gives_zero() {
    assert_eq!(exec("debug (+) (-)"), "0 0");
}

#[test]
fn subtraction_folds_from_the_left() {
    assert_eq!(exec("debug (- 10 3 2) (- 7)"), "5 7");
}

#[test]
fn quoted_values_are_loaded_as_they_are() {
    assert_eq!(exec("debug 'abc '(1 2)"), "abc (1 2)");
}

#[test]
fn overflow_is_a_runtime_error() {
    let (program, positions) = parse_implicit_form_list("+ 9223372036854775807 1").unwrap();
    let instructions = compile(&program, &positions).unwrap();
    let mut vm = Vm::new();
    vm.load(instructions);
    let e = vm.run().unwrap_err();
    assert!(format!("{:?}", e).contains("IntegerOverflow"));
}
