use scarab::code::Instruction;
use scarab::compiler::compile;
use scarab::parser::{parse_implicit_form_list, parse_value};
use scarab::types::{Error, Type};
use scarab::value::Value;
use scarab::vm::Vm;

#[test]
fn parse_errors_name_line_and_column() {
    let e = parse_value("(1\n  [2 + 3 * 4])").unwrap_err();
    assert_eq!(
        e.describe(),
        "mismatched operator list; operator * does not match initial operator + (at line 2, column 10)"
    );
    let e = parse_value("\"abc").unwrap_err();
    assert_eq!(e.describe(), "unterminated string (at line 1, column 1)");
    let e = parse_value("").unwrap_err();
    assert_eq!(e.describe(), "unexpected end of input (at line 1, column 1)");
}

#[test]
fn compile_errors_name_line_and_column() {
    let (program, positions) = parse_implicit_form_list("debug 1\n+ 1 \"a\"").unwrap();
    let e = compile(&program, &positions).unwrap_err();
    assert_eq!(
        e.describe(),
        "type error: argument 1 invalid: expected integer, got string (at line 2, column 5)"
    );
    let (program, positions) = parse_implicit_form_list("nope 1").unwrap();
    let e = compile(&program, &positions).unwrap_err();
    assert_eq!(e.describe(), "unknown internal function: nope (at line 1, column 1)");
}

#[test]
fn machine_errors_name_the_program_counter() {
    let mut vm = Vm::new();
    let mut program = vec![Instruction::AllocRegisters { count: 1 }];
    for _ in 0..17 {
        program.push(Instruction::LoadImmediate { dest: 0, value: Value::Nil });
    }
    program.push(Instruction::LoadImmediate { dest: 9, value: Value::Nil });
    vm.load(program);
    let e = vm.run().unwrap_err();
    assert_eq!(e.describe(), "invalid register 9 (at PC 0x12)");
}

#[test]
fn type_error_messages() {
    let e = Error::NotEnoughArguments { expected: 2, actual: 1 };
    let mut text = String::new();
    e.write_message(&mut text);
    assert_eq!(text, "not enough arguments; expected at least 2, got 1");
    assert_eq!(Type::Quoted.name(), "quoted");
}
