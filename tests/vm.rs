use scarab::code::{Instruction, Registers};
use scarab::value::Value;
use scarab::vm::{Vm, VmError};

fn load(dest: u8, value: Value) -> Instruction {
    Instruction::LoadImmediate { dest, value }
}

fn call(name: &str, base: u8, num_args: i16) -> Instruction {
    Instruction::CallInternal { ident: name.to_string(), base, num_args }
}

fn grow(count: i16) -> Instruction {
    Instruction::AllocRegisters { count }
}

fn integer(i: i64) -> Value {
    Value::Integer(i)
}

fn run_into_registers(instructions: Vec<Instruction>) -> Result<Vec<Value>, VmError> {
    let mut vm = Vm::new();
    vm.load(instructions);
    vm.run()?;
    Ok(vm.into_registers())
}

fn run_into_output(instructions: Vec<Instruction>) -> Result<String, VmError> {
    let mut vm = Vm::new();
    vm.load(instructions);
    vm.run()?;
    Ok(vm.output().clone())
}

fn pretty(values: &[Value]) -> String {
    format!("{:#?}", values)
}

#[test]
fn copy() {
    let r = run_into_registers(vec![grow(2), load(0, integer(22)), Instruction::Copy { dest: 1, src: 0 }]).unwrap();
    assert_eq!(pretty(&r), "[\n    Integer(\n        22,\n    ),\n    Integer(\n        22,\n    ),\n]");
}

#[test]
fn mod_basic_add() {
    let r = run_into_registers(vec![grow(2), load(0, integer(42)), load(1, integer(93)), call("+", 0, 2)]).unwrap();
    assert_eq!(pretty(&r), "[\n    Integer(\n        135,\n    ),\n    Integer(\n        93,\n    ),\n]");
}

#[test]
fn vm_basic_add() {
    let r = run_into_registers(vec![grow(2), load(0, integer(42)), load(1, integer(93)), call("+", 0, 2)]).unwrap();
    assert_eq!(pretty(&r), "[\n    Integer(\n        135,\n    ),\n    Integer(\n        93,\n    ),\n]");
}

#[test]
fn invalid_add() {
    let e = run_into_registers(vec![
        grow(2),
        load(0, Value::Boolean(true)),
        load(1, Value::String("abc".to_string())),
        call("+", 0, 2),
    ])
    .unwrap_err();
    assert!(format!("{:?}", e).contains("ExpectedType"));
}

#[test]
fn mod_subtract_and_add() {
    let r = run_into_registers(vec![
        grow(3),
        load(0, integer(22)),
        load(1, integer(100)),
        load(2, integer(89)),
        call("-", 1, 2),
        call("+", 0, 2),
    ])
    .unwrap();
    assert_eq!(
        pretty(&r),
        "[\n    Integer(\n        33,\n    ),\n    Integer(\n        11,\n    ),\n    Integer(\n        89,\n    ),\n]"
    );
}

#[test]
fn vm_subtract_and_add() {
    let r = run_into_registers(vec![
        grow(3),
        load(0, integer(22)),
        load(1, integer(100)),
        load(2, integer(89)),
        call("-", 1, 2),
        grow(-1),
        call("+", 0, 2),
    ])
    .unwrap();
    assert_eq!(pretty(&r), "[\n    Integer(\n        33,\n    ),\n    Integer(\n        11,\n    ),\n]");
}

#[test]
fn mod_unknown_internal_func_fails() {
    let e = run_into_registers(vec![call("unknown", 0, 0)]).unwrap_err();
    assert!(format!("{:?}", e).contains("UnknownInternal"));
}

#[test]
fn vm_unknown_internal_func_fails() {
    let e = run_into_registers(vec![grow(1), call("unknown", 0, 0)]).unwrap_err();
    let text = format!("{:?}", e);
    assert!(text.contains("UnknownInternal") && text.contains("pc: 1"), "{}", text);
}

#[test]
fn debug() {
    let list = Value::Cell(Box::new(Value::Identifier("abc".to_string())), Box::new(Value::Nil));
    let out = run_into_output(vec![
        grow(3),
        load(0, Value::String("blah".to_string())),
        load(1, integer(100)),
        load(2, list),
        call("debug", 0, 3),
    ])
    .unwrap();
    assert_eq!(out, "\"blah\" 100 (abc)\n");
}

#[test]
fn jump_if_basic() {
    let r = run_into_registers(vec![
        grow(3),
        load(0, Value::Boolean(true)),
        Instruction::JumpIf { cond: 0, distance: 1 },
        load(1, integer(1)),
        load(0, Value::Boolean(false)),
        Instruction::JumpIf { cond: 0, distance: 1 },
        load(2, integer(2)),
    ])
    .unwrap();
    assert_eq!(pretty(&r), "[\n    Boolean(\n        false,\n    ),\n    Nil,\n    Integer(\n        2,\n    ),\n]");
}

#[test]
fn jump_if_loop() {
    let r = run_into_registers(vec![
        grow(4),
        load(0, integer(0)),
        load(1, integer(1)),
        load(3, integer(10)),
        call("+", 0, 2),
        Instruction::Copy { dest: 2, src: 0 },
        call("<", 2, 2),
        Instruction::JumpIf { cond: 2, distance: -4 },
    ])
    .unwrap();
    assert_eq!(
        pretty(&r),
        "[\n    Integer(\n        10,\n    ),\n    Integer(\n        1,\n    ),\n    Boolean(\n        false,\n    ),\n    Integer(\n        10,\n    ),\n]"
    );
}

#[test]
fn call_keeps_registers_past_its_arguments() {
    let r = run_into_registers(vec![
        grow(4),
        load(0, integer(7)),
        load(1, integer(1)),
        load(2, integer(2)),
        load(3, integer(99)),
        call("+", 1, 2),
    ])
    .unwrap();
    assert_eq!(format!("{:?}", r), "[Integer(7), Integer(3), Integer(2), Integer(99)]");
}

#[test]
fn invalid_register_is_an_error() {
    let e = run_into_registers(vec![grow(1), load(3, integer(1))]).unwrap_err();
    assert!(format!("{:?}", e).contains("InvalidRegister(3)"));
}

#[test]
fn step_limit_stops_endless_loops() {
    let mut vm = Vm::new();
    vm.load(vec![grow(1), load(0, Value::Boolean(true)), Instruction::JumpIf { cond: 0, distance: -2 }]);
    let e = vm.run_for(50).unwrap_err();
    assert!(format!("{:?}", e).contains("StepLimit"));
}

#[test]
fn registers_windows() {
    let mut r = Registers::new();
    r.allocate(3);
    assert!(r.set(2, integer(5)));
    r.push_window_starting(1);
    assert_eq!(format!("{:?}", r.iter()), "[Nil, Integer(5)]");
    assert!(r.get(2).is_none());
    r.push_window(1);
    assert_eq!(format!("{:?}", r.iter()), "[Integer(5)]");
    r.pop_window();
    r.pop_window();
    assert_eq!(r.iter().len(), 3);
    r.allocate(-5);
    assert_eq!(r.into_values().len(), 0);
}
