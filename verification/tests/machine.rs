use lib::chunk::Chunk;
use lib::common::OpCode;
use lib::value::Value;
use lib::vm::{Action, ArithOp, RuntimeFault, Trap, STACK_MAX, VM};

fn number(x: f64) -> Value {
    Value::from_raw(x.to_bits())
}

fn as_number(v: Value) -> f64 {
    f64::from_bits(v.raw())
}

#[test]
fn adds_two_constants() {
    let mut chunk = Chunk::new();
    let a = chunk.add_constant(number(5.0));
    let b = chunk.add_constant(number(10.5));
    chunk.write(OpCode::Constant.to_byte());
    chunk.write(a);
    chunk.write(OpCode::Constant.to_byte());
    chunk.write(b);
    chunk.write(OpCode::Add.to_byte());
    chunk.write(OpCode::Return.to_byte());
    let mut vm = VM::new(chunk.code, chunk.constants);
    assert_eq!(vm.step(), Action::Continue);
    assert_eq!(vm.step(), Action::Continue);
    assert_eq!(vm.stack_depth(), 2);
    match vm.step() {
        Action::Arithmetic(ArithOp::Add, x, y) => {
            assert_eq!(as_number(x), 5.0);
            assert_eq!(as_number(y), 10.5);
            assert_eq!(vm.stack_depth(), 0);
            vm.push(number(as_number(x) + as_number(y)));
        }
        other => panic!("unexpected {:?}", other),
    }
    match vm.step() {
        Action::Halt(v) => assert_eq!(as_number(v), 15.5),
        other => panic!("unexpected {:?}", other),
    }
    assert_eq!(vm.stack_depth(), 0);
}

#[test]
fn constant_then_return_halts_with_the_constant() {
    let mut vm = VM::new(vec![0x01, 1, 0x0F], vec![number(1.0), Value::boolean(true)]);
    assert_eq!(vm.step(), Action::Continue);
    assert_eq!(vm.step(), Action::Halt(Value::boolean(true)));
    assert_eq!(vm.stack_depth(), 0);
}

#[test]
fn operands_are_handed_out_in_order() {
    for (byte, op) in [(0x04u8, ArithOp::Subtract), (0x05, ArithOp::Multiply), (0x06, ArithOp::Divide)] {
        let mut vm = VM::new(vec![0x01, 0, 0x01, 1, byte], vec![number(8.0), number(2.0)]);
        vm.step();
        vm.step();
        assert_eq!(vm.step(), Action::Arithmetic(op, number(8.0), number(2.0)));
    }
}

#[test]
fn add_with_a_non_number_is_a_runtime_error() {
    let mut vm = VM::new(vec![0x01, 0, 0x01, 1, 0x03], vec![number(1.0), Value::nil()]);
    vm.step();
    vm.step();
    assert_eq!(vm.step(), Action::Fault(RuntimeFault::OperandsMustBeNumbers));
    assert_eq!(RuntimeFault::OperandsMustBeNumbers.message(), "Operands must be numbers.");
    // the operands were popped before the check
    assert_eq!(vm.stack_depth(), 0);
}

#[test]
fn negate_checks_its_operand() {
    let mut vm = VM::new(vec![0x01, 0, 0x07], vec![Value::boolean(false)]);
    vm.step();
    assert_eq!(vm.step(), Action::Fault(RuntimeFault::OperandMustBeNumber));
    assert_eq!(RuntimeFault::OperandMustBeNumber.message(), "Operand must be a number.");
    // the operand stays on the stack
    assert_eq!(vm.stack_depth(), 1);

    let mut vm = VM::new(vec![0x01, 0, 0x07], vec![number(2.5)]);
    vm.step();
    assert_eq!(vm.step(), Action::Negate(number(2.5)));
    assert_eq!(vm.stack_depth(), 0);
}

#[test]
fn division_by_zero_is_a_runtime_error() {
    for zero in [0.0f64, -0.0] {
        let mut vm = VM::new(vec![0x01, 0, 0x01, 1, 0x06], vec![number(1.0), number(zero)]);
        vm.step();
        vm.step();
        assert_eq!(vm.step(), Action::Fault(RuntimeFault::DivisionByZero));
    }
    assert_eq!(RuntimeFault::DivisionByZero.message(), "Division by zero.");
}

#[test]
fn stack_underflow_is_a_runtime_error() {
    for code in [vec![0x03u8], vec![0x07], vec![0x0F], vec![0x01, 0, 0x04]] {
        let mut vm = VM::new(code.clone(), vec![number(1.0)]);
        let mut action = vm.step();
        if code.len() == 3 {
            action = vm.step();
        }
        assert_eq!(action, Action::Fault(RuntimeFault::StackUnderflow), "{:?}", code);
    }
    assert_eq!(RuntimeFault::StackUnderflow.message(), "Stack underflow.");
}

#[test]
fn unknown_opcode_is_a_runtime_error() {
    for byte in [0u8, 0x02, 0x08, 0x0E, 0x10, 0xFF] {
        let mut vm = VM::new(vec![byte], vec![]);
        assert_eq!(vm.step(), Action::Fault(RuntimeFault::UnknownOpcode(byte)));
        assert_eq!(vm.offset(), 1);
    }
    assert_eq!(RuntimeFault::UnknownOpcode(200).message(), "Unknown opcode.");
}

#[test]
fn traps() {
    let mut vm = VM::new(vec![], vec![]);
    assert_eq!(vm.step(), Action::Trap(Trap::CodeOverrun));
    let mut vm = VM::new(vec![0x01], vec![number(1.0)]);
    assert_eq!(vm.step(), Action::Trap(Trap::CodeOverrun));
    let mut vm = VM::new(vec![0x01, 3], vec![number(1.0)]);
    assert_eq!(vm.step(), Action::Trap(Trap::ConstantOutOfRange));
}

#[test]
fn stack_overflow_traps() {
    let mut code = Vec::new();
    for _ in 0..=STACK_MAX {
        code.push(0x01);
        code.push(0);
    }
    let mut vm = VM::new(code, vec![Value::nil()]);
    for _ in 0..STACK_MAX {
        assert_eq!(vm.step(), Action::Continue);
    }
    assert_eq!(vm.stack_depth(), STACK_MAX);
    assert_eq!(vm.step(), Action::Trap(Trap::StackOverflow));
}

#[test]
fn push_grows_the_stack() {
    let mut vm = VM::new(vec![0x0F], vec![]);
    vm.push(number(3.0));
    assert_eq!(vm.stack_depth(), 1);
    assert_eq!(vm.step(), Action::Halt(number(3.0)));
}

#[test]
fn push_then_pop_gives_the_value_back() {
    let mut vm = VM::new(vec![], vec![]);
    vm.push(number(1.0));
    vm.push(Value::nil());
    vm.push(number(2.0));
    assert_eq!(vm.pop(), number(2.0));
    assert_eq!(vm.stack_depth(), 2);
    assert_eq!(vm.pop(), Value::nil());
    assert_eq!(vm.pop(), number(1.0));
    assert_eq!(vm.stack_depth(), 0);
}

#[test]
fn offset_follows_the_instruction_pointer() {
    let mut vm = VM::new(vec![0x01, 0, 0x07, 0x0F], vec![Value::nil()]);
    assert_eq!(vm.offset(), 0);
    vm.step();
    assert_eq!(vm.offset(), 2);
    assert_eq!(vm.step(), Action::Fault(RuntimeFault::OperandMustBeNumber));
    assert_eq!(vm.offset(), 3);
}

/// Runs the machine as the command-line driver does, with IEEE arithmetic.
fn run(vm: &mut VM) -> Action {
    loop {
        match vm.step() {
            Action::Continue => {}
            Action::Arithmetic(op, a, b) => {
                let (x, y) = (as_number(a), as_number(b));
                let r = match op {
                    ArithOp::Add => x + y,
                    ArithOp::Subtract => x - y,
                    ArithOp::Multiply => x * y,
                    ArithOp::Divide => x / y,
                };
                vm.push(number(r));
            }
            Action::Negate(v) => vm.push(number(-as_number(v))),
            other => return other,
        }
    }
}

#[test]
fn whole_program_computes_the_reference_result() {
    // -((1.5 + 2.5) * 3 - 4) / 2 == -4
    let code = vec![
        0x01, 0, 0x01, 1, 0x03, 0x01, 2, 0x05, 0x01, 3, 0x04, 0x07, 0x01, 4, 0x06, 0x0F,
    ];
    let constants = vec![number(1.5), number(2.5), number(3.0), number(4.0), number(2.0)];
    let mut vm = VM::new(code, constants);
    assert_eq!(run(&mut vm), Action::Halt(number(-4.0)));
}

#[test]
fn a_run_without_return_ends_by_trapping() {
    let mut vm = VM::new(vec![0x01, 0, 0x01, 0, 0x03], vec![number(1.0)]);
    assert_eq!(run(&mut vm), Action::Trap(Trap::CodeOverrun));
}
