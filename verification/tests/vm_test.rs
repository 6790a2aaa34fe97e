use tiny_l1::state::State;
use tiny_l1::vm::{Opcode, VM};

fn run(code: Vec<Opcode>, gas: u64) -> (VM, Result<(), String>) {
    let mut vm = VM::new(code, State::new(), gas);
    let r = vm.run();
    (vm, r)
}

#[test]
fn arithmetic_wraps() {
    let (vm, r) = run(vec![Opcode::Push(0), Opcode::Push(1), Opcode::Sub], 10);
    assert_eq!(r, Ok(()));
    assert_eq!(vm.stack, vec![u64::MAX]);
    let (vm, _) = run(vec![Opcode::Push(u64::MAX), Opcode::Push(2), Opcode::Add], 10);
    assert_eq!(vm.stack, vec![1]);
    let (vm, _) = run(vec![Opcode::Push(1 << 63), Opcode::Push(2), Opcode::Mul], 10);
    assert_eq!(vm.stack, vec![0]);
    let (vm, _) = run(vec![Opcode::Push(7), Opcode::Push(2), Opcode::Div], 10);
    assert_eq!(vm.stack, vec![3]);
}

#[test]
fn out_of_gas_after_the_limit() {
    let (vm, r) = run(vec![Opcode::Push(1), Opcode::Push(2), Opcode::Push(3)], 2);
    assert_eq!(r, Err("Out of gas".to_string()));
    assert_eq!(vm.gas_used, 3);
    assert_eq!(vm.stack, vec![1, 2]);
    let (vm, r) = run(vec![Opcode::Jump(0)], 5);
    assert_eq!(r, Err("Out of gas".to_string()));
    assert_eq!(vm.gas_used, 6);
}

#[test]
fn each_error_has_its_message() {
    assert_eq!(run(vec![Opcode::Pop], 10).1, Err("Stack underflow".to_string()));
    assert_eq!(run(vec![Opcode::Push(1), Opcode::Add], 10).1, Err("Stack underflow".to_string()));
    assert_eq!(run(vec![Opcode::Load(3)], 10).1, Err("Memory read error".to_string()));
    assert_eq!(run(vec![Opcode::Dup(0)], 10).1, Err("Duplication index out of bounds".to_string()));
    assert_eq!(
        run(vec![Opcode::Push(1), Opcode::Push(0), Opcode::Div], 10).1,
        Err("Division by zero".to_string())
    );
    assert_eq!(run(vec![Opcode::Return], 10).1, Err("Stack underflow".to_string()));
    assert_eq!(run(vec![Opcode::JumpIfZero(0)], 10).1, Err("Stack underflow".to_string()));
}

#[test]
fn division_pops_both_operands_before_failing() {
    let (vm, r) = run(vec![Opcode::Push(9), Opcode::Push(1), Opcode::Push(0), Opcode::Div], 10);
    assert!(r.is_err());
    assert_eq!(vm.stack, vec![9]);
}

#[test]
fn halt_stops_and_charges_gas() {
    let (vm, r) = run(vec![Opcode::Push(4), Opcode::Halt, Opcode::Push(5)], 10);
    assert_eq!(r, Ok(()));
    assert_eq!(vm.stack, vec![4]);
    assert_eq!(vm.pc, 1);
    assert_eq!(vm.gas_used, 2);
}

#[test]
fn call_pushes_the_caller_and_return_jumps_back() {
    // 0: Call(3), 1: Push(10), 2: Halt, 3: Return
    // Call pushes its own position, so Return goes back to the Call itself, which calls
    // again until the gas runs out.
    let (vm, r) = run(vec![Opcode::Call(3), Opcode::Push(10), Opcode::Halt, Opcode::Return], 10);
    assert_eq!(r, Err("Out of gas".to_string()));
    assert_eq!(vm.stack.len(), 0);
    assert_eq!(vm.gas_used, 11);
    let (vm, r) = run(vec![Opcode::Call(2), Opcode::Halt, Opcode::Halt], 10);
    assert_eq!(r, Ok(()));
    assert_eq!(vm.stack, vec![0]);
    assert_eq!(vm.pc, 2);
    let (vm, r) = run(vec![Opcode::Push(2), Opcode::Return, Opcode::Push(7)], 10);
    assert_eq!(r, Ok(()));
    assert_eq!(vm.stack, vec![7]);
}

#[test]
fn store_load_dup_and_conditional_jump() {
    let code = vec![
        Opcode::Push(5),
        Opcode::Store(1),
        Opcode::Load(1),
        Opcode::Dup(0),
        Opcode::Push(0),
        Opcode::JumpIfZero(7),
        Opcode::Push(99),
        Opcode::Push(1),
        Opcode::JumpIfZero(0),
    ];
    let (vm, r) = run(code, 20);
    assert_eq!(r, Ok(()));
    assert_eq!(vm.memory.get(&1), Some(&5));
    assert_eq!(vm.stack, vec![5, 5]);
    assert_eq!(vm.pc, 9);
}

#[test]
fn pc_past_the_code_ends_the_run() {
    let mut vm = VM::new(vec![Opcode::Pop], State::new(), 0);
    vm.pc = 5;
    assert_eq!(vm.run(), Ok(()));
    assert_eq!(vm.gas_used, 0);
}
