//! A stack machine with gas metering, for contract code.
use vstd::prelude::*;
use std::collections::HashMap;
use crate::state::State;

verus! {

broadcast use {vstd::std_specs::hash::group_hash_axioms, vstd::string::group_string_axioms};

/// An instruction of the machine.
#[derive(Debug, Clone, Copy, PartialEq, Eq, Structural)]
pub enum Opcode {
    Add,
    Sub,
    Mul,
    Div,
    Push(u64),
    Pop,
    Dup(usize),
    Load(u64),
    Store(u64),
    Jump(usize),
    JumpIfZero(usize),
    Call(usize),
    Return,
    Halt,
}

/// A machine: program counter, memory, operand stack, code, and gas.
pub struct VM {
    pub pc: usize,
    pub memory: HashMap<u64, u64>,
    pub stack: Vec<u64>,
    pub state: State,
    pub code: Vec<Opcode>,
    pub gas_limit: u64,
    pub gas_used: u64,
}

/// A machine as a mathematical value (all but the ledger state, which it does not touch).
pub struct Machine {
    pub pc: usize,
    pub memory: Map<u64, u64>,
    pub stack: Seq<u64>,
    pub code: Seq<Opcode>,
    pub gas_limit: u64,
    pub gas_used: u64,
}

impl View for VM {
    type V = Machine;

    open spec fn view(&self) -> Machine {
        Machine {
            pc: self.pc,
            memory: self.memory@,
            stack: self.stack@,
            code: self.code@,
            gas_limit: self.gas_limit,
            gas_used: self.gas_used,
        }
    }
}

/// Why a run stops with an error.
pub enum VmError {
    OutOfGas,
    StackUnderflow,
    MemoryReadError,
    DupOutOfBounds,
    DivisionByZero,
}

/// The message that `VM::run` returns for each error.
pub open spec fn vm_error_message(e: VmError) -> Seq<char> {
    match e {
        VmError::OutOfGas => "Out of gas"@,
        VmError::StackUnderflow => "Stack underflow"@,
        VmError::MemoryReadError => "Memory read error"@,
        VmError::DupOutOfBounds => "Duplication index out of bounds"@,
        VmError::DivisionByZero => "Division by zero"@,
    }
}

/// What one instruction does to a machine.
pub enum Step {
    /// The run goes on from this machine.
    Next(Machine),
    /// The run stops here, successfully.
    Halted(Machine),
    /// The run stops here with an error.
    Failed(Machine, VmError),
    /// The instruction cannot be carried out within the machine's integer range.
    Overflows,
}

/// The four arithmetic instructions.
pub open spec fn arithmetic(op: Opcode, a: u64, b: u64) -> u64 {
    match op {
        Opcode::Add => vstd::wrapping::u64_specs::wrapping_add(a, b),
        Opcode::Sub => vstd::wrapping::u64_specs::wrapping_sub(a, b),
        Opcode::Mul => vstd::wrapping::u64_specs::wrapping_mul(a, b),
        _ => a / b,
    }
}

/// An arithmetic instruction: pops `b`, then `a`, and pushes `a op b` (division by zero
/// fails after both pops).
pub open spec fn binary_step(m: Machine, op: Opcode) -> Step {
    if m.stack.len() == 0 {
        Step::Failed(m, VmError::StackUnderflow)
    } else {
        let b = m.stack.last();
        let s1 = m.stack.drop_last();
        if s1.len() == 0 {
            Step::Failed(Machine { stack: s1, ..m }, VmError::StackUnderflow)
        } else {
            let a = s1.last();
            let s2 = s1.drop_last();
            if op == Opcode::Div && b == 0 {
                Step::Failed(Machine { stack: s2, ..m }, VmError::DivisionByZero)
            } else {
                Step::Next(
                    Machine { stack: s2.push(arithmetic(op, a, b)), pc: (m.pc + 1) as usize, ..m },
                )
            }
        }
    }
}

/// The instruction at `m.pc` carried out on `m` (gas already charged).
pub open spec fn instruction_step(m: Machine) -> Step {
    let next_pc = (m.pc + 1) as usize;
    match m.code[m.pc as int] {
        Opcode::Push(v) => Step::Next(Machine { stack: m.stack.push(v), pc: next_pc, ..m }),
        Opcode::Pop => if m.stack.len() == 0 {
            Step::Failed(m, VmError::StackUnderflow)
        } else {
            Step::Next(Machine { stack: m.stack.drop_last(), pc: next_pc, ..m })
        },
        Opcode::Add => binary_step(m, Opcode::Add),
        Opcode::Sub => binary_step(m, Opcode::Sub),
        Opcode::Mul => binary_step(m, Opcode::Mul),
        Opcode::Div => binary_step(m, Opcode::Div),
        Opcode::Store(key) => if m.stack.len() == 0 {
            Step::Failed(m, VmError::StackUnderflow)
        } else {
            Step::Next(
                Machine {
                    stack: m.stack.drop_last(),
                    memory: m.memory.insert(key, m.stack.last()),
                    pc: next_pc,
                    ..m
                },
            )
        },
        Opcode::Load(key) => if !m.memory.contains_key(key) {
            Step::Failed(m, VmError::MemoryReadError)
        } else {
            Step::Next(Machine { stack: m.stack.push(m.memory[key]), pc: next_pc, ..m })
        },
        Opcode::Jump(target) => Step::Next(Machine { pc: target, ..m }),
        Opcode::JumpIfZero(target) => if m.stack.len() == 0 {
            Step::Failed(m, VmError::StackUnderflow)
        } else if m.stack.last() == 0 {
            Step::Next(Machine { stack: m.stack.drop_last(), pc: target, ..m })
        } else {
            Step::Next(Machine { stack: m.stack.drop_last(), pc: next_pc, ..m })
        },
        Opcode::Dup(offset) => if offset == usize::MAX {
            Step::Overflows
        } else if offset + 1 > m.stack.len() {
            Step::Failed(m, VmError::DupOutOfBounds)
        } else {
            Step::Next(
                Machine {
                    stack: m.stack.push(m.stack[m.stack.len() - (offset + 1)]),
                    pc: next_pc,
                    ..m
                },
            )
        },
        Opcode::Call(target) => Step::Next(
            Machine { stack: m.stack.push(m.pc as u64), pc: target, ..m },
        ),
        Opcode::Return => if m.stack.len() == 0 {
            Step::Failed(m, VmError::StackUnderflow)
        } else {
            Step::Next(Machine { stack: m.stack.drop_last(), pc: m.stack.last() as usize, ..m })
        },
        Opcode::Halt => Step::Halted(m),
    }
}

/// One cycle of the machine at an instruction: one unit of gas is charged, the run fails
/// when the gas used exceeds the limit, and otherwise the instruction is carried out.
pub open spec fn cycle(m: Machine) -> Step {
    if m.gas_used == u64::MAX {
        Step::Overflows
    } else {
        let charged = Machine { gas_used: (m.gas_used + 1) as u64, ..m };
        if charged.gas_used > charged.gas_limit {
            Step::Failed(charged, VmError::OutOfGas)
        } else {
            instruction_step(charged)
        }
    }
}

/// The gas that is left to spend.
pub open spec fn gas_left(m: Machine) -> int {
    if m.gas_used <= m.gas_limit {
        m.gas_limit - m.gas_used + 1
    } else {
        0
    }
}

/// The machine in which a run from `m` stops, and how it stops: successfully when the
/// program counter leaves the code or at `Halt`, or with an error.
pub open spec fn run_machine(m: Machine) -> (Machine, Result<(), VmError>)
    decreases gas_left(m),
{
    if m.pc >= m.code.len() {
        (m, Ok(()))
    } else {
        match cycle(m) {
            Step::Next(n) => {
                proof {
                    lemma_cycle_spends_gas(m);
                }
                run_machine(n)
            },
            Step::Halted(n) => (n, Ok(())),
            Step::Failed(n, e) => (n, Err(e)),
            Step::Overflows => (m, Ok(())),
        }
    }
}

/// A run from `m` reaches an instruction that cannot be carried out within the machine's
/// integer range (`Dup(usize::MAX)`, or a gas counter at `u64::MAX`).
pub open spec fn run_overflows(m: Machine) -> bool
    decreases gas_left(m),
{
    if m.pc >= m.code.len() {
        false
    } else {
        match cycle(m) {
            Step::Next(n) => {
                proof {
                    lemma_cycle_spends_gas(m);
                }
                run_overflows(n)
            },
            Step::Overflows => true,
            _ => false,
        }
    }
}

pub proof fn lemma_cycle_spends_gas(m: Machine)
    requires
        m.pc < m.code.len(),
        cycle(m) is Next,
    ensures
        gas_left(cycle(m)->Next_0) < gas_left(m),
        cycle(m)->Next_0.gas_used == m.gas_used + 1,
        cycle(m)->Next_0.gas_limit == m.gas_limit,
        cycle(m)->Next_0.code == m.code,
{
}

/// Gas metering: a run from a machine within its gas limit charges one unit of gas per
/// instruction carried out, never more than the limit plus the one unit that finds it
/// exhausted; a run that ends well stays within the limit, and one that goes past it
/// ends with `OutOfGas`. The code and the limit are never changed.
pub proof fn lemma_gas_metering(m: Machine)
    requires
        m.gas_used <= m.gas_limit,
        !run_overflows(m),
    ensures
        run_machine(m).0.code == m.code,
        run_machine(m).0.gas_limit == m.gas_limit,
        m.gas_used <= run_machine(m).0.gas_used <= m.gas_limit + 1,
        run_machine(m).1 is Ok ==> run_machine(m).0.gas_used <= m.gas_limit,
        run_machine(m).0.gas_used == m.gas_limit + 1 ==> run_machine(m).1 == Err::<(), VmError>(
            VmError::OutOfGas,
        ),
    decreases gas_left(m),
{
    if m.pc < m.code.len() {
        match cycle(m) {
            Step::Next(n) => {
                lemma_cycle_spends_gas(m);
                lemma_gas_metering(n);
            },
            _ => {},
        }
    }
}

/// The machine after one cycle `r` keeps the code and the limit of `m` and has spent
/// exactly one more unit of gas.
pub open spec fn charged_once(m: Machine, r: Machine) -> bool {
    &&& r.code == m.code
    &&& r.gas_limit == m.gas_limit
    &&& r.gas_used == m.gas_used + 1
}

/// The machine before the cycle can pay for it.
pub open spec fn can_pay(m: Machine) -> bool {
    m.pc < m.code.len() <= usize::MAX && m.gas_used < m.gas_limit
}

/// The machine `m` with one more unit of gas used.
pub open spec fn charge(m: Machine) -> Machine {
    Machine { gas_used: (m.gas_used + 1) as u64, ..m }
}

proof fn lemma_paid_cycle(m: Machine)
    requires
        can_pay(m),
    ensures
        cycle(m) == instruction_step(charge(m)),
        charge(m).code == m.code,
        charge(m).pc == m.pc,
        charge(m).stack == m.stack,
        charge(m).memory == m.memory,
        charged_once(m, charge(m)),
{
}

/// Gas: a cycle at an instruction when the gas used has reached the limit fails with
/// `OutOfGas` after charging; otherwise the cycle is paid with exactly one unit.
pub proof fn lemma_cycle_gas(m: Machine)
    requires
        m.pc < m.code.len(),
        m.gas_used < u64::MAX,
    ensures
        m.gas_used >= m.gas_limit ==> (cycle(m) matches Step::Failed(r, e) && e == VmError::OutOfGas
            && r.gas_used == m.gas_used + 1 && r.stack == m.stack && r.memory == m.memory),
        m.gas_used < m.gas_limit ==> match cycle(m) {
            Step::Next(r) => charged_once(m, r),
            Step::Halted(r) => charged_once(m, r),
            Step::Failed(r, _) => charged_once(m, r),
            Step::Overflows => true,
        },
{
}

/// `Dup(k)` copies the element `k` places below the top of the stack onto the top (so
/// `Dup(0)` copies the top), and fails when the stack holds no more than `k` elements.
pub proof fn lemma_dup_copies_from_top(m: Machine, k: usize)
    requires
        can_pay(m),
        m.code[m.pc as int] == Opcode::Dup(k),
        k < usize::MAX,
    ensures
        k < m.stack.len() ==> (cycle(m) matches Step::Next(r) && {
            &&& charged_once(m, r)
            &&& r.stack.len() == m.stack.len() + 1
            &&& r.stack.drop_last() == m.stack
            &&& r.stack.last() == m.stack[m.stack.len() - 1 - k]
            &&& r.stack.reverse()[0] == m.stack.reverse()[k as int]
            &&& (k == 0 ==> r.stack.last() == m.stack.last())
            &&& r.memory == m.memory
            &&& r.pc == m.pc + 1
        }),
        k >= m.stack.len() ==> (cycle(m) matches Step::Failed(r, e) && e == VmError::DupOutOfBounds
            && r.stack == m.stack),
{
    lemma_paid_cycle(m);
    let c = charge(m);
    if k < m.stack.len() {
        let v = m.stack[m.stack.len() - (k + 1)];
        let r = Machine { stack: m.stack.push(v), pc: (m.pc + 1) as usize, ..c };
        assert(instruction_step(c) == Step::Next(r));
        assert(r.stack.drop_last() =~= m.stack);
        assert(r.stack.reverse()[0] == r.stack[r.stack.len() - 1]);
        assert(m.stack.reverse()[k as int] == m.stack[m.stack.len() - 1 - k]);
    } else {
        assert(instruction_step(c) == Step::Failed(c, VmError::DupOutOfBounds));
    }
}

/// The machine that an arithmetic instruction leaves on success: `b` (the top) and `a`
/// (just below it) replaced by `v`, at the next position, memory untouched.
pub open spec fn arithmetic_result(m: Machine, r: Machine, v: int) -> bool {
    let n = m.stack.len();
    &&& charged_once(m, r)
    &&& r.stack == m.stack.subrange(0, n - 2).push(v as u64)
    &&& r.pc == m.pc + 1
    &&& r.memory == m.memory
}

/// The arithmetic instructions take `b` from the top of the stack and `a` from just below
/// it, and leave `a + b`, `a - b`, `a * b` (all modulo 2^64) or `a / b` in their place;
/// dividing by zero fails with both operands removed.
pub proof fn lemma_arithmetic_operands(m: Machine, op: Opcode)
    requires
        can_pay(m),
        m.stack.len() >= 2,
        m.code[m.pc as int] == op,
    ensures
        ({
            let n = m.stack.len();
            let a = m.stack[n - 2];
            let b = m.stack[n - 1];
            &&& op == Opcode::Add ==> (cycle(m) matches Step::Next(r) && arithmetic_result(
                m,
                r,
                (a + b) % 0x1_0000_0000_0000_0000,
            ))
            &&& op == Opcode::Sub ==> (cycle(m) matches Step::Next(r) && arithmetic_result(
                m,
                r,
                (a - b + 0x1_0000_0000_0000_0000) % 0x1_0000_0000_0000_0000,
            ))
            &&& op == Opcode::Mul ==> (cycle(m) matches Step::Next(r) && arithmetic_result(
                m,
                r,
                (a * b) % 0x1_0000_0000_0000_0000,
            ))
            &&& op == Opcode::Div && b != 0 ==> (cycle(m) matches Step::Next(r)
                && arithmetic_result(m, r, (a / b) as int))
            &&& op == Opcode::Div && b == 0 ==> (cycle(m) matches Step::Failed(r, e) && e
                == VmError::DivisionByZero && r.stack == m.stack.subrange(0, n - 2))
        }),
{
    let n = m.stack.len();
    let a = m.stack[n - 2];
    let b = m.stack[n - 1];
    assert(m.stack.drop_last().drop_last() =~= m.stack.subrange(0, n - 2));
    assert(m.stack.drop_last().last() == a);
    let c = Machine { gas_used: (m.gas_used + 1) as u64, ..m };
    assert(cycle(m) == instruction_step(c));
    if op == Opcode::Add {
        let w = vstd::wrapping::u64_specs::wrapping_add(a, b);
        assert(w == (a + b) % 0x1_0000_0000_0000_0000) by (nonlinear_arith)
            requires
                w == (if a + b > u64::MAX { a + b - 0x1_0000_0000_0000_0000 } else { a + b }),
                a <= u64::MAX,
                b <= u64::MAX,
        ;
        assert(((a + b) % 0x1_0000_0000_0000_0000) as u64 == w);
    } else if op == Opcode::Sub {
        let w = vstd::wrapping::u64_specs::wrapping_sub(a, b);
        assert(w == (a - b + 0x1_0000_0000_0000_0000) % 0x1_0000_0000_0000_0000) by (nonlinear_arith)
            requires
                w == (if a - b < 0 { a - b + 0x1_0000_0000_0000_0000 } else { a - b }),
                0 <= a <= u64::MAX,
                0 <= b <= u64::MAX,
        ;
        assert(((a - b + 0x1_0000_0000_0000_0000) % 0x1_0000_0000_0000_0000) as u64 == w);
    } else if op == Opcode::Mul {
        let w = vstd::wrapping::u64_specs::wrapping_mul(a, b);
        assert(((a * b) % 0x1_0000_0000_0000_0000) as u64 == w);
    }
}

/// Every instruction that takes an operand from the stack fails with `StackUnderflow` on
/// an empty stack, and the arithmetic ones also on a stack of one element.
pub proof fn lemma_underflow(m: Machine)
    requires
        can_pay(m),
    ensures
        ({
            let op = m.code[m.pc as int];
            let takes_one = op == Opcode::Pop || op is Store || op is JumpIfZero || op
                == Opcode::Return;
            let takes_two = op == Opcode::Add || op == Opcode::Sub || op == Opcode::Mul || op
                == Opcode::Div;
            &&& (takes_one || takes_two) && m.stack.len() == 0 ==> (cycle(m) matches Step::Failed(
                _,
                e,
            ) && e == VmError::StackUnderflow)
            &&& takes_two && m.stack.len() == 1 ==> (cycle(m) matches Step::Failed(r, e) && e
                == VmError::StackUnderflow && r.stack.len() == 0)
        }),
{
}

/// Stack, memory and control: `Push(v)` pushes `v`; `Pop` drops the top; `Store(k)` moves
/// the top into memory at `k`; `Load(k)` pushes the memory at `k`, and fails when nothing
/// was stored there; `Jump(t)` goes to `t`; `JumpIfZero(t)` drops the top and goes to `t`
/// exactly when it was 0; `Call(t)` pushes its own position and goes to `t`; `Return`
/// drops the top and goes to the position it holds; `Halt` stops. Every instruction but
/// these jumps goes on at the next position.
pub proof fn lemma_instruction_effects(m: Machine)
    requires
        can_pay(m),
    ensures
        ({
            let s = m.stack;
            let n = s.len();
            let next = |r: Machine| charged_once(m, r) && r.pc == m.pc + 1;
            &&& forall|v: u64| m.code[m.pc as int] == Opcode::Push(v) ==> (cycle(m) matches Step::Next(r)
                && next(r) && r.stack == s.push(v) && r.memory == m.memory)
            &&& m.code[m.pc as int] == Opcode::Pop && n > 0 ==> (cycle(m) matches Step::Next(r)
                && next(r) && r.stack == s.subrange(0, n - 1) && r.memory == m.memory)
            &&& forall|k: u64| m.code[m.pc as int] == Opcode::Store(k) && n > 0 ==> (cycle(m) matches Step::Next(r)
                && next(r) && r.stack == s.subrange(0, n - 1) && r.memory.contains_key(k)
                && r.memory[k] == s[n - 1] && (forall|j: u64| j != k ==> r.memory.contains_key(j)
                == m.memory.contains_key(j) && r.memory[j] == m.memory[j]))
            &&& forall|k: u64| m.code[m.pc as int] == Opcode::Load(k) ==> (if m.memory.contains_key(k) {
                cycle(m) matches Step::Next(r) && next(r) && r.stack == s.push(m.memory[k])
                    && r.memory == m.memory
            } else {
                cycle(m) matches Step::Failed(r, e) && e == VmError::MemoryReadError && r.stack == s
            })
            &&& forall|t: usize| m.code[m.pc as int] == Opcode::Jump(t) ==> (cycle(m) matches Step::Next(r)
                && charged_once(m, r) && r.pc == t && r.stack == s && r.memory == m.memory)
            &&& forall|t: usize| m.code[m.pc as int] == Opcode::JumpIfZero(t) && n > 0 ==> (cycle(m) matches Step::Next(r)
                && charged_once(m, r) && r.stack == s.subrange(0, n - 1) && r.memory == m.memory
                && r.pc == (if s[n - 1] == 0 { t as int } else { m.pc + 1 }))
            &&& forall|t: usize| m.code[m.pc as int] == Opcode::Call(t) ==> (cycle(m) matches Step::Next(r)
                && charged_once(m, r) && r.pc == t && r.stack == s.push(m.pc as u64)
                && r.memory == m.memory)
            &&& m.code[m.pc as int] == Opcode::Return && n > 0 ==> (cycle(m) matches Step::Next(r)
                && charged_once(m, r) && r.pc == s[n - 1] as usize && r.stack == s.subrange(0, n - 1)
                && r.memory == m.memory)
            &&& m.code[m.pc as int] == Opcode::Halt ==> (cycle(m) matches Step::Halted(r)
                && charged_once(m, r) && r.pc == m.pc && r.stack == s && r.memory == m.memory)
        }),
{
}

/// A run stops as the run from the next machine does: when the program counter is inside
/// the code and the cycle goes on, the run from `m` ends where the run from the machine
/// after the cycle ends.
pub proof fn lemma_run_continues(m: Machine)
    requires
        m.pc < m.code.len(),
        cycle(m) is Next,
    ensures
        run_machine(m) == run_machine(cycle(m)->Next_0),
        run_overflows(m) == run_overflows(cycle(m)->Next_0),
{
}

/// How a run ends: at once and successfully when the program counter is outside the code;
/// with the machine and the error of a failing cycle; successfully at `Halt`.
pub proof fn lemma_run_stops(m: Machine)
    ensures
        m.pc >= m.code.len() ==> run_machine(m) == (m, Ok::<(), VmError>(())),
        m.pc < m.code.len() ==> match cycle(m) {
            Step::Failed(r, e) => run_machine(m) == (r, Err::<(), VmError>(e)),
            Step::Halted(r) => run_machine(m) == (r, Ok::<(), VmError>(())),
            _ => true,
        },
{
}

/// The errors of a run are told apart by their messages.
pub proof fn lemma_vm_error_messages()
    ensures
        vm_error_message(VmError::OutOfGas) == "Out of gas"@,
        vm_error_message(VmError::StackUnderflow) == "Stack underflow"@,
        vm_error_message(VmError::MemoryReadError) == "Memory read error"@,
        vm_error_message(VmError::DupOutOfBounds) == "Duplication index out of bounds"@,
        vm_error_message(VmError::DivisionByZero) == "Division by zero"@,
{
}

impl VM {
    /// A machine at instruction 0 with empty memory and stack and no gas used.
    pub fn new(code: Vec<Opcode>, state: State, gas_limit: u64) -> (vm: Self)
        ensures
            vm@ == (Machine {
                pc: 0,
                memory: Map::empty(),
                stack: Seq::empty(),
                code: code@,
                gas_limit,
                gas_used: 0,
            }),
            vm.state == state,
    {
        VM { pc: 0, memory: HashMap::new(), stack: Vec::new(), state, code, gas_limit, gas_used: 0 }
    }

    /// Runs the program from the current machine until the program counter leaves the
    /// code, `Halt` is reached, or an error stops it (see `run_machine`).
    pub fn run(&mut self) -> (r: Result<(), String>)
        requires
            !run_overflows(old(self)@),
        ensures
            final(self)@ == run_machine(old(self)@).0,
            final(self).state == old(self).state,
            match run_machine(old(self)@).1 {
                Ok(()) => r is Ok,
                Err(e) => r matches Err(msg) && msg@ == vm_error_message(e),
            },
    {
        loop
            invariant
                run_machine(self@) == run_machine(old(self)@),
                !run_overflows(self@),
                self.state == old(self).state,
            decreases gas_left(self@),
        {
            let ghost m = self@;
            if self.pc >= self.code.len() {
                return Ok(());
            }
            proof {
                assert(cycle(m) !is Overflows);
            }
            self.gas_used = self.gas_used + 1;
            if self.gas_used > self.gas_limit {
                return Err("Out of gas".to_string());
            }
            let ghost charged = self@;
            assert(cycle(m) == instruction_step(charged));
            match self.code[self.pc] {
                Opcode::Push(value) => {
                    self.stack.push(value);
                },
                Opcode::Pop => {
                    if self.stack.pop().is_none() {
                        return Err("Stack underflow".to_string());
                    }
                },
                Opcode::Add => {
                    let b = match self.stack.pop() {
                        Some(v) => v,
                        None => {
                            return Err("Stack underflow".to_string());
                        },
                    };
                    let a = match self.stack.pop() {
                        Some(v) => v,
                        None => {
                            return Err("Stack underflow".to_string());
                        },
                    };
                    self.stack.push(a.wrapping_add(b));
                },
                Opcode::Sub => {
                    let b = match self.stack.pop() {
                        Some(v) => v,
                        None => {
                            return Err("Stack underflow".to_string());
                        },
                    };
                    let a = match self.stack.pop() {
                        Some(v) => v,
                        None => {
                            return Err("Stack underflow".to_string());
                        },
                    };
                    self.stack.push(a.wrapping_sub(b));
                },
                Opcode::Mul => {
                    let b = match self.stack.pop() {
                        Some(v) => v,
                        None => {
                            return Err("Stack underflow".to_string());
                        },
                    };
                    let a = match self.stack.pop() {
                        Some(v) => v,
                        None => {
                            return Err("Stack underflow".to_string());
                        },
                    };
                    self.stack.push(a.wrapping_mul(b));
                },
                Opcode::Store(key) => {
                    let value = match self.stack.pop() {
                        Some(v) => v,
                        None => {
                            return Err("Stack underflow".to_string());
                        },
                    };
                    self.memory.insert(key, value);
                },
                Opcode::Load(key) => {
                    let value = match self.memory.get(&key) {
                        Some(v) => *v,
                        None => {
                            return Err("Memory read error".to_string());
                        },
                    };
                    self.stack.push(value);
                },
                Opcode::Jump(target) => {
                    self.pc = target;
                    continue;
                },
                Opcode::JumpIfZero(target) => {
                    let condition = match self.stack.pop() {
                        Some(v) => v,
                        None => {
                            return Err("Stack underflow".to_string());
                        },
                    };
                    if condition == 0 {
                        self.pc = target;
                        continue;
                    }
                },
                Opcode::Dup(offset) => {
                    let idx = match self.stack.len().checked_sub(offset + 1) {
                        Some(i) => i,
                        None => {
                            return Err("Duplication index out of bounds".to_string());
                        },
                    };
                    let value = self.stack[idx];
                    self.stack.push(value);
                },
                Opcode::Div => {
                    let b = match self.stack.pop() {
                        Some(v) => v,
                        None => {
                            return Err("Stack underflow".to_string());
                        },
                    };
                    let a = match self.stack.pop() {
                        Some(v) => v,
                        None => {
                            return Err("Stack underflow".to_string());
                        },
                    };
                    if b == 0 {
                        return Err("Division by zero".to_string());
                    }
                    self.stack.push(a / b);
                },
                Opcode::Call(target) => {
                    self.stack.push(self.pc as u64);
                    self.pc = target;
                    continue;
                },
                Opcode::Return => {
                    let target = match self.stack.pop() {
                        Some(v) => v,
                        None => {
                            return Err("Stack underflow".to_string());
                        },
                    };
                    self.pc = target as usize;
                    continue;
                },
                Opcode::Halt => {
                    return Ok(());
                },
            }
            self.pc = self.pc + 1;
        }
    }
}

} // verus!
