use vstd::prelude::*;

use crate::common::{opcode_byte, opcode_of, OpCode};
use crate::value::{bits_is_number, nil_bits, Value};

verus! {

/// Maximum stack size; the stack is allocated once, with this many slots.
pub const STACK_MAX: usize = 256;

/// Possible outcomes of the VM execution.
#[derive(Debug, Clone, Copy, PartialEq, Eq, Structural)]
pub enum InterpretResult {
    /// Execution returned normally.
    Success,
    CompileError,
    RuntimeError,
}

/// The arithmetic that a binary instruction asks for.
#[derive(Debug, Clone, Copy, PartialEq, Eq, Structural)]
pub enum ArithOp {
    Add,
    Subtract,
    Multiply,
    Divide,
}

/// The runtime errors that the VM reports (as `InterpretResult::RuntimeError`).
#[derive(Debug, Clone, Copy, PartialEq, Eq, Structural)]
pub enum RuntimeFault {
    /// A binary instruction found an operand that is not a number.
    OperandsMustBeNumbers,
    /// `Negate` found an operand that is not a number.
    OperandMustBeNumber,
    /// An instruction needed more operands than the stack holds.
    StackUnderflow,
    /// `Divide` with a divisor of positive or negative zero.
    DivisionByZero,
    /// A byte that is no opcode stood where an instruction was expected.
    UnknownOpcode(u8),
}

impl RuntimeFault {
    /// The message reported for this error.
    pub fn message(&self) -> (m: &'static str)
        ensures
            self is OperandsMustBeNumbers ==> m@ == "Operands must be numbers."@,
            self is OperandMustBeNumber ==> m@ == "Operand must be a number."@,
            self is StackUnderflow ==> m@ == "Stack underflow."@,
            self is DivisionByZero ==> m@ == "Division by zero."@,
            self is UnknownOpcode ==> m@ == "Unknown opcode."@,
    {
        match self {
            RuntimeFault::OperandsMustBeNumbers => "Operands must be numbers.",
            RuntimeFault::OperandMustBeNumber => "Operand must be a number.",
            RuntimeFault::StackUnderflow => "Stack underflow.",
            RuntimeFault::DivisionByZero => "Division by zero.",
            RuntimeFault::UnknownOpcode(_) => "Unknown opcode.",
        }
    }
}

/// Conditions under which the machine cannot go on at all: the bytecode reads past its end,
/// names a constant the pool does not have, or needs more than `STACK_MAX` slots.
#[derive(Debug, Clone, Copy, PartialEq, Eq, Structural)]
pub enum Trap {
    CodeOverrun,
    ConstantOutOfRange,
    StackOverflow,
}

/// What one instruction leaves to be done.
#[derive(Debug, Clone, Copy, PartialEq, Eq, Structural)]
pub enum Action {
    /// The instruction is complete.
    Continue,
    /// The operands `a` and `b` (b was on top) have been popped; the float result of
    /// `a op b` is to be pushed.
    Arithmetic(ArithOp, Value, Value),
    /// The operand has been popped; its negation is to be pushed.
    Negate(Value),
    /// `Return` popped this value: execution ends with `InterpretResult::Success`.
    Halt(Value),
    /// Execution ends with this runtime error.
    Fault(RuntimeFault),
    /// Execution cannot go on.
    Trap(Trap),
}

/// The abstract machine: instruction pointer, bytecode, constant pool and the live
/// part of the stack (bottom first).
pub struct VmState {
    pub ip: int,
    pub code: Seq<u8>,
    pub constants: Seq<Value>,
    pub stack: Seq<Value>,
}

/// Whether a number cell holds positive or negative zero.
pub open spec fn is_zero_number(bits: u64) -> bool {
    bits & 0x7fff_ffff_ffff_ffffu64 == 0
}

/// The arithmetic of a binary opcode.
pub open spec fn arith_of(op: OpCode) -> Option<ArithOp> {
    match op {
        OpCode::Add => Some(ArithOp::Add),
        OpCode::Subtract => Some(ArithOp::Subtract),
        OpCode::Multiply => Some(ArithOp::Multiply),
        OpCode::Divide => Some(ArithOp::Divide),
        _ => None,
    }
}

pub open spec fn at_ip(s: VmState, ip: int) -> VmState {
    VmState { ip: ip, code: s.code, constants: s.constants, stack: s.stack }
}

pub open spec fn with_stack(s: VmState, stack: Seq<Value>) -> VmState {
    VmState { ip: s.ip, code: s.code, constants: s.constants, stack: stack }
}

/// A binary instruction, its opcode byte already read (`s.ip` is past it).
pub open spec fn step_binary(s: VmState, op: ArithOp) -> (VmState, Action) {
    let n = s.stack.len();
    if n < 2 {
        (s, Action::Fault(RuntimeFault::StackUnderflow))
    } else {
        let b = s.stack[n - 1];
        let a = s.stack[n - 2];
        let popped = with_stack(s, s.stack.subrange(0, n - 2));
        if !(bits_is_number(a@) && bits_is_number(b@)) {
            (popped, Action::Fault(RuntimeFault::OperandsMustBeNumbers))
        } else if op == ArithOp::Divide && is_zero_number(b@) {
            (popped, Action::Fault(RuntimeFault::DivisionByZero))
        } else {
            (popped, Action::Arithmetic(op, a, b))
        }
    }
}

/// One fetch-decode-execute cycle of the machine.
pub open spec fn spec_step(s: VmState) -> (VmState, Action) {
    if s.ip < 0 || s.ip >= s.code.len() {
        (s, Action::Trap(Trap::CodeOverrun))
    } else {
        let byte = s.code[s.ip];
        let s1 = at_ip(s, s.ip + 1);
        match opcode_of(byte) {
            None => (s1, Action::Fault(RuntimeFault::UnknownOpcode(byte))),
            Some(OpCode::Constant) => {
                if s.ip + 1 >= s.code.len() {
                    (s1, Action::Trap(Trap::CodeOverrun))
                } else {
                    let index = s.code[s.ip + 1];
                    let s2 = at_ip(s, s.ip + 2);
                    if index >= s.constants.len() {
                        (s2, Action::Trap(Trap::ConstantOutOfRange))
                    } else if s.stack.len() >= STACK_MAX {
                        (s2, Action::Trap(Trap::StackOverflow))
                    } else {
                        (with_stack(s2, s.stack.push(s.constants[index as int])), Action::Continue)
                    }
                }
            },
            Some(OpCode::Negate) => {
                if s.stack.len() == 0 {
                    (s1, Action::Fault(RuntimeFault::StackUnderflow))
                } else if !bits_is_number(s.stack.last()@) {
                    (s1, Action::Fault(RuntimeFault::OperandMustBeNumber))
                } else {
                    (with_stack(s1, s.stack.drop_last()), Action::Negate(s.stack.last()))
                }
            },
            Some(OpCode::Return) => {
                if s.stack.len() == 0 {
                    (s1, Action::Fault(RuntimeFault::StackUnderflow))
                } else {
                    (with_stack(s1, s.stack.drop_last()), Action::Halt(s.stack.last()))
                }
            },
            Some(op) => step_binary(s1, arith_of(op).unwrap()),
        }
    }
}

/// The virtual machine: the instruction pointer, the bytecode, the constant pool and a
/// stack of `STACK_MAX` slots of which the first `stack_top` are live.
pub struct VM {
    ip: usize,
    chunk: Vec<u8>,
    constants: Vec<Value>,
    stack: Vec<Value>,
    stack_top: usize,
}

impl View for VM {
    type V = VmState;

    closed spec fn view(&self) -> VmState {
        VmState {
            ip: self.ip as int,
            code: self.chunk@,
            constants: self.constants@,
            stack: self.stack@.subrange(0, self.stack_top as int),
        }
    }
}

impl VM {
    /// The machine's shape: the stack has its `STACK_MAX` slots, at most all of them live,
    /// and the instruction pointer is within the bytecode or just past it.
    #[verifier::type_invariant]
    pub closed spec fn wf(&self) -> bool {
        &&& self.stack@.len() == STACK_MAX
        &&& self.stack_top <= STACK_MAX
        &&& self.ip <= self.chunk.len()
    }

    /// All `STACK_MAX` slots of the stack, the live ones first.
    pub closed spec fn slots(&self) -> Seq<Value> {
        self.stack@
    }

    /// A well-formed machine has `STACK_MAX` slots, the live stack is their first part,
    /// and the instruction pointer lies within the bytecode or just past it.
    pub proof fn lemma_wf_shape(&self)
        requires
            self.wf(),
        ensures
            self.slots().len() == STACK_MAX,
            self@.stack.len() <= STACK_MAX,
            self@.stack == self.slots().subrange(0, self@.stack.len() as int),
            0 <= self@.ip <= self@.code.len(),
    {
    }

    /// A machine at the start of `chunk`, with an empty stack.
    pub fn new(chunk: Vec<u8>, constants: Vec<Value>) -> (vm: VM)
        ensures
            vm@.ip == 0,
            vm@.code == chunk@,
            vm@.constants == constants@,
            vm@.stack == Seq::<Value>::empty(),
            vm.slots().len() == STACK_MAX,
            forall|i: int| 0 <= i < STACK_MAX ==> (#[trigger] vm.slots()[i])@ == nil_bits(),
    {
        let mut stack: Vec<Value> = Vec::new();
        while stack.len() < STACK_MAX
            invariant
                stack@.len() <= STACK_MAX,
                forall|i: int| 0 <= i < stack@.len() ==> (#[trigger] stack@[i])@ == nil_bits(),
            decreases STACK_MAX - stack@.len(),
        {
            stack.push(Value::nil());
        }
        VM { ip: 0, chunk, constants, stack, stack_top: 0 }
    }

    /// The offset of the instruction pointer from the start of the bytecode, for reporting
    /// where execution stopped.
    pub fn offset(&self) -> (ip: usize)
        ensures
            ip == self@.ip,
    {
        self.ip
    }

    /// The number of live stack slots.
    pub fn stack_depth(&self) -> (depth: usize)
        ensures
            depth == self@.stack.len(),
    {
        proof {
            use_type_invariant(&*self);
        }
        self.stack_top
    }

    /// Executes one instruction and says what it leaves to be done.
    pub fn step(&mut self) -> (action: Action)
        ensures
            (final(self)@, action) == spec_step(old(self)@),
            action is Continue ==> final(self).slots() == old(self).slots().update(
                old(self)@.stack.len() as int,
                final(self)@.stack.last(),
            ),
            !(action is Continue) ==> final(self).slots() == old(self).slots(),
    {
        if self.ip >= self.chunk.len() {
            return Action::Trap(Trap::CodeOverrun);
        }
        let instruction = self.read_byte();
        proof {
            use_type_invariant(&*self);
        }
        match OpCode::decode(instruction) {
            None => Action::Fault(RuntimeFault::UnknownOpcode(instruction)),
            Some(OpCode::Constant) => {
                if self.ip >= self.chunk.len() {
                    return Action::Trap(Trap::CodeOverrun);
                }
                if self.chunk[self.ip] as usize >= self.constants.len() {
                    self.ip = self.ip + 1;
                    return Action::Trap(Trap::ConstantOutOfRange);
                }
                let constant = self.read_constant();
                proof {
                    use_type_invariant(&*self);
                }
                if self.stack_top >= STACK_MAX {
                    return Action::Trap(Trap::StackOverflow);
                }
                self.push(constant);
                Action::Continue
            },
            Some(OpCode::Add) => self.binary(ArithOp::Add),
            Some(OpCode::Subtract) => self.binary(ArithOp::Subtract),
            Some(OpCode::Multiply) => self.binary(ArithOp::Multiply),
            Some(OpCode::Divide) => self.binary(ArithOp::Divide),
            Some(OpCode::Negate) => {
                if self.stack_top == 0 {
                    return Action::Fault(RuntimeFault::StackUnderflow);
                }
                if !self.peek(0).is_number() {
                    return Action::Fault(RuntimeFault::OperandMustBeNumber);
                }
                let val = self.pop();
                Action::Negate(val)
            },
            Some(OpCode::Return) => {
                if self.stack_top == 0 {
                    return Action::Fault(RuntimeFault::StackUnderflow);
                }
                let val = self.pop();
                Action::Halt(val)
            },
        }
    }

    /// Pops the two operands of a binary instruction and checks them.
    fn binary(&mut self, op: ArithOp) -> (action: Action)
        ensures
            (final(self)@, action) == step_binary(old(self)@, op),
            final(self).slots() == old(self).slots(),
    {
        proof {
            use_type_invariant(&*self);
        }
        if self.stack_top < 2 {
            return Action::Fault(RuntimeFault::StackUnderflow);
        }
        let ghost s = self@;
        let b = self.pop();
        let a = self.pop();
        assert(self@.stack =~= s.stack.subrange(0, s.stack.len() - 2));
        if !(a.is_number() && b.is_number()) {
            return Action::Fault(RuntimeFault::OperandsMustBeNumbers);
        }
        if op == ArithOp::Divide && (b.raw() & 0x7fff_ffff_ffff_ffffu64) == 0 {
            return Action::Fault(RuntimeFault::DivisionByZero);
        }
        Action::Arithmetic(op, a, b)
    }

    /// Reads the byte at the instruction pointer and moves past it.
    fn read_byte(&mut self) -> (byte: u8)
        requires
            old(self)@.ip < old(self)@.code.len(),
        ensures
            byte == old(self)@.code[old(self)@.ip],
            final(self)@ == at_ip(old(self)@, old(self)@.ip + 1),
            final(self).slots() == old(self).slots(),
    {
        proof {
            use_type_invariant(&*self);
        }
        let byte = self.chunk[self.ip];
        self.ip = self.ip + 1;
        byte
    }

    /// Reads a constant-pool index from the bytecode and returns that constant.
    fn read_constant(&mut self) -> (value: Value)
        requires
            old(self)@.ip < old(self)@.code.len(),
            old(self)@.code[old(self)@.ip] < old(self)@.constants.len(),
        ensures
            value == old(self)@.constants[old(self)@.code[old(self)@.ip] as int],
            final(self)@ == at_ip(old(self)@, old(self)@.ip + 1),
            final(self).slots() == old(self).slots(),
    {
        let index = self.read_byte() as usize;
        self.constants[index]
    }

    /// Pushes a value onto the stack (the result of an arithmetic action, for instance).
    pub fn push(&mut self, value: Value)
        requires
            old(self)@.stack.len() < STACK_MAX,
        ensures
            final(self)@ == with_stack(old(self)@, old(self)@.stack.push(value)),
            final(self).slots() == old(self).slots().update(old(self)@.stack.len() as int, value),
    {
        proof {
            use_type_invariant(&*self);
        }
        let ghost s = self@;
        self.stack[self.stack_top] = value;
        self.stack_top = self.stack_top + 1;
        assert(self@.stack =~= s.stack.push(value));
    }

    /// Pops the top of the stack; the slot keeps its value.
    pub fn pop(&mut self) -> (value: Value)
        requires
            old(self)@.stack.len() > 0,
        ensures
            value == old(self)@.stack.last(),
            final(self)@ == with_stack(old(self)@, old(self)@.stack.drop_last()),
            final(self).slots() == old(self).slots(),
    {
        proof {
            use_type_invariant(&*self);
        }
        let ghost s = self@;
        self.stack_top = self.stack_top - 1;
        assert(self@.stack =~= s.stack.drop_last());
        self.stack[self.stack_top]
    }

    /// The value `distance` slots below the top of the stack.
    fn peek(&self, distance: usize) -> (value: Value)
        requires
            distance < self@.stack.len(),
        ensures
            value == self@.stack[self@.stack.len() - 1 - distance],
    {
        proof {
            use_type_invariant(&*self);
        }
        self.stack[self.stack_top - 1 - distance]
    }
}

/// Every instruction consumes its bytes: from a state whose instruction pointer is inside the
/// bytecode, a step moves the pointer forward, so a chunk runs at most `code.len()`
/// instructions before it halts, faults or overruns; with the pointer outside the bytecode a
/// step changes nothing and traps. No step changes the bytecode or the constant pool.
pub proof fn lemma_step_progress(s: VmState)
    ensures
        spec_step(s).0.code == s.code,
        spec_step(s).0.constants == s.constants,
        0 <= s.ip < s.code.len() ==> s.ip < spec_step(s).0.ip <= s.code.len(),
        !(0 <= s.ip < s.code.len()) ==> spec_step(s) == (s, Action::Trap(Trap::CodeOverrun)),
{
}

/// The stack effect of each instruction (`Constant`: [ ] -> [v]; binary: [a, b] -> the
/// operands handed out; `Negate`: [v] -> v handed out; `Return`: [v] -> exit with v), and
/// the stack never outgrows its `STACK_MAX` slots.
pub proof fn lemma_stack_effect(s: VmState)
    requires
        s.stack.len() <= STACK_MAX,
    ensures
        spec_step(s).0.stack.len() <= STACK_MAX,
        spec_step(s).1 is Continue ==> {
            &&& s.code[s.ip] == opcode_byte(OpCode::Constant)
            &&& spec_step(s).0.stack == s.stack.push(s.constants[s.code[s.ip + 1] as int])
        },
        spec_step(s).1 matches Action::Arithmetic(op, a, b) ==> {
            &&& s.stack == spec_step(s).0.stack.push(a).push(b)
            &&& bits_is_number(a@)
            &&& bits_is_number(b@)
        },
        spec_step(s).1 matches Action::Negate(v) ==> {
            &&& s.stack == spec_step(s).0.stack.push(v)
            &&& bits_is_number(v@)
        },
        spec_step(s).1 matches Action::Halt(v) ==> s.stack == spec_step(s).0.stack.push(v),
{
    let (t, a) = spec_step(s);
    if 0 <= s.ip < s.code.len() {
        match a {
            Action::Arithmetic(op, x, y) => {
                assert(s.stack =~= t.stack.push(x).push(y));
            },
            Action::Negate(v) => {
                assert(s.stack =~= t.stack.push(v));
            },
            Action::Halt(v) => {
                assert(s.stack =~= t.stack.push(v));
            },
            _ => {},
        }
    }
}

/// A `Constant k` instruction followed by `Return` halts with constant `k` and leaves the
/// stack as it found it.
pub proof fn lemma_constant_then_return(s: VmState)
    requires
        0 <= s.ip,
        s.ip + 2 < s.code.len(),
        s.code[s.ip] == opcode_byte(OpCode::Constant),
        s.code[s.ip + 2] == opcode_byte(OpCode::Return),
        s.code[s.ip + 1] < s.constants.len(),
        s.stack.len() < STACK_MAX,
    ensures
        spec_step(s).1 == Action::Continue,
        spec_step(spec_step(s).0).1 == Action::Halt(s.constants[s.code[s.ip + 1] as int]),
        spec_step(spec_step(s).0).0.stack == s.stack,
        spec_step(spec_step(s).0).0.ip == s.ip + 3,
{
    let t = spec_step(s).0;
    assert(t.stack.drop_last() =~= s.stack);
}

/// Pushing a value and popping it again gives the value back and restores the live stack
/// (last in, first out).
pub proof fn lemma_push_then_pop(s: VmState, v: Value)
    ensures
        s.stack.push(v).last() == v,
        with_stack(with_stack(s, s.stack.push(v)), s.stack.push(v).drop_last()) == s,
{
    assert(s.stack.push(v).drop_last() =~= s.stack);
}

/// Whether an action ends execution.
pub open spec fn ends_run(a: Action) -> bool {
    a is Halt || a is Fault || a is Trap
}

/// A run of the machine for at most `fuel` instructions: each instruction is stepped, and
/// the result of an arithmetic or negate action, computed by `arith` or `negate`, is pushed
/// back, until an instruction ends execution. A run that uses up its fuel reports
/// `Continue`.
pub open spec fn run_for(
    s: VmState,
    fuel: nat,
    arith: spec_fn(ArithOp, Value, Value) -> Value,
    negate: spec_fn(Value) -> Value,
) -> (VmState, Action)
    decreases fuel,
{
    if fuel == 0 {
        (s, Action::Continue)
    } else {
        let (t, a) = spec_step(s);
        match a {
            Action::Continue => run_for(t, (fuel - 1) as nat, arith, negate),
            Action::Arithmetic(op, x, y) => {
                if t.stack.len() < STACK_MAX {
                    run_for(
                        with_stack(t, t.stack.push(arith(op, x, y))),
                        (fuel - 1) as nat,
                        arith,
                        negate,
                    )
                } else {
                    (t, Action::Trap(Trap::StackOverflow))
                }
            },
            Action::Negate(x) => {
                if t.stack.len() < STACK_MAX {
                    run_for(with_stack(t, t.stack.push(negate(x))), (fuel - 1) as nat, arith, negate)
                } else {
                    (t, Action::Trap(Trap::StackOverflow))
                }
            },
            _ => (t, a),
        }
    }
}

/// Every run ends: with more fuel than bytes left to execute, a run halts, faults or traps,
/// whatever the arithmetic computes.
pub proof fn lemma_run_ends(
    s: VmState,
    fuel: nat,
    arith: spec_fn(ArithOp, Value, Value) -> Value,
    negate: spec_fn(Value) -> Value,
)
    requires
        0 <= s.ip <= s.code.len(),
        s.code.len() - s.ip < fuel,
    ensures
        ends_run(run_for(s, fuel, arith, negate).1),
    decreases fuel,
{
    lemma_step_progress(s);
    let (t, a) = spec_step(s);
    match a {
        Action::Continue => {
            lemma_run_ends(t, (fuel - 1) as nat, arith, negate);
        },
        Action::Arithmetic(op, x, y) => {
            if t.stack.len() < STACK_MAX {
                lemma_run_ends(
                    with_stack(t, t.stack.push(arith(op, x, y))),
                    (fuel - 1) as nat,
                    arith,
                    negate,
                );
            }
        },
        Action::Negate(x) => {
            if t.stack.len() < STACK_MAX {
                lemma_run_ends(with_stack(t, t.stack.push(negate(x))), (fuel - 1) as nat, arith, negate);
            }
        },
        _ => {},
    }
}

/// The reference meaning of straight-line bytecode, read instruction by instruction from
/// `ip` with the stack `stack`: `Constant k` pushes constant k; a binary instruction pops b,
/// then a, and pushes `arith(op, a, b)`; `Negate` replaces the top a by `negate(a)`; `Return`
/// gives the top. It is `Some` only for well-formed code: every byte read is an opcode or an
/// in-range constant index, each instruction finds its operands, and numbers where it needs
/// them, no divisor is zero, the stack stays within `STACK_MAX`, and a `Return` comes within
/// `fuel` instructions.
pub open spec fn reference_result(
    code: Seq<u8>,
    constants: Seq<Value>,
    ip: int,
    stack: Seq<Value>,
    fuel: nat,
    arith: spec_fn(ArithOp, Value, Value) -> Value,
    negate: spec_fn(Value) -> Value,
) -> Option<Value>
    decreases fuel,
{
    if fuel == 0 || ip < 0 || ip >= code.len() {
        None
    } else {
        let n = stack.len();
        match opcode_of(code[ip]) {
            Some(OpCode::Constant) => {
                if ip + 1 < code.len() && code[ip + 1] < constants.len() && n < STACK_MAX {
                    reference_result(
                        code,
                        constants,
                        ip + 2,
                        stack.push(constants[code[ip + 1] as int]),
                        (fuel - 1) as nat,
                        arith,
                        negate,
                    )
                } else {
                    None
                }
            },
            Some(OpCode::Return) => {
                if n > 0 {
                    Some(stack[n - 1])
                } else {
                    None
                }
            },
            Some(OpCode::Negate) => {
                if n > 0 && bits_is_number(stack[n - 1]@) {
                    reference_result(
                        code,
                        constants,
                        ip + 1,
                        stack.subrange(0, n - 1).push(negate(stack[n - 1])),
                        (fuel - 1) as nat,
                        arith,
                        negate,
                    )
                } else {
                    None
                }
            },
            Some(op) => {
                let f = arith_of(op).unwrap();
                if n >= 2 && bits_is_number(stack[n - 2]@) && bits_is_number(stack[n - 1]@)
                    && !(f == ArithOp::Divide && is_zero_number(stack[n - 1]@)) {
                    reference_result(
                        code,
                        constants,
                        ip + 1,
                        stack.subrange(0, n - 2).push(arith(f, stack[n - 2], stack[n - 1])),
                        (fuel - 1) as nat,
                        arith,
                        negate,
                    )
                } else {
                    None
                }
            },
            None => None,
        }
    }
}

/// On well-formed code the machine computes what the reference meaning says: a run from the
/// same instruction pointer and stack halts, and `Return` hands out the reference result.
pub proof fn lemma_run_matches_reference(
    s: VmState,
    fuel: nat,
    arith: spec_fn(ArithOp, Value, Value) -> Value,
    negate: spec_fn(Value) -> Value,
)
    requires
        s.stack.len() <= STACK_MAX,
        reference_result(s.code, s.constants, s.ip, s.stack, fuel, arith, negate) is Some,
    ensures
        run_for(s, fuel, arith, negate).1 == Action::Halt(
            reference_result(s.code, s.constants, s.ip, s.stack, fuel, arith, negate).unwrap(),
        ),
    decreases fuel,
{
    let (t, a) = spec_step(s);
    let n = s.stack.len();
    match opcode_of(s.code[s.ip]) {
        Some(OpCode::Constant) => {
            lemma_run_matches_reference(t, (fuel - 1) as nat, arith, negate);
        },
        Some(OpCode::Return) => {},
        Some(OpCode::Negate) => {
            assert(s.stack.drop_last() =~= s.stack.subrange(0, n - 1));
            lemma_run_matches_reference(
                with_stack(t, t.stack.push(negate(s.stack[n - 1]))),
                (fuel - 1) as nat,
                arith,
                negate,
            );
        },
        Some(op) => {
            let f = arith_of(op).unwrap();
            lemma_run_matches_reference(
                with_stack(t, t.stack.push(arith(f, s.stack[n - 2], s.stack[n - 1]))),
                (fuel - 1) as nat,
                arith,
                negate,
            );
        },
        None => {},
    }
}

/// The result of a program: the reference meaning of its bytecode from the first byte with
/// an empty stack, where each instruction takes at least one byte.
pub open spec fn program_result(
    code: Seq<u8>,
    constants: Seq<Value>,
    arith: spec_fn(ArithOp, Value, Value) -> Value,
    negate: spec_fn(Value) -> Value,
) -> Option<Value> {
    reference_result(code, constants, 0, Seq::empty(), code.len(), arith, negate)
}

/// A fresh machine (as `VM::new` makes it) running a well-formed program halts, and `Return`
/// hands out the program's result.
pub proof fn lemma_program_runs_to_result(
    s: VmState,
    arith: spec_fn(ArithOp, Value, Value) -> Value,
    negate: spec_fn(Value) -> Value,
)
    requires
        s.ip == 0,
        s.stack == Seq::<Value>::empty(),
        program_result(s.code, s.constants, arith, negate) is Some,
    ensures
        run_for(s, s.code.len(), arith, negate).1 == Action::Halt(
            program_result(s.code, s.constants, arith, negate).unwrap(),
        ),
{
    lemma_run_matches_reference(s, s.code.len(), arith, negate);
}

/// `Divide` on two numbers faults for a zero divisor only: when the divisor's cell is +0.0 or
/// -0.0 it reports division by zero, and for every other divisor it hands out the operands
/// to be divided.
pub proof fn lemma_divide_faults_only_on_zero(s: VmState)
    requires
        0 <= s.ip < s.code.len(),
        s.code[s.ip] == 0x06,
        s.stack.len() >= 2,
        bits_is_number(s.stack[s.stack.len() - 2]@),
        bits_is_number(s.stack[s.stack.len() - 1]@),
    ensures
        ({
            let a = s.stack[s.stack.len() - 2];
            let b = s.stack[s.stack.len() - 1];
            let zero = b@ == 0 || b@ == 0x8000_0000_0000_0000u64;
            &&& zero ==> spec_step(s).1 == Action::Fault(RuntimeFault::DivisionByZero)
            &&& !zero ==> spec_step(s).1 == Action::Arithmetic(ArithOp::Divide, a, b)
        }),
{
    let b = s.stack[s.stack.len() - 1]@;
    assert((b & 0x7fff_ffff_ffff_ffffu64 == 0) == (b == 0 || b == 0x8000_0000_0000_0000u64))
        by (bit_vector);
}

/// The instruction table, by opcode byte, for the instruction at `ip`:
/// - 0x01 k pushes constant k (when the pool has it and a slot is free) and moves past k;
/// - 0x03, 0x04, 0x05, 0x06 pop b, then a, and hand out `a + b`, `a - b`, `a * b`, `a / b`
///   when both are numbers (and b is not zero for 0x06); with a non-number operand they
///   fault with "Operands must be numbers.";
/// - 0x07 pops a number and hands it out to be negated, and faults on a non-number;
/// - 0x0F pops the top and halts with it;
/// - an instruction short of operands faults with stack underflow, and every other byte is
///   an unknown opcode.
pub proof fn lemma_instruction_table(s: VmState)
    requires
        0 <= s.ip < s.code.len(),
    ensures
        ({
            let b = s.code[s.ip];
            let n = s.stack.len();
            let (t, act) = spec_step(s);
            let binary = 0x03 <= b <= 0x06;
            let numbers = n >= 2 && bits_is_number(s.stack[n - 2]@) && bits_is_number(
                s.stack[n - 1]@,
            );
            let zero = n >= 1 && (s.stack[n - 1]@ == 0 || s.stack[n - 1]@
                == 0x8000_0000_0000_0000u64);
            &&& (b == 0x01 && s.ip + 1 < s.code.len() && s.code[s.ip + 1] < s.constants.len() && n
                < STACK_MAX) ==> act == Action::Continue && t.ip == s.ip + 2 && t.stack
                == s.stack.push(s.constants[s.code[s.ip + 1] as int])
            &&& (binary && numbers && !(b == 0x06 && zero)) ==> t.ip == s.ip + 1 && t.stack
                == s.stack.subrange(0, n - 2)
            &&& (b == 0x03 && numbers) ==> act == Action::Arithmetic(
                ArithOp::Add,
                s.stack[n - 2],
                s.stack[n - 1],
            )
            &&& (b == 0x04 && numbers) ==> act == Action::Arithmetic(
                ArithOp::Subtract,
                s.stack[n - 2],
                s.stack[n - 1],
            )
            &&& (b == 0x05 && numbers) ==> act == Action::Arithmetic(
                ArithOp::Multiply,
                s.stack[n - 2],
                s.stack[n - 1],
            )
            &&& (b == 0x06 && numbers && !zero) ==> act == Action::Arithmetic(
                ArithOp::Divide,
                s.stack[n - 2],
                s.stack[n - 1],
            )
            &&& (binary && n >= 2 && !numbers) ==> act == Action::Fault(
                RuntimeFault::OperandsMustBeNumbers,
            )
            &&& (binary && n < 2) ==> act == Action::Fault(RuntimeFault::StackUnderflow)
            &&& (b == 0x07 && n >= 1 && bits_is_number(s.stack[n - 1]@)) ==> act == Action::Negate(
                s.stack[n - 1],
            ) && t.stack == s.stack.subrange(0, n - 1)
            &&& (b == 0x07 && n >= 1 && !bits_is_number(s.stack[n - 1]@)) ==> act == Action::Fault(
                RuntimeFault::OperandMustBeNumber,
            )
            &&& ((b == 0x07 || b == 0x0F) && n == 0) ==> act == Action::Fault(
                RuntimeFault::StackUnderflow,
            )
            &&& (b == 0x0F && n >= 1) ==> act == Action::Halt(s.stack[n - 1]) && t.stack
                == s.stack.subrange(0, n - 1)
            &&& !(b == 0x01 || 0x03 <= b <= 0x07 || b == 0x0F) ==> act == Action::Fault(
                RuntimeFault::UnknownOpcode(b),
            )
        }),
{
    let n = s.stack.len();
    if n >= 1 {
        let b = s.stack[n - 1]@;
        assert((b & 0x7fff_ffff_ffff_ffffu64 == 0) == (b == 0 || b == 0x8000_0000_0000_0000u64))
            by (bit_vector);
        assert(s.stack.drop_last() =~= s.stack.subrange(0, n - 1));
    }
}

} // verus!
