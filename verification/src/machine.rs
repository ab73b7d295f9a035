//! The executor: an operand stack, a variable store and an instruction
//! pointer, advanced one instruction at a time.
//!
//! `execute` runs a program, with the arithmetic handed in as a function;
//! `step` and `complete` are what it is made of. A program may run for ever,
//! so a run is given a number of steps, its fuel, and can be resumed.

use crate::instruction::{Instruction, Operation};
use crate::value::Value;
use vstd::prelude::*;

verus! {

/// The number of slots in the variable store.
pub const VARIABLE_SLOTS: usize = 3;

/// A condition that an instruction reports instead of doing its work. The
/// instruction leaves stack and variables as they were, and the program goes
/// on with the next instruction.
#[derive(Clone, Copy, Debug, PartialEq, Eq)]
pub enum Fault {
    /// The stack holds fewer values than the instruction takes.
    StackUnderflow,
    /// The divisor on top of the stack is zero.
    DivisionByZero,
    /// No variable has this index.
    IndexOutOfRange(usize),
}

/// What one step did.
#[derive(Clone, Copy, Debug, PartialEq, Eq)]
pub enum Step {
    /// The instruction pointer is past the end of the program: nothing ran.
    Finished,
    /// The instruction was carried out.
    Executed,
    /// The instruction reported a fault and was skipped.
    Recovered(Fault),
    /// A branch was taken to this target, which is outside the program: the
    /// program is over.
    Halted(usize),
    /// The instruction is an arithmetic operation on the two topmost values,
    /// the lower one first. Nothing has changed; the machine goes on once the
    /// result is handed to `complete`.
    Awaiting(Operation, Value, Value),
}

/// The machine as a mathematical value.
pub struct State {
    pub stack: Seq<Value>,
    pub vars: Seq<Value>,
    pub ip: nat,
}

impl State {
    /// The value on top of the stack, the one pushed last.
    pub open spec fn top(self) -> Value {
        self.stack[self.stack.len() - 1]
    }

    /// The value under the top.
    pub open spec fn under(self) -> Value {
        self.stack[self.stack.len() - 2]
    }

    /// The state with the instruction pointer at `target`.
    pub open spec fn at(self, target: nat) -> State {
        State { ip: target, ..self }
    }

    /// The state with `value` pushed.
    pub open spec fn pushed(self, value: Value) -> State {
        State { stack: self.stack.push(value), ..self }
    }

    /// The state without the `count` topmost values.
    pub open spec fn popped(self, count: nat) -> State {
        State { stack: self.stack.take(self.stack.len() - count), ..self }
    }

    /// The state with `value` in the variable `index`.
    pub open spec fn stored(self, index: int, value: Value) -> State {
        State { vars: self.vars.update(index, value), ..self }
    }

    /// The state after the current instruction, with the pointer moved on by
    /// one.
    pub open spec fn next(self) -> State {
        self.at(self.ip + 1)
    }
}

/// A fault: the state is untouched but for the instruction pointer, which
/// moves on.
pub open spec fn recovered(s: State, fault: Fault) -> (State, Step) {
    (s.next(), Step::Recovered(fault))
}

/// An arithmetic instruction: it waits for `op` applied to the value under the
/// top and the top, in this order. A division by zero is reported instead, and
/// so are fewer than two operands.
pub open spec fn arithmetic(s: State, op: Operation) -> (State, Step) {
    if s.stack.len() < 2 {
        recovered(s, Fault::StackUnderflow)
    } else if op == Operation::Div && s.top().zero() {
        recovered(s, Fault::DivisionByZero)
    } else {
        (s, Step::Awaiting(op, s.under(), s.top()))
    }
}

/// A comparison: both operands are replaced by one if `holds`, by zero if not.
pub open spec fn compared(s: State, holds: bool) -> (State, Step) {
    (
        s.popped(2).pushed(Value::flag(holds)).next(),
        Step::Executed,
    )
}

/// A conditional branch whose condition was popped: where `taken`, the pointer
/// goes to `target`, and the program is over if that is outside it.
pub open spec fn branched(s: State, taken: bool, target: usize, length: nat) -> (State, Step) {
    if !taken {
        (s.next(), Step::Executed)
    } else if target < length {
        (s.at(target as nat), Step::Executed)
    } else {
        (s.at(target as nat), Step::Halted(target))
    }
}

/// One step of the machine on `program`: the next state and what was done.
pub open spec fn step_spec(s: State, program: Seq<Instruction>) -> (State, Step) {
    if s.ip >= program.len() {
        (s, Step::Finished)
    } else {
        let depth = s.stack.len();
        match program[s.ip as int] {
            Instruction::LoadConst(c) => (s.pushed(c).next(), Step::Executed),
            Instruction::Add => arithmetic(s, Operation::Add),
            Instruction::Sub => arithmetic(s, Operation::Sub),
            Instruction::Mul => arithmetic(s, Operation::Mul),
            Instruction::Div => arithmetic(s, Operation::Div),
            Instruction::Negate => if depth < 1 {
                recovered(s, Fault::StackUnderflow)
            } else {
                (s.popped(1).pushed(s.top().opposite()).next(), Step::Executed)
            },
            Instruction::CmpEq => if depth < 2 {
                recovered(s, Fault::StackUnderflow)
            } else {
                compared(s, s.under().same_number(s.top()))
            },
            Instruction::CmpGt => if depth < 2 {
                recovered(s, Fault::StackUnderflow)
            } else {
                compared(s, s.under().below(s.top()))
            },
            Instruction::CmpLt => if depth < 2 {
                recovered(s, Fault::StackUnderflow)
            } else {
                compared(s, s.top().below(s.under()))
            },
            Instruction::Dup => if depth < 1 {
                recovered(s, Fault::StackUnderflow)
            } else {
                (s.pushed(s.top()).next(), Step::Executed)
            },
            Instruction::Pop => if depth < 1 {
                recovered(s, Fault::StackUnderflow)
            } else {
                (s.popped(1).next(), Step::Executed)
            },
            Instruction::LoadVar(i) => if i >= VARIABLE_SLOTS {
                recovered(s, Fault::IndexOutOfRange(i))
            } else {
                (s.pushed(s.vars[i as int]).next(), Step::Executed)
            },
            Instruction::StoreVar(i) => if i >= VARIABLE_SLOTS {
                recovered(s, Fault::IndexOutOfRange(i))
            } else if depth < 1 {
                recovered(s, Fault::StackUnderflow)
            } else {
                (s.popped(1).stored(i as int, s.top()).next(), Step::Executed)
            },
            Instruction::Branch(t) => branched(s, true, t, program.len()),
            Instruction::BranchIfTrue(t) => if depth < 1 {
                recovered(s, Fault::StackUnderflow)
            } else {
                branched(s.popped(1), !s.top().zero(), t, program.len())
            },
            Instruction::BranchIfFalse(t) => if depth < 1 {
                recovered(s, Fault::StackUnderflow)
            } else {
                branched(s.popped(1), s.top().zero(), t, program.len())
            },
        }
    }
}

/// The state once `result` is handed over for the arithmetic instruction that
/// `step_spec` reports as awaited: it takes the place of the two operands. Where
/// none is awaited the state stays as it is.
pub open spec fn complete_spec(s: State, program: Seq<Instruction>, result: Value) -> State {
    if step_spec(s, program).1 is Awaiting {
        s.popped(2).pushed(result).next()
    } else {
        s
    }
}

/// Why a run came to a stop.
#[derive(Clone, Copy, Debug, PartialEq, Eq)]
pub enum Stop {
    /// The instruction pointer went past the end of the program.
    Finished,
    /// A branch was taken to this target, outside the program.
    Halted(usize),
    /// The steps allowed were used up.
    OutOfFuel,
}

/// Whether a run of at most `fuel` steps from `s`, with `unit` doing the
/// arithmetic, can end in the state `end` for the reason `stop`, with
/// `end_log` being `log` followed by the faults met on the way, in their
/// order.
///
/// The run goes step by step as `step_spec` says. An arithmetic instruction
/// that awaits its result gets one that `unit` can return for the operation
/// and its operands, as `complete_spec` says; nothing else is left open. The
/// step that finds the program finished counts as a step.
pub open spec fn execution<F: Fn(Operation, Value, Value) -> Value>(
    unit: F,
    s: State,
    program: Seq<Instruction>,
    fuel: nat,
    log: Seq<Fault>,
    end: State,
    end_log: Seq<Fault>,
    stop: Stop,
) -> bool
    decreases fuel,
{
    if fuel == 0 {
        end == s && end_log == log && stop == Stop::OutOfFuel
    } else {
        let (next, step) = step_spec(s, program);
        let rest = (fuel - 1) as nat;
        match step {
            Step::Finished => end == s && end_log == log && stop == Stop::Finished,
            Step::Halted(target) => end == next && end_log == log && stop == Stop::Halted(target),
            Step::Executed => execution(unit, next, program, rest, log, end, end_log, stop),
            Step::Recovered(fault) => execution(
                unit,
                next,
                program,
                rest,
                log.push(fault),
                end,
                end_log,
                stop,
            ),
            Step::Awaiting(op, x, y) => exists|result: Value|
                #[trigger] call_ensures(unit, (op, x, y), result) && execution(
                    unit,
                    complete_spec(s, program, result),
                    program,
                    rest,
                    log,
                    end,
                    end_log,
                    stop,
                ),
        }
    }
}

/// The machine: the operand stack, the variable store, and the index of the
/// instruction that runs next.
pub struct Machine {
    pub stack: Vec<Value>,
    pub vars: [Value; VARIABLE_SLOTS],
    pub ip: usize,
}

impl View for Machine {
    type V = State;

    open spec fn view(&self) -> State {
        State { stack: self.stack@, vars: self.vars@, ip: self.ip as nat }
    }
}

impl Machine {
    /// A machine with an empty stack and every variable zero.
    pub fn new() -> (m: Machine)
        ensures
            m@.stack.len() == 0,
            m@.vars == Seq::new(VARIABLE_SLOTS as nat, |i: int| Value { bits: 0 }),
            m@.ip == 0,
    {
        let zero = Value::from_bits(0);
        let m = Machine { stack: Vec::new(), vars: [zero, zero, zero], ip: 0 };
        assert(m@.vars =~= Seq::new(VARIABLE_SLOTS as nat, |i: int| Value { bits: 0 }));
        m
    }

    /// Sets the machine to the first instruction, as at the start of every
    /// program. The stack and the variables stay: they last from one program
    /// to the next.
    pub fn rewind(&mut self)
        ensures
            final(self)@ == old(self)@.at(0),
    {
        self.ip = 0;
    }

    /// Runs the instruction at the instruction pointer, if there is one.
    ///
    /// Of two operands, the one under the top is the left one: `Sub` asks for
    /// it less the top, `CmpGt` pushes one where the top is the greater.
    /// An arithmetic instruction with its operands in place changes nothing
    /// and returns `Step::Awaiting`; `complete` carries it out.
    pub fn step(&mut self, program: &[Instruction]) -> (step: Step)
        ensures
            (final(self)@, step) == step_spec(old(self)@, program@),
    {
        if self.ip >= program.len() {
            return Step::Finished;
        }
        let depth = self.stack.len();
        let ghost before = self@;
        let step = match program[self.ip] {
            Instruction::LoadConst(c) => {
                self.stack.push(c);
                Step::Executed
            },
            Instruction::Add => self.operands(Operation::Add),
            Instruction::Sub => self.operands(Operation::Sub),
            Instruction::Mul => self.operands(Operation::Mul),
            Instruction::Div => self.operands(Operation::Div),
            Instruction::Negate => {
                if depth >= 1 {
                    let x = self.stack.pop().unwrap();
                    self.stack.push(x.negated());
                    Step::Executed
                } else {
                    Step::Recovered(Fault::StackUnderflow)
                }
            },
            Instruction::CmpEq => {
                if depth >= 2 {
                    let y = self.stack.pop().unwrap();
                    let x = self.stack.pop().unwrap();
                    self.stack.push(Value::truth(x.equals(y)));
                    Step::Executed
                } else {
                    Step::Recovered(Fault::StackUnderflow)
                }
            },
            Instruction::CmpGt => {
                if depth >= 2 {
                    let y = self.stack.pop().unwrap();
                    let x = self.stack.pop().unwrap();
                    self.stack.push(Value::truth(x.less_than(y)));
                    Step::Executed
                } else {
                    Step::Recovered(Fault::StackUnderflow)
                }
            },
            Instruction::CmpLt => {
                if depth >= 2 {
                    let y = self.stack.pop().unwrap();
                    let x = self.stack.pop().unwrap();
                    self.stack.push(Value::truth(y.less_than(x)));
                    Step::Executed
                } else {
                    Step::Recovered(Fault::StackUnderflow)
                }
            },
            Instruction::Dup => {
                if depth >= 1 {
                    let x = self.stack[depth - 1];
                    self.stack.push(x);
                    Step::Executed
                } else {
                    Step::Recovered(Fault::StackUnderflow)
                }
            },
            Instruction::Pop => {
                if depth >= 1 {
                    self.stack.pop();
                    Step::Executed
                } else {
                    Step::Recovered(Fault::StackUnderflow)
                }
            },
            Instruction::LoadVar(i) => {
                if i < VARIABLE_SLOTS {
                    let x = self.vars[i];
                    self.stack.push(x);
                    Step::Executed
                } else {
                    Step::Recovered(Fault::IndexOutOfRange(i))
                }
            },
            Instruction::StoreVar(i) => {
                if i >= VARIABLE_SLOTS {
                    Step::Recovered(Fault::IndexOutOfRange(i))
                } else if depth >= 1 {
                    let x = self.stack.pop().unwrap();
                    self.vars[i] = x;
                    Step::Executed
                } else {
                    Step::Recovered(Fault::StackUnderflow)
                }
            },
            Instruction::Branch(t) => {
                return self.branch(true, t, program.len());
            },
            Instruction::BranchIfTrue(t) => {
                if depth >= 1 {
                    let condition = self.stack.pop().unwrap();
                    proof {
                        assert(self@ =~= before.popped(1));
                    }
                    return self.branch(!condition.is_zero(), t, program.len());
                } else {
                    Step::Recovered(Fault::StackUnderflow)
                }
            },
            Instruction::BranchIfFalse(t) => {
                if depth >= 1 {
                    let condition = self.stack.pop().unwrap();
                    proof {
                        assert(self@ =~= before.popped(1));
                    }
                    return self.branch(condition.is_zero(), t, program.len());
                } else {
                    Step::Recovered(Fault::StackUnderflow)
                }
            },
        };
        match step {
            Step::Awaiting(_, _, _) => {},
            _ => {
                self.ip = self.ip + 1;
            },
        }
        proof {
            assert(self@.stack =~= step_spec(before, program@).0.stack);
            assert(self@.vars =~= step_spec(before, program@).0.vars);
        }
        step
    }

    /// Hands over the result of the arithmetic instruction that `step` reported
    /// as awaited: the result replaces the two operands and the program moves
    /// on. Returns whether one was awaited; if none was, nothing changes.
    pub fn complete(&mut self, program: &[Instruction], result: Value) -> (done: bool)
        ensures
            done == (step_spec(old(self)@, program@).1 is Awaiting),
            final(self)@ == complete_spec(old(self)@, program@, result),
    {
        if self.ip >= program.len() {
            return false;
        }
        let step = match program[self.ip] {
            Instruction::Add => self.operands(Operation::Add),
            Instruction::Sub => self.operands(Operation::Sub),
            Instruction::Mul => self.operands(Operation::Mul),
            Instruction::Div => self.operands(Operation::Div),
            _ => Step::Executed,
        };
        match step {
            Step::Awaiting(_, _, _) => {
                let ghost before = self@;
                self.stack.pop();
                self.stack.pop();
                self.stack.push(result);
                self.ip = self.ip + 1;
                proof {
                    assert(self@.stack =~= before.popped(2).pushed(result).stack);
                }
                true
            },
            _ => false,
        }
    }

    /// Runs the program from its first instruction, for at most `fuel` steps,
    /// and appends the faults met to `log`. `unit` computes the arithmetic: it
    /// is called with the operation, the operand under the top and the top,
    /// and its result takes their place. Stack and variables are taken as
    /// they stand.
    pub fn execute<F: Fn(Operation, Value, Value) -> Value>(
        &mut self,
        program: &[Instruction],
        unit: F,
        fuel: usize,
        log: &mut Vec<Fault>,
    ) -> (stop: Stop)
        requires
            forall|op: Operation, x: Value, y: Value| call_requires(unit, (op, x, y)),
        ensures
            execution(
                unit,
                old(self)@.at(0),
                program@,
                fuel as nat,
                old(log)@,
                final(self)@,
                final(log)@,
                stop,
            ),
    {
        self.rewind();
        self.resume(program, unit, fuel, log)
    }

    /// Runs the program on from the instruction pointer, for at most `fuel`
    /// steps: what `execute` does after its first step, and what continues a
    /// run that stopped with `Stop::OutOfFuel`.
    pub fn resume<F: Fn(Operation, Value, Value) -> Value>(
        &mut self,
        program: &[Instruction],
        unit: F,
        fuel: usize,
        log: &mut Vec<Fault>,
    ) -> (stop: Stop)
        requires
            forall|op: Operation, x: Value, y: Value| call_requires(unit, (op, x, y)),
        ensures
            execution(
                unit,
                old(self)@,
                program@,
                fuel as nat,
                old(log)@,
                final(self)@,
                final(log)@,
                stop,
            ),
    {
        let mut left: usize = fuel;
        while left > 0
            invariant
                forall|op: Operation, x: Value, y: Value| call_requires(unit, (op, x, y)),
                forall|end: State, end_log: Seq<Fault>, stop: Stop|
                    execution(unit, self@, program@, left as nat, log@, end, end_log, stop)
                        ==> execution(
                        unit,
                        old(self)@,
                        program@,
                        fuel as nat,
                        old(log)@,
                        end,
                        end_log,
                        stop,
                    ),
            decreases left,
        {
            let ghost s = self@;
            let ghost l = log@;
            match self.step(program) {
                Step::Finished => {
                    return Stop::Finished;
                },
                Step::Halted(target) => {
                    return Stop::Halted(target);
                },
                Step::Awaiting(op, x, y) => {
                    let result = unit(op, x, y);
                    self.complete(program, result);
                },
                Step::Executed => {},
                Step::Recovered(fault) => {
                    log.push(fault);
                },
            }
            left = left - 1;
            assert forall|end: State, end_log: Seq<Fault>, stop: Stop|
                execution(
                    unit,
                    self@,
                    program@,
                    left as nat,
                    log@,
                    end,
                    end_log,
                    stop,
                ) implies execution(unit, s, program@, (left + 1) as nat, l, end, end_log, stop) by {}
        }
        Stop::OutOfFuel
    }

    /// What an arithmetic instruction does before its result is known: it
    /// reports a fault, or names the operation and its operands.
    fn operands(&self, op: Operation) -> (step: Step)
        ensures
            step == arithmetic(self@, op).1,
            !(step is Awaiting) ==> arithmetic(self@, op).0 == self@.next(),
            step is Awaiting ==> arithmetic(self@, op).0 == self@,
    {
        let depth = self.stack.len();
        if depth < 2 {
            return Step::Recovered(Fault::StackUnderflow);
        }
        let y = self.stack[depth - 1];
        let x = self.stack[depth - 2];
        match op {
            Operation::Div => {
                if y.is_zero() {
                    return Step::Recovered(Fault::DivisionByZero);
                }
            },
            _ => {},
        }
        Step::Awaiting(op, x, y)
    }

    /// Moves the instruction pointer for a branch whose condition, if it has
    /// one, is off the stack.
    fn branch(&mut self, taken: bool, target: usize, length: usize) -> (step: Step)
        requires
            old(self).ip < length,
        ensures
            (final(self)@, step) == branched(old(self)@, taken, target, length as nat),
    {
        if !taken {
            self.ip = self.ip + 1;
            Step::Executed
        } else {
            self.ip = target;
            if target < length {
                Step::Executed
            } else {
                Step::Halted(target)
            }
        }
    }
}

/// A step that reports a fault leaves the stack and the variables as they
/// were and moves on to the next instruction.
pub proof fn law_fault_changes_nothing(s: State, program: Seq<Instruction>)
    requires
        step_spec(s, program).1 is Recovered,
    ensures
        step_spec(s, program).0 == s.next(),
{
}

/// A division by zero leaves both operands on the stack and is reported, and
/// the program goes on.
pub proof fn law_division_by_zero_keeps_operands(s: State, program: Seq<Instruction>)
    requires
        s.ip < program.len(),
        program[s.ip as int] == Instruction::Div,
        s.stack.len() >= 2,
        s.top().zero(),
    ensures
        step_spec(s, program) == (s.next(), Step::Recovered(Fault::DivisionByZero)),
        step_spec(s, program).0.stack == s.stack,
{
}

/// A store to an index that no variable has is reported whatever the stack
/// holds, and changes neither the variables nor the stack.
pub proof fn law_store_out_of_range(s: State, program: Seq<Instruction>, index: usize)
    requires
        s.ip < program.len(),
        program[s.ip as int] == Instruction::StoreVar(index),
        index >= VARIABLE_SLOTS,
    ensures
        step_spec(s, program).1 == Step::Recovered(Fault::IndexOutOfRange(index)),
        step_spec(s, program).0.vars == s.vars,
        step_spec(s, program).0.stack == s.stack,
{
}

/// Storing the top of the stack in a variable and loading that variable
/// again gives the stack back as it was, with the value in that variable and
/// every other variable unchanged.
pub proof fn law_store_then_load(s: State, program: Seq<Instruction>, index: usize)
    requires
        s.ip + 1 < program.len(),
        program[s.ip as int] == Instruction::StoreVar(index),
        program[s.ip as int + 1] == Instruction::LoadVar(index),
        index < VARIABLE_SLOTS,
        s.vars.len() == VARIABLE_SLOTS,
        s.stack.len() >= 1,
    ensures
        ({
            let stored = step_spec(s, program).0;
            let loaded = step_spec(stored, program).0;
            &&& step_spec(s, program).1 == Step::Executed
            &&& step_spec(stored, program).1 == Step::Executed
            &&& loaded.stack == s.stack
            &&& loaded.vars == s.vars.update(index as int, s.top())
            &&& loaded.vars[index as int] == s.top()
            &&& forall|other: int|
                0 <= other < VARIABLE_SLOTS && other != index ==> loaded.vars[other]
                    == s.vars[other]
            &&& loaded.ip == s.ip + 2
        }),
{
    let stored = step_spec(s, program).0;
    let loaded = step_spec(stored, program).0;
    assert(loaded.stack =~= s.stack);
}

/// A run goes step by step: with no fuel it stops where it is; else it stops
/// at a finished program or a branch out of it, or goes on from the state
/// after the step with one unit of fuel less, a fault appended to the log, and
/// an arithmetic instruction completed with a result that `unit` can return.
pub proof fn law_run_goes_step_by_step<F: Fn(Operation, Value, Value) -> Value>(
    unit: F,
    s: State,
    program: Seq<Instruction>,
    fuel: nat,
    log: Seq<Fault>,
    end: State,
    end_log: Seq<Fault>,
    stop: Stop,
)
    requires
        execution(unit, s, program, fuel, log, end, end_log, stop),
    ensures
        fuel == 0 ==> end == s && end_log == log && stop == Stop::OutOfFuel,
        fuel > 0 ==> match step_spec(s, program).1 {
            Step::Finished => end == s && end_log == log && stop == Stop::Finished,
            Step::Halted(target) => end == step_spec(s, program).0 && end_log == log && stop
                == Stop::Halted(target),
            Step::Executed => execution(
                unit,
                step_spec(s, program).0,
                program,
                (fuel - 1) as nat,
                log,
                end,
                end_log,
                stop,
            ),
            Step::Recovered(fault) => execution(
                unit,
                step_spec(s, program).0,
                program,
                (fuel - 1) as nat,
                log.push(fault),
                end,
                end_log,
                stop,
            ),
            Step::Awaiting(op, x, y) => exists|result: Value|
                #[trigger] call_ensures(unit, (op, x, y), result) && execution(
                    unit,
                    complete_spec(s, program, result),
                    program,
                    (fuel - 1) as nat,
                    log,
                    end,
                    end_log,
                    stop,
                ),
        },
{
}

/// A run that stops as finished or halted leaves the instruction pointer
/// past the end of the program, so that a further step finds it finished.
pub proof fn law_run_ends_past_the_program<F: Fn(Operation, Value, Value) -> Value>(
    unit: F,
    s: State,
    program: Seq<Instruction>,
    fuel: nat,
    log: Seq<Fault>,
    end: State,
    end_log: Seq<Fault>,
    stop: Stop,
)
    requires
        execution(unit, s, program, fuel, log, end, end_log, stop),
    ensures
        stop is Finished ==> end.ip >= program.len(),
        stop is Halted ==> end.ip == stop->Halted_0 && end.ip >= program.len(),
        !(stop is OutOfFuel) ==> step_spec(end, program) == (end, Step::Finished),
    decreases fuel,
{
    if fuel > 0 {
        let (next, step) = step_spec(s, program);
        let rest = (fuel - 1) as nat;
        match step {
            Step::Executed => {
                law_run_ends_past_the_program(unit, next, program, rest, log, end, end_log, stop);
            },
            Step::Recovered(fault) => {
                law_run_ends_past_the_program(
                    unit,
                    next,
                    program,
                    rest,
                    log.push(fault),
                    end,
                    end_log,
                    stop,
                );
            },
            Step::Awaiting(op, x, y) => {
                let result = choose|result: Value|
                    #[trigger] call_ensures(unit, (op, x, y), result) && execution(
                        unit,
                        complete_spec(s, program, result),
                        program,
                        rest,
                        log,
                        end,
                        end_log,
                        stop,
                    );
                law_run_ends_past_the_program(
                    unit,
                    complete_spec(s, program, result),
                    program,
                    rest,
                    log,
                    end,
                    end_log,
                    stop,
                );
            },
            _ => {},
        }
    }
}

/// A branch to a target outside the program ends the program at once: stack
/// and variables stay as they are, no further instruction runs, and a run
/// stops there however much fuel it has.
pub proof fn law_branch_out_of_range_ends_program<F: Fn(Operation, Value, Value) -> Value>(
    unit: F,
    s: State,
    program: Seq<Instruction>,
    target: usize,
    fuel: nat,
    log: Seq<Fault>,
    end: State,
    end_log: Seq<Fault>,
    stop: Stop,
)
    requires
        s.ip < program.len(),
        program[s.ip as int] == Instruction::Branch(target),
        target >= program.len(),
        fuel >= 1,
        execution(unit, s, program, fuel, log, end, end_log, stop),
    ensures
        step_spec(s, program) == (s.at(target as nat), Step::Halted(target)),
        step_spec(s.at(target as nat), program) == (s.at(target as nat), Step::Finished),
        end == s.at(target as nat),
        end_log == log,
        stop == Stop::Halted(target),
{
}

/// The program that pushes a number other than zero and branches back to its
/// start if the top is not zero never ends: from its first instruction, or
/// from its second with that number on top, a run uses up whatever fuel it is
/// given, and reports no fault on the way. Two steps from the first
/// instruction lead back to the very same state.
pub proof fn law_backward_branch_never_ends<F: Fn(Operation, Value, Value) -> Value>(
    unit: F,
    s: State,
    number: Value,
    fuel: nat,
    log: Seq<Fault>,
    end: State,
    end_log: Seq<Fault>,
    stop: Stop,
)
    requires
        !number.zero(),
        s.ip == 0 || (s.ip == 1 && s.stack.len() >= 1 && s.top() == number),
        execution(
            unit,
            s,
            seq![Instruction::LoadConst(number), Instruction::BranchIfTrue(0)],
            fuel,
            log,
            end,
            end_log,
            stop,
        ),
    ensures
        stop == Stop::OutOfFuel,
        end_log == log,
        s.ip == 0 ==> ({
            let program = seq![Instruction::LoadConst(number), Instruction::BranchIfTrue(0)];
            step_spec(step_spec(s, program).0, program).0 == s
        }),
    decreases fuel,
{
    let program = seq![Instruction::LoadConst(number), Instruction::BranchIfTrue(0)];
    if s.ip == 0 {
        assert(step_spec(step_spec(s, program).0, program).0.stack =~= s.stack);
    }
    if fuel > 0 {
        let next = step_spec(s, program).0;
        assert(step_spec(s, program).1 == Step::Executed);
        if s.ip == 0 {
            assert(next.top() == number);
        }
        law_backward_branch_never_ends(
            unit,
            next,
            number,
            (fuel - 1) as nat,
            log,
            end,
            end_log,
            stop,
        );
    }
}

} // verus!
