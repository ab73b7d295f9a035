use stack_machine::instruction::{Instruction, Operation};
use stack_machine::machine::{Fault, Machine, Step, Stop, VARIABLE_SLOTS};
use stack_machine::value::Value;

fn num(x: f64) -> Value {
    Value::from_bits(x.to_bits())
}

fn push(x: f64) -> Instruction {
    Instruction::LoadConst(num(x))
}

fn float_unit(op: Operation, x: Value, y: Value) -> Value {
    let (x, y) = (f64::from_bits(x.bits), f64::from_bits(y.bits));
    num(match op {
        Operation::Add => x + y,
        Operation::Sub => x - y,
        Operation::Mul => x * y,
        Operation::Div => x / y,
    })
}

/// Runs the program from its start until it is over or `fuel` is used up.
fn execute(machine: &mut Machine, program: &[Instruction], fuel: usize) -> (Vec<Fault>, Stop) {
    let mut faults = Vec::new();
    let stop = machine.execute(program, float_unit, fuel, &mut faults);
    (faults, stop)
}

fn stack_of(machine: &Machine) -> Vec<f64> {
    machine.stack.iter().map(|v| f64::from_bits(v.bits)).collect()
}

fn vars_of(machine: &Machine) -> Vec<f64> {
    machine.vars.iter().map(|v| f64::from_bits(v.bits)).collect()
}

fn ran(program: &[Instruction]) -> (Machine, Vec<Fault>, Stop) {
    let mut machine = Machine::new();
    let (faults, stop) = execute(&mut machine, program, 10_000);
    (machine, faults, stop)
}

#[test]
fn a_new_machine_is_empty_and_zeroed() {
    let machine = Machine::new();
    assert!(machine.stack.is_empty());
    assert_eq!(machine.vars, [num(0.0); 3]);
    assert_eq!(machine.vars.len(), VARIABLE_SLOTS);
    assert_eq!(machine.ip, 0);
}

#[test]
fn subtraction_takes_the_top_from_the_value_under_it() {
    let (machine, faults, stop) = ran(&[push(10.0), push(3.0), Instruction::Sub]);
    assert_eq!(stack_of(&machine), vec![7.0]);
    assert!(faults.is_empty());
    assert_eq!(stop, Stop::Finished);
}

#[test]
fn arithmetic_asks_for_the_lower_operand_first() {
    let program = [push(10.0), push(3.0), Instruction::Sub];
    let mut machine = Machine::new();
    assert_eq!(machine.step(&program), Step::Executed);
    assert_eq!(machine.step(&program), Step::Executed);
    assert_eq!(machine.step(&program), Step::Awaiting(Operation::Sub, num(10.0), num(3.0)));
    assert_eq!(machine.step(&program), Step::Awaiting(Operation::Sub, num(10.0), num(3.0)));
    assert_eq!(stack_of(&machine), vec![10.0, 3.0]);
    assert_eq!(machine.ip, 2);
    assert!(machine.complete(&program, num(7.0)));
    assert_eq!(stack_of(&machine), vec![7.0]);
    assert_eq!(machine.ip, 3);
    assert_eq!(machine.step(&program), Step::Finished);
    assert!(!machine.complete(&program, num(1.0)));
    assert_eq!(stack_of(&machine), vec![7.0]);
}

#[test]
fn each_arithmetic_instruction_names_its_operation() {
    for (instruction, op, result) in [
        (Instruction::Add, Operation::Add, 8.0),
        (Instruction::Sub, Operation::Sub, 4.0),
        (Instruction::Mul, Operation::Mul, 12.0),
        (Instruction::Div, Operation::Div, 3.0),
    ] {
        let program = [push(6.0), push(2.0), instruction];
        let mut machine = Machine::new();
        machine.step(&program);
        machine.step(&program);
        assert_eq!(machine.step(&program), Step::Awaiting(op, num(6.0), num(2.0)));
        let (machine, faults, stop) = ran(&program);
        assert_eq!(stack_of(&machine), vec![result]);
        assert!(faults.is_empty());
        assert_eq!(stop, Stop::Finished);
    }
}

#[test]
fn execute_hands_the_unit_the_operation_and_both_operands() {
    let asked = std::cell::RefCell::new(Vec::new());
    let program = [push(6.0), push(2.0), push(3.0), Instruction::Mul, Instruction::Sub];
    let mut machine = Machine::new();
    let mut faults = Vec::new();
    let stop = machine.execute(
        &program,
        |op, x, y| {
            asked.borrow_mut().push((op, x, y));
            num(100.0 + asked.borrow().len() as f64)
        },
        50,
        &mut faults,
    );
    assert_eq!(stop, Stop::Finished);
    assert_eq!(
        *asked.borrow(),
        vec![(Operation::Mul, num(2.0), num(3.0)), (Operation::Sub, num(6.0), num(101.0))]
    );
    assert_eq!(stack_of(&machine), vec![102.0]);
    assert!(faults.is_empty());
}

#[test]
fn division_by_zero_keeps_both_operands() {
    let (machine, faults, stop) = ran(&[push(5.0), push(0.0), Instruction::Div]);
    assert_eq!(stack_of(&machine), vec![5.0, 0.0]);
    assert_eq!(faults, vec![Fault::DivisionByZero]);
    assert_eq!(stop, Stop::Finished);
    assert_eq!(machine.ip, 3);
}

#[test]
fn division_by_minus_zero_is_a_division_by_zero() {
    let (machine, faults, _) = ran(&[push(5.0), push(-0.0), Instruction::Div, push(1.0)]);
    assert_eq!(machine.stack, vec![num(5.0), num(-0.0), num(1.0)]);
    assert_eq!(faults, vec![Fault::DivisionByZero]);
}

#[test]
fn division_of_zero_is_no_fault() {
    let (machine, faults, _) = ran(&[push(0.0), push(4.0), Instruction::Div]);
    assert_eq!(stack_of(&machine), vec![0.0]);
    assert!(faults.is_empty());
}

#[test]
fn greater_than_pushes_one_where_the_top_is_greater() {
    let (machine, _, _) = ran(&[push(3.0), push(5.0), Instruction::CmpGt]);
    assert_eq!(stack_of(&machine), vec![1.0]);
    let (machine, _, _) = ran(&[push(5.0), push(3.0), Instruction::CmpGt]);
    assert_eq!(stack_of(&machine), vec![0.0]);
    let (machine, _, _) = ran(&[push(3.0), push(3.0), Instruction::CmpGt]);
    assert_eq!(stack_of(&machine), vec![0.0]);
}

#[test]
fn less_than_pushes_one_where_the_top_is_less() {
    let (machine, _, _) = ran(&[push(5.0), push(3.0), Instruction::CmpLt]);
    assert_eq!(stack_of(&machine), vec![1.0]);
    let (machine, _, _) = ran(&[push(3.0), push(5.0), Instruction::CmpLt]);
    assert_eq!(stack_of(&machine), vec![0.0]);
    let (machine, _, _) = ran(&[push(-1.0), push(-1.0), Instruction::CmpLt]);
    assert_eq!(stack_of(&machine), vec![0.0]);
}

#[test]
fn equality_pushes_one_for_equal_numbers() {
    let (machine, _, _) = ran(&[push(2.5), push(2.5), Instruction::CmpEq]);
    assert_eq!(stack_of(&machine), vec![1.0]);
    let (machine, _, _) = ran(&[push(0.0), push(-0.0), Instruction::CmpEq]);
    assert_eq!(stack_of(&machine), vec![1.0]);
    let (machine, _, _) = ran(&[push(2.5), push(2.0), Instruction::CmpEq]);
    assert_eq!(stack_of(&machine), vec![0.0]);
    let (machine, _, _) = ran(&[push(f64::NAN), push(f64::NAN), Instruction::CmpEq]);
    assert_eq!(stack_of(&machine), vec![0.0]);
}

#[test]
fn comparisons_leave_the_rest_of_the_stack() {
    let (machine, faults, _) = ran(&[push(9.0), push(1.0), push(2.0), Instruction::CmpGt]);
    assert_eq!(stack_of(&machine), vec![9.0, 1.0]);
    assert!(faults.is_empty());
}

#[test]
fn negate_flips_the_sign_of_the_top() {
    let (machine, faults, _) = ran(&[push(1.0), push(4.0), Instruction::Negate]);
    assert_eq!(stack_of(&machine), vec![1.0, -4.0]);
    assert!(faults.is_empty());
    let (machine, _, _) = ran(&[push(0.0), Instruction::Negate]);
    assert_eq!(machine.stack, vec![num(-0.0)]);
}

#[test]
fn dup_and_pop() {
    let (machine, faults, _) = ran(&[push(1.0), push(2.0), Instruction::Dup]);
    assert_eq!(stack_of(&machine), vec![1.0, 2.0, 2.0]);
    assert!(faults.is_empty());
    let (machine, faults, _) = ran(&[push(1.0), push(2.0), Instruction::Pop]);
    assert_eq!(stack_of(&machine), vec![1.0]);
    assert!(faults.is_empty());
}

#[test]
fn a_variable_keeps_what_was_stored_in_it() {
    let mut machine = Machine::new();
    machine.vars = [num(4.0), num(5.0), num(6.0)];
    let (faults, stop) =
        execute(&mut machine, &[push(9.0), Instruction::StoreVar(1), Instruction::LoadVar(1)], 100);
    assert_eq!(stack_of(&machine), vec![9.0]);
    assert_eq!(vars_of(&machine), vec![4.0, 9.0, 6.0]);
    assert!(faults.is_empty());
    assert_eq!(stop, Stop::Finished);
}

#[test]
fn store_pops_and_load_does_not_change_the_variable() {
    let (machine, faults, _) = ran(&[
        push(1.0),
        push(2.0),
        Instruction::StoreVar(0),
        Instruction::StoreVar(2),
        Instruction::LoadVar(0),
        Instruction::LoadVar(0),
        Instruction::LoadVar(1),
    ]);
    assert_eq!(stack_of(&machine), vec![2.0, 2.0, 0.0]);
    assert_eq!(vars_of(&machine), vec![2.0, 0.0, 1.0]);
    assert!(faults.is_empty());
}

#[test]
fn a_store_out_of_range_changes_nothing() {
    let mut machine = Machine::new();
    machine.stack.push(num(8.0));
    machine.vars = [num(1.0), num(2.0), num(3.0)];
    let (faults, stop) = execute(&mut machine, &[Instruction::StoreVar(5)], 100);
    assert_eq!(stack_of(&machine), vec![8.0]);
    assert_eq!(vars_of(&machine), vec![1.0, 2.0, 3.0]);
    assert_eq!(faults, vec![Fault::IndexOutOfRange(5)]);
    assert_eq!(stop, Stop::Finished);
}

#[test]
fn a_store_out_of_range_on_an_empty_stack_reports_the_index() {
    let (machine, faults, _) = ran(&[Instruction::StoreVar(3)]);
    assert!(machine.stack.is_empty());
    assert_eq!(faults, vec![Fault::IndexOutOfRange(3)]);
    let (_, faults, _) = ran(&[Instruction::StoreVar(2)]);
    assert_eq!(faults, vec![Fault::StackUnderflow]);
}

#[test]
fn a_load_out_of_range_pushes_nothing() {
    let (machine, faults, _) = ran(&[push(1.0), Instruction::LoadVar(3), Instruction::LoadVar(2)]);
    assert_eq!(stack_of(&machine), vec![1.0, 0.0]);
    assert_eq!(faults, vec![Fault::IndexOutOfRange(3)]);
}

#[test]
fn underflow_leaves_the_stack_and_goes_on() {
    for instruction in [
        Instruction::Add,
        Instruction::Sub,
        Instruction::Mul,
        Instruction::Div,
        Instruction::CmpEq,
        Instruction::CmpGt,
        Instruction::CmpLt,
    ] {
        let (machine, faults, stop) = ran(&[instruction, push(1.0), instruction, push(2.0)]);
        assert_eq!(stack_of(&machine), vec![1.0, 2.0], "{:?}", instruction);
        assert_eq!(faults, vec![Fault::StackUnderflow, Fault::StackUnderflow]);
        assert_eq!(stop, Stop::Finished);
    }
    for instruction in [
        Instruction::Negate,
        Instruction::Dup,
        Instruction::Pop,
        Instruction::StoreVar(0),
        Instruction::BranchIfTrue(0),
        Instruction::BranchIfFalse(0),
    ] {
        let (machine, faults, stop) = ran(&[instruction, push(1.0)]);
        assert_eq!(stack_of(&machine), vec![1.0], "{:?}", instruction);
        assert_eq!(vars_of(&machine), vec![0.0, 0.0, 0.0]);
        assert_eq!(faults, vec![Fault::StackUnderflow]);
        assert_eq!(stop, Stop::Finished);
    }
}

#[test]
fn add_on_an_empty_stack_then_constants() {
    let (machine, faults, _) = ran(&[Instruction::Add, push(2.0), push(3.0)]);
    assert_eq!(stack_of(&machine), vec![2.0, 3.0]);
    assert_eq!(faults, vec![Fault::StackUnderflow]);
}

#[test]
fn a_branch_skips_to_its_target() {
    let (machine, faults, stop) = ran(&[Instruction::Branch(2), push(1.0), push(2.0)]);
    assert_eq!(stack_of(&machine), vec![2.0]);
    assert!(faults.is_empty());
    assert_eq!(stop, Stop::Finished);
}

#[test]
fn a_branch_out_of_the_program_halts_it() {
    let mut machine = Machine::new();
    machine.stack.push(num(1.0));
    let (faults, stop) = execute(&mut machine, &[Instruction::Branch(99)], 100);
    assert_eq!(stop, Stop::Halted(99));
    assert!(faults.is_empty());
    assert_eq!(stack_of(&machine), vec![1.0]);
    assert_eq!(machine.step(&[Instruction::Branch(99)]), Step::Finished);
}

#[test]
fn nothing_runs_after_a_branch_out_of_the_program() {
    let program = [push(1.0), Instruction::Branch(4), push(2.0), push(3.0)];
    let (machine, faults, stop) = ran(&program);
    assert_eq!(stop, Stop::Halted(4));
    assert_eq!(stack_of(&machine), vec![1.0]);
    assert!(faults.is_empty());
    let mut machine = Machine::new();
    assert_eq!(machine.step(&program), Step::Executed);
    assert_eq!(machine.step(&program), Step::Halted(4));
    assert_eq!(machine.ip, 4);
    assert_eq!(machine.step(&program), Step::Finished);
}

#[test]
fn a_branch_to_the_program_length_halts_it() {
    let (_, _, stop) = ran(&[Instruction::Branch(1)]);
    assert_eq!(stop, Stop::Halted(1));
    let (_, _, stop) = ran(&[Instruction::Branch(usize::MAX)]);
    assert_eq!(stop, Stop::Halted(usize::MAX));
}

#[test]
fn branch_if_true_pops_and_jumps_on_what_is_not_zero() {
    let taken = [push(7.0), push(1.0), Instruction::BranchIfTrue(4), push(8.0), push(9.0)];
    let (machine, faults, _) = ran(&taken);
    assert_eq!(stack_of(&machine), vec![7.0, 9.0]);
    assert!(faults.is_empty());
    let skipped = [push(7.0), push(0.0), Instruction::BranchIfTrue(4), push(8.0), push(9.0)];
    let (machine, _, _) = ran(&skipped);
    assert_eq!(stack_of(&machine), vec![7.0, 8.0, 9.0]);
    let nan = [push(f64::NAN), Instruction::BranchIfTrue(3), push(8.0), push(9.0)];
    let (machine, _, _) = ran(&nan);
    assert_eq!(stack_of(&machine), vec![9.0]);
    let minus_zero = [push(-0.0), Instruction::BranchIfTrue(3), push(8.0), push(9.0)];
    let (machine, _, _) = ran(&minus_zero);
    assert_eq!(stack_of(&machine), vec![8.0, 9.0]);
}

#[test]
fn branch_if_false_pops_and_jumps_on_zero() {
    let taken = [push(7.0), push(0.0), Instruction::BranchIfFalse(4), push(8.0), push(9.0)];
    let (machine, faults, _) = ran(&taken);
    assert_eq!(stack_of(&machine), vec![7.0, 9.0]);
    assert!(faults.is_empty());
    let skipped = [push(7.0), push(2.0), Instruction::BranchIfFalse(4), push(8.0), push(9.0)];
    let (machine, _, _) = ran(&skipped);
    assert_eq!(stack_of(&machine), vec![7.0, 8.0, 9.0]);
    let nan = [push(f64::NAN), Instruction::BranchIfFalse(3), push(8.0), push(9.0)];
    let (machine, _, _) = ran(&nan);
    assert_eq!(stack_of(&machine), vec![8.0, 9.0]);
}

#[test]
fn a_conditional_branch_out_of_the_program_halts_after_popping() {
    let (machine, faults, stop) = ran(&[push(5.0), push(1.0), Instruction::BranchIfTrue(9), push(2.0)]);
    assert_eq!(stop, Stop::Halted(9));
    assert_eq!(stack_of(&machine), vec![5.0]);
    assert!(faults.is_empty());
    let (machine, _, stop) = ran(&[push(5.0), push(0.0), Instruction::BranchIfFalse(4), push(2.0)]);
    assert_eq!(stop, Stop::Halted(4));
    assert_eq!(stack_of(&machine), vec![5.0]);
    let (machine, _, stop) = ran(&[push(0.0), Instruction::BranchIfTrue(9), push(2.0)]);
    assert_eq!(stop, Stop::Finished);
    assert_eq!(stack_of(&machine), vec![2.0]);
}

#[test]
fn a_backward_branch_on_a_true_condition_never_ends() {
    let program = [push(1.0), Instruction::BranchIfTrue(0)];
    let mut machine = Machine::new();
    for fuel in [1, 2, 3, 10, 1001] {
        machine.stack.clear();
        let (faults, stop) = execute(&mut machine, &program, fuel);
        assert_eq!(stop, Stop::OutOfFuel);
        assert!(faults.is_empty());
        assert_eq!(machine.ip, fuel % 2);
        assert_eq!(stack_of(&machine), if fuel % 2 == 1 { vec![1.0] } else { vec![] });
    }
    let mut faults = Vec::new();
    assert_eq!(machine.resume(&program, float_unit, 5000, &mut faults), Stop::OutOfFuel);
    assert!(faults.is_empty());
}

#[test]
fn a_countdown_loop_ends() {
    let program = [
        push(3.0),
        Instruction::StoreVar(0),
        Instruction::LoadVar(0),
        push(1.0),
        Instruction::Sub,
        Instruction::Dup,
        Instruction::StoreVar(0),
        Instruction::BranchIfTrue(2),
        Instruction::LoadVar(0),
    ];
    let (machine, faults, stop) = ran(&program);
    assert_eq!(stop, Stop::Finished);
    assert_eq!(stack_of(&machine), vec![0.0]);
    assert_eq!(vars_of(&machine), vec![0.0, 0.0, 0.0]);
    assert!(faults.is_empty());
}

#[test]
fn stack_and_variables_last_from_one_program_to_the_next() {
    let mut machine = Machine::new();
    execute(&mut machine, &[push(2.0), push(3.0), Instruction::StoreVar(2)], 100);
    let (faults, stop) = execute(&mut machine, &[Instruction::LoadVar(2), Instruction::Mul], 100);
    assert_eq!(stack_of(&machine), vec![6.0]);
    assert_eq!(vars_of(&machine), vec![0.0, 0.0, 3.0]);
    assert!(faults.is_empty());
    assert_eq!(stop, Stop::Finished);
}

#[test]
fn rewind_goes_back_to_the_first_instruction() {
    let program = [push(1.0), push(2.0)];
    let mut machine = Machine::new();
    machine.vars[1] = num(4.0);
    assert_eq!(machine.step(&program), Step::Executed);
    assert_eq!(machine.step(&program), Step::Executed);
    assert_eq!(machine.ip, 2);
    machine.rewind();
    assert_eq!(machine.ip, 0);
    assert_eq!(stack_of(&machine), vec![1.0, 2.0]);
    assert_eq!(vars_of(&machine), vec![0.0, 4.0, 0.0]);
    assert_eq!(machine.step(&program), Step::Executed);
    assert_eq!(stack_of(&machine), vec![1.0, 2.0, 1.0]);
}

#[test]
fn an_empty_program_is_finished_at_once() {
    let mut machine = Machine::new();
    assert_eq!(machine.step(&[]), Step::Finished);
    let mut faults = Vec::new();
    assert_eq!(machine.execute(&[], float_unit, 5, &mut faults), Stop::Finished);
    assert_eq!(machine.execute(&[], float_unit, 0, &mut faults), Stop::OutOfFuel);
    assert!(!machine.complete(&[], num(1.0)));
    assert!(machine.stack.is_empty());
    assert!(faults.is_empty());
}

#[test]
fn a_run_stops_when_the_fuel_is_used_up_and_resumes() {
    let program = [push(1.0), push(2.0), Instruction::Add, push(3.0)];
    let mut machine = Machine::new();
    let mut faults = Vec::new();
    assert_eq!(machine.execute(&program, float_unit, 2, &mut faults), Stop::OutOfFuel);
    assert_eq!(stack_of(&machine), vec![1.0, 2.0]);
    assert_eq!(machine.ip, 2);
    assert_eq!(machine.resume(&program, float_unit, 1, &mut faults), Stop::OutOfFuel);
    assert_eq!(stack_of(&machine), vec![3.0]);
    assert_eq!(machine.ip, 3);
    assert_eq!(machine.resume(&program, float_unit, 1, &mut faults), Stop::OutOfFuel);
    assert_eq!(machine.resume(&program, float_unit, 1, &mut faults), Stop::Finished);
    assert_eq!(stack_of(&machine), vec![3.0, 3.0]);
    assert_eq!(machine.execute(&program, float_unit, 4, &mut faults), Stop::OutOfFuel);
    assert_eq!(stack_of(&machine), vec![3.0, 3.0, 3.0, 3.0]);
    assert_eq!(machine.resume(&program, float_unit, 9, &mut faults), Stop::Finished);
    assert!(faults.is_empty());
}

#[test]
fn a_run_appends_faults_to_the_log_in_order() {
    let program = [
        Instruction::Pop,
        Instruction::LoadVar(7),
        push(1.0),
        push(0.0),
        Instruction::Div,
        Instruction::StoreVar(4),
    ];
    let mut machine = Machine::new();
    let mut faults = vec![Fault::DivisionByZero];
    assert_eq!(machine.execute(&program, float_unit, 100, &mut faults), Stop::Finished);
    assert_eq!(
        faults,
        vec![
            Fault::DivisionByZero,
            Fault::StackUnderflow,
            Fault::IndexOutOfRange(7),
            Fault::DivisionByZero,
            Fault::IndexOutOfRange(4),
        ]
    );
    assert_eq!(stack_of(&machine), vec![1.0, 0.0]);
}

#[test]
fn complete_does_nothing_where_no_result_is_awaited() {
    let program = [push(1.0), Instruction::Add, push(0.0), Instruction::Div, Instruction::Dup];
    let mut machine = Machine::new();
    assert!(!machine.complete(&program, num(9.0)));
    assert_eq!(machine.ip, 0);
    assert_eq!(machine.step(&program), Step::Executed);
    assert!(!machine.complete(&program, num(9.0)));
    assert_eq!(machine.step(&program), Step::Recovered(Fault::StackUnderflow));
    assert_eq!(machine.step(&program), Step::Executed);
    assert!(!machine.complete(&program, num(9.0)));
    assert_eq!(machine.step(&program), Step::Recovered(Fault::DivisionByZero));
    assert!(!machine.complete(&program, num(9.0)));
    assert_eq!(stack_of(&machine), vec![1.0, 0.0]);
    assert_eq!(machine.ip, 4);
}

#[test]
fn a_step_past_the_end_changes_nothing() {
    let program = [push(1.0)];
    let mut machine = Machine::new();
    machine.ip = 5;
    machine.stack.push(num(2.0));
    assert_eq!(machine.step(&program), Step::Finished);
    assert_eq!(machine.ip, 5);
    assert_eq!(stack_of(&machine), vec![2.0]);
}
