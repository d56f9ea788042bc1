use bf_engine::interpreter::{Interpreter, StepEvent};
use bf_engine::semantics::{ExecError, Outcome};

fn tokens_of(program: &str) -> Vec<char> {
    program.chars().collect()
}

fn run_program(program: &str, inputs: Vec<Vec<u8>>, fuel: u64) -> (Interpreter, Vec<u8>, Outcome) {
    let mut interp = Interpreter::new(tokens_of(program));
    let (out, outcome) = interp.execute(&inputs, fuel);
    (interp, out, outcome)
}

#[test]
fn fresh_engine_reads_zero() {
    let mut interp = Interpreter::new(tokens_of(""));
    assert_eq!(interp.get_current_value(), 0);
}

#[test]
fn pointer_wraps_right_from_last_cell_and_left_from_first() {
    let mut interp = Interpreter::new(Vec::new());
    interp.decrement_pointer(); // cell 0 -> last cell
    interp.increment_value(); // last cell = 1
    interp.increment_pointer(); // last cell -> cell 0 again
    assert_eq!(interp.get_current_value(), 0);
    interp.decrement_pointer(); // cell 0 -> last cell again
    assert_eq!(interp.get_current_value(), 1);
}

#[test]
fn pointer_wraps_over_a_full_revolution() {
    let mut interp = Interpreter::new(Vec::new());
    interp.increment_value(); // cell 0 = 1
    for _ in 0..4000 {
        interp.increment_pointer();
    }
    assert_eq!(interp.get_current_value(), 1); // back on cell 0
    for _ in 0..4000 {
        interp.decrement_pointer();
    }
    assert_eq!(interp.get_current_value(), 1);
}

#[test]
fn value_wraps_255_to_0_on_increment() {
    let mut interp = Interpreter::new(Vec::new());
    interp.input_current_value(255);
    interp.increment_value();
    assert_eq!(interp.get_current_value(), 0);
}

#[test]
fn value_wraps_0_to_255_on_decrement() {
    let mut interp = Interpreter::new(Vec::new());
    interp.decrement_value();
    assert_eq!(interp.get_current_value(), 255);
}

#[test]
fn loop_decrements_active_cell_to_zero() {
    let (mut interp, out, outcome) = run_program("+++[-]", Vec::new(), 1000);
    assert_eq!(outcome, Outcome::Success);
    assert_eq!(interp.get_current_value(), 0);
    assert_eq!(out, vec![b'\n']);
}

#[test]
fn nested_loops_leave_the_hand_computed_tape() {
    let (mut interp, _, outcome) = run_program("++[>++[>+<-]<-]", Vec::new(), 10_000);
    assert_eq!(outcome, Outcome::Success);
    assert_eq!(interp.get_current_value(), 0); // cell 0
    interp.increment_pointer();
    assert_eq!(interp.get_current_value(), 0); // cell 1
    interp.increment_pointer();
    assert_eq!(interp.get_current_value(), 4); // cell 2
}

#[test]
fn loop_close_on_zero_cell_with_empty_stack_succeeds() {
    let (_, out, outcome) = run_program("]", Vec::new(), 10);
    assert_eq!(outcome, Outcome::Success);
    assert_eq!(out, vec![b'\n']);
}

#[test]
fn repeating_loop_close_with_empty_stack_fails() {
    let (_, out, outcome) = run_program("+]", Vec::new(), 10);
    assert_eq!(outcome, Outcome::Failure(ExecError::UnmatchedLoopClose));
    assert_eq!(out, Vec::<u8>::new());
}

#[test]
fn invalid_token_reports_its_position() {
    let (_, _, outcome) = run_program("a", Vec::new(), 10);
    assert_eq!(outcome, Outcome::Failure(ExecError::InvalidToken(0)));
}

#[test]
fn invalid_token_position_counts_every_character() {
    let (_, _, outcome) = run_program("+\n+a", Vec::new(), 10);
    assert_eq!(outcome, Outcome::Failure(ExecError::InvalidToken(3)));
}

#[test]
fn input_then_output_round_trips_one_character() {
    let (_, out, outcome) = run_program(",.", vec![b"X".to_vec()], 10);
    assert_eq!(outcome, Outcome::Success);
    assert_eq!(out, vec![b'X', b'\n']);
}

#[test]
fn input_takes_the_first_byte_of_the_line() {
    let (_, out, outcome) = run_program(",.", vec![b"YZ".to_vec()], 10);
    assert_eq!(outcome, Outcome::Success);
    assert_eq!(out, vec![b'Y', b'\n']);
}

#[test]
fn empty_input_line_is_a_typed_error() {
    let (_, _, outcome) = run_program(",", vec![Vec::new()], 10);
    assert_eq!(outcome, Outcome::Failure(ExecError::EmptyInputLine));
}

#[test]
fn running_out_of_input_lines_is_a_read_failure() {
    let (_, _, outcome) = run_program(",", Vec::new(), 10);
    assert_eq!(outcome, Outcome::Failure(ExecError::InputReadFailure));
}

#[test]
fn unbounded_loop_exhausts_the_budget() {
    let (_, out, outcome) = run_program("+[]", Vec::new(), 100);
    assert_eq!(outcome, Outcome::OutOfFuel);
    assert_eq!(out, Vec::<u8>::new());
}

#[test]
fn blanks_cost_nothing_and_an_empty_program_halts() {
    let (_, out, outcome) = run_program(" \t\n \n", Vec::new(), 0);
    assert_eq!(outcome, Outcome::Success);
    assert_eq!(out, vec![b'\n']);

    let (_, out, outcome) = run_program("", Vec::new(), 0);
    assert_eq!(outcome, Outcome::Success);
    assert_eq!(out, vec![b'\n']);
}

#[test]
fn blanks_between_tokens_change_nothing() {
    let plain = "++[>++[>+<-]<-]>>.";
    let padded = " +\t+ [\n> + + [ > + < - ] < -\n]\t> > .";
    let (_, out_plain, outcome_plain) = run_program(plain, Vec::new(), 10_000);
    let (_, out_padded, outcome_padded) = run_program(padded, Vec::new(), 10_000);
    assert_eq!(outcome_plain, Outcome::Success);
    assert_eq!(out_plain, vec![4, b'\n']);
    assert_eq!(out_padded, out_plain);
    assert_eq!(outcome_padded, outcome_plain);
}

#[test]
fn output_writes_the_tape_not_the_stale_cache() {
    // The cached value is refreshed only by pointer moves; output must read
    // the tape itself, so an increment right before it is visible.
    let (_, out, outcome) = run_program("+.", Vec::new(), 10);
    assert_eq!(outcome, Outcome::Success);
    assert_eq!(out, vec![1, b'\n']);
}

#[test]
fn loop_open_pushes_even_on_a_zero_cell() {
    // A loop whose guard is already zero still runs its body once: the body
    // decrements the cell to 255, and the loop then counts it back down.
    let (mut interp, _, outcome) = run_program("[-]", Vec::new(), 10_000);
    assert_eq!(outcome, Outcome::Success);
    assert_eq!(interp.get_current_value(), 0);
}

#[test]
fn step_and_feed_input_drive_one_instruction_at_a_time() {
    let mut interp = Interpreter::new(tokens_of(",."));
    assert_eq!(interp.step(), StepEvent::AwaitingInput);
    assert!(interp.at_input_instruction());
    assert_eq!(interp.feed_input(Some(&b"Z\n".to_vec())), Ok(()));
    assert_eq!(interp.step(), StepEvent::Emitted(b'Z'));
    assert_eq!(interp.step(), StepEvent::Halted);
}

#[test]
fn feed_input_surfaces_read_failures_and_empty_lines() {
    let mut interp = Interpreter::new(tokens_of(","));
    assert_eq!(interp.step(), StepEvent::AwaitingInput);
    assert_eq!(interp.feed_input(None), Err(ExecError::InputReadFailure));
    assert_eq!(
        interp.feed_input(Some(&Vec::new())),
        Err(ExecError::EmptyInputLine)
    );
    assert_eq!(interp.feed_input(Some(&b"A".to_vec())), Ok(()));
    assert_eq!(interp.step(), StepEvent::Halted);
}

#[test]
fn step_reports_failures_without_consuming_them() {
    let mut interp = Interpreter::new(tokens_of("+]"));
    assert_eq!(interp.step(), StepEvent::Advanced);
    assert_eq!(
        interp.step(),
        StepEvent::Failed(ExecError::UnmatchedLoopClose)
    );

    let mut interp = Interpreter::new(tokens_of("b"));
    assert_eq!(
        interp.step(),
        StepEvent::Failed(ExecError::InvalidToken(0))
    );
}

#[test]
fn jump_stack_methods_repeat_and_exit_loops() {
    let mut interp = Interpreter::new(tokens_of("[]"));
    interp.push_loop_marker(); // as if '[' at index 0 was dispatched
    interp.increment_value();
    assert_eq!(interp.jumpto_last_marker(), Ok(()));
    interp.decrement_value();
    interp.pop_loop_marker();
    assert_eq!(
        interp.jumpto_last_marker(),
        Err(ExecError::UnmatchedLoopClose)
    );
}
