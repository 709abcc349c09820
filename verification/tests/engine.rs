use tape_machine::engine::{
    execute, parse_tape, render_tape, run, Execution, Fault, Machine, Outcome, Step, Stop,
    TraceEntry,
};
use tape_machine::program::{load, Branch, Program, State};

const LIMIT: u64 = 1000;

fn chars(text: &str) -> Vec<char> {
    text.chars().collect()
}

fn lines(items: &[&str]) -> Vec<String> {
    items.iter().map(|l| l.to_string()).collect()
}

fn go(program: &[&str], tape: &str) -> Result<Outcome, Fault> {
    run(&parse_tape(tape), &lines(program), false, LIMIT).result
}

fn ended(tape: &str, cursor: i128, steps: u64, stop: Stop) -> Result<Outcome, Fault> {
    Ok(Outcome { tape: parse_tape(tape), cursor, steps, stop })
}

#[test]
fn tape_is_read_from_ones() {
    assert_eq!(parse_tape("0110"), vec![false, true, true, false]);
    assert_eq!(parse_tape("1x 1"), vec![true, false, false, true]);
    assert_eq!(parse_tape(""), Vec::<bool>::new());
}

#[test]
fn tape_is_written_as_zeros_and_ones() {
    assert_eq!(render_tape(&vec![false, true, true, false]), "0110");
    assert_eq!(render_tape(&vec![]), "");
    assert_eq!(render_tape(&parse_tape("10a1")), "1001");
}

#[test]
fn set_then_jump_to_the_halt_marker() {
    assert_eq!(go(&["\\2", "END"], "0"), ended("1", 0, 1, Stop::Halted));
}

#[test]
fn jump_to_state_zero_is_fatal() {
    assert_eq!(
        go(&["0 >1", "END"], "01"),
        Err(Fault::InvalidJump { state: 1, target: 0 })
    );
}

#[test]
fn jump_beyond_the_last_state_is_fatal() {
    assert_eq!(
        go(&[">3", "END"], "01"),
        Err(Fault::InvalidJump { state: 1, target: 3 })
    );
    assert_eq!(
        go(&["2", "99999999999999999999999", "END"], "0"),
        Err(Fault::InvalidJump { state: 2, target: u64::MAX })
    );
}

#[test]
fn jump_to_the_last_state_is_taken() {
    assert_eq!(go(&["2", "END"], "0"), ended("0", 0, 1, Stop::Halted));
    assert_eq!(go(&["2", ">1"], "0"), ended("0", 0, 2, Stop::OffTape));
}

#[test]
fn halt_marker_alone_changes_nothing() {
    for tape in ["", "0", "1", "0110", "111111"] {
        assert_eq!(go(&["END"], tape), ended(tape, 0, 0, Stop::Halted));
        assert_eq!(
            run(&parse_tape(tape), &lines(&["END"]), true, 0),
            Execution { result: ended(tape, 0, 0, Stop::Halted), trace: vec![] }
        );
    }
}

#[test]
fn halt_marker_first_changes_nothing() {
    assert_eq!(go(&["END", ">1", "!"], "01"), ended("01", 0, 0, Stop::Halted));
}

#[test]
fn moving_right_walks_off_the_tape() {
    for tape in ["", "0", "1", "0110", "1111111"] {
        let cells = tape.len();
        assert_eq!(
            run(&parse_tape(tape), &lines(&[">1"]), false, cells as u64).result,
            ended(tape, cells as i128 - 1, cells as u64, Stop::OffTape)
        );
        assert_eq!(
            go(&[">2 >1", ">1 >2"], tape),
            ended(tape, cells as i128 - 1, cells as u64, Stop::OffTape)
        );
    }
}

#[test]
fn branch_is_selected_by_the_bit() {
    assert_eq!(go(&["\\2 /2", "END"], "0"), ended("1", 0, 1, Stop::Halted));
    assert_eq!(go(&["\\2 /2", "END"], "1"), ended("0", 0, 1, Stop::Halted));
    assert_eq!(go(&["!2", "END"], "0"), ended("1", 0, 1, Stop::Halted));
    assert_eq!(go(&["!2", "END"], "1"), ended("0", 0, 1, Stop::Halted));
}

#[test]
fn each_action_does_its_work() {
    assert_eq!(go(&[">2", "END"], "000"), ended("000", 1, 1, Stop::Halted));
    assert_eq!(go(&[">><2", "END"], "000"), ended("000", 1, 1, Stop::Halted));
    assert_eq!(go(&["}2", "END"], "000"), ended("000", 2, 1, Stop::Halted));
    assert_eq!(go(&["}{2", "END"], "000"), ended("000", 0, 1, Stop::Halted));
    assert_eq!(go(&["}\\{2", "END"], "000"), ended("001", 0, 1, Stop::Halted));
    assert_eq!(go(&["/>/>/2", "END"], "111"), ended("000", 2, 1, Stop::Halted));
    assert_eq!(go(&["\\>\\>\\2", "END"], "000"), ended("111", 2, 1, Stop::Halted));
    assert_eq!(go(&["!>!>!2", "END"], "010"), ended("101", 2, 1, Stop::Halted));
}

#[test]
fn flip_works_on_the_bit_under_the_cursor() {
    assert_eq!(go(&[">!2", "END"], "01"), ended("00", 1, 1, Stop::Halted));
    assert_eq!(go(&[">!2", "END"], "00"), ended("01", 1, 1, Stop::Halted));
    assert_eq!(go(&["!!2", "END"], "0"), ended("0", 0, 1, Stop::Halted));
}

#[test]
fn other_characters_are_passed_over() {
    assert_eq!(go(&["a>b\t>c2", "END"], "000"), ended("000", 2, 1, Stop::Halted));
}

#[test]
fn actions_after_the_first_digit_are_not_performed() {
    assert_eq!(go(&[">2>>\\", "END"], "000"), ended("000", 1, 1, Stop::Halted));
    assert_eq!(go(&["3\\", "\\", "END"], "0"), ended("0", 0, 1, Stop::Halted));
}

#[test]
fn digits_are_collected_from_the_whole_branch() {
    assert_eq!(
        go(&[">1>2", "END"], "000"),
        Err(Fault::InvalidJump { state: 1, target: 12 })
    );
    assert_eq!(
        go(&["0>3", "\\", "END"], "0"),
        ended("0", 0, 1, Stop::Halted)
    );
}

#[test]
fn branch_without_digits_falls_through() {
    assert_eq!(go(&["\\", ">", "END"], "00"), ended("10", 1, 2, Stop::Halted));
}

#[test]
fn falling_off_the_last_state_is_fatal() {
    assert_eq!(go(&[">"], "00"), Err(Fault::EndOfProgram { state: 1 }));
    assert_eq!(go(&["2", "\\"], "0"), Err(Fault::EndOfProgram { state: 2 }));
}

#[test]
fn cursor_off_the_tape_ends_the_run() {
    assert_eq!(go(&["<1"], "0"), ended("0", 0, 1, Stop::OffTape));
    assert_eq!(go(&[">1"], "0"), ended("0", 0, 1, Stop::OffTape));
    assert_eq!(go(&["<<1"], "0"), ended("0", -1, 1, Stop::OffTape));
    assert_eq!(go(&[">>>1"], "00"), ended("00", 2, 1, Stop::OffTape));
    assert_eq!(go(&["\\1"], ""), ended("", -1, 0, Stop::OffTape));
}

#[test]
fn halt_marker_is_checked_before_the_cursor() {
    assert_eq!(go(&[">2", "END"], "0"), ended("0", 1, 1, Stop::Halted));
    assert_eq!(go(&["<2", "END"], "0"), ended("0", -1, 1, Stop::Halted));
    assert_eq!(go(&["END"], ""), ended("", 0, 0, Stop::Halted));
}

#[test]
fn cursor_may_leave_the_tape_and_come_back_within_a_branch() {
    assert_eq!(go(&["<>\\2", "END"], "0"), ended("1", 0, 1, Stop::Halted));
    assert_eq!(go(&["><\\2", "END"], "0"), ended("1", 0, 1, Stop::Halted));
    assert_eq!(go(&["<<{\\2", "END"], "0"), ended("1", 0, 1, Stop::Halted));
}

#[test]
fn writing_off_the_tape_is_fatal() {
    assert_eq!(
        go(&["<!2", "END"], "0"),
        Err(Fault::WriteOffTape { state: 1, cursor: -1 })
    );
    assert_eq!(
        go(&["\\>/2", "END"], "0"),
        Err(Fault::WriteOffTape { state: 1, cursor: 1 })
    );
    assert_eq!(
        go(&["2", ">>\\0", "END"], "01"),
        Err(Fault::WriteOffTape { state: 2, cursor: 2 })
    );
}

#[test]
fn state_with_three_branches_is_malformed() {
    assert_eq!(go(&["> > >", "END"], "0"), Err(Fault::MalformedState { state: 1 }));
    assert_eq!(go(&["2", "1  2"], "0"), Err(Fault::MalformedState { state: 2 }));
}

#[test]
fn blank_line_is_malformed_when_reached() {
    assert_eq!(go(&["", "END"], "0"), Err(Fault::MalformedState { state: 1 }));
    assert_eq!(go(&[">", "", "END"], "00"), Err(Fault::MalformedState { state: 2 }));
    assert_eq!(go(&["3", "", "END"], "0"), ended("0", 0, 1, Stop::Halted));
}

#[test]
fn empty_branch_of_two_falls_through() {
    assert_eq!(go(&["> ", "END"], "0"), ended("0", 1, 1, Stop::Halted));
    assert_eq!(go(&["> ", "END"], "1"), ended("1", 0, 1, Stop::Halted));
}

#[test]
fn state_without_branches_is_malformed() {
    let program = Program::new(vec![State::new(vec![])]);
    assert_eq!(
        execute(&parse_tape("0"), &program, false, LIMIT).result,
        Err(Fault::MalformedState { state: 1 })
    );
}

#[test]
fn empty_program_has_no_first_state() {
    assert_eq!(go(&[], "0"), Err(Fault::NoSuchState { state: 1 }));
}

#[test]
fn step_limit_ends_a_run_that_goes_on() {
    let program = lines(&["!1"]);
    assert_eq!(run(&parse_tape("0"), &program, false, 0).result, Err(Fault::StepLimit));
    assert_eq!(run(&parse_tape("0"), &program, false, 7).result, Err(Fault::StepLimit));
}

#[test]
fn step_limit_allows_exactly_that_many_steps() {
    let program = lines(&[">", ">", ">", "END"]);
    assert_eq!(
        run(&parse_tape("00000"), &program, false, 3).result,
        ended("00000", 3, 3, Stop::Halted)
    );
    assert_eq!(run(&parse_tape("00000"), &program, false, 2).result, Err(Fault::StepLimit));
}

#[test]
fn a_failing_step_at_the_limit_is_not_taken() {
    assert_eq!(run(&parse_tape("0"), &lines(&["0"]), false, 0).result, Err(Fault::StepLimit));
    assert_eq!(
        run(&parse_tape("0"), &lines(&["0"]), false, 1).result,
        Err(Fault::InvalidJump { state: 1, target: 0 })
    );
}

#[test]
fn input_tape_is_not_changed() {
    let tape = parse_tape("000");
    let done = run(&tape, &lines(&["\\>\\>\\2", "END"]), false, LIMIT);
    assert_eq!(tape, parse_tape("000"));
    assert_eq!(done.result, ended("111", 2, 1, Stop::Halted));
}

#[test]
fn invert_every_bit() {
    let program = ["!>1"];
    assert_eq!(go(&program, "0110"), ended("1001", 3, 4, Stop::OffTape));
}

#[test]
fn binary_increment() {
    // Least significant bit first: flip trailing ones, set the first zero.
    let program = ["\\3 />1", "END", "END"];
    assert_eq!(go(&program, "1101"), ended("0011", 2, 3, Stop::Halted));
    assert_eq!(go(&program, "0"), ended("1", 0, 1, Stop::Halted));
    assert_eq!(go(&program, "111"), ended("000", 2, 3, Stop::OffTape));
}

#[test]
fn trace_has_one_line_per_step() {
    let done = run(&parse_tape("01"), &lines(&[">2 \\2", "!3 /3", "END"]), true, LIMIT);
    assert_eq!(done.result, ended("00", 1, 2, Stop::Halted));
    assert_eq!(
        done.trace,
        vec![
            TraceEntry { state: 1, bit: false, branch: chars(">2"), cursor: 0 },
            TraceEntry { state: 2, bit: true, branch: chars("/3"), cursor: 1 },
        ]
    );
}

#[test]
fn trace_is_empty_unless_asked_for() {
    let done = run(&parse_tape("01"), &lines(&[">2 \\2", "!3 /3", "END"]), false, LIMIT);
    assert_eq!(done.result, ended("00", 1, 2, Stop::Halted));
    assert!(done.trace.is_empty());
}

#[test]
fn trace_includes_the_step_that_failed() {
    let done = run(&parse_tape("01"), &lines(&["0 >1", "END"]), true, LIMIT);
    assert_eq!(done.result, Err(Fault::InvalidJump { state: 1, target: 0 }));
    assert_eq!(
        done.trace,
        vec![TraceEntry { state: 1, bit: false, branch: chars("0"), cursor: 0 }]
    );
}

#[test]
fn trace_has_no_line_for_a_malformed_state() {
    let done = run(&parse_tape("00"), &lines(&[">", "a b c"]), true, LIMIT);
    assert_eq!(done.result, Err(Fault::MalformedState { state: 2 }));
    assert_eq!(
        done.trace,
        vec![TraceEntry { state: 1, bit: false, branch: chars(">"), cursor: 0 }]
    );
}

#[test]
fn trace_stops_at_the_step_limit() {
    let done = run(&parse_tape("0"), &lines(&["!1"]), true, 3);
    assert_eq!(done.result, Err(Fault::StepLimit));
    assert_eq!(
        done.trace,
        vec![
            TraceEntry { state: 1, bit: false, branch: chars("!1"), cursor: 0 },
            TraceEntry { state: 1, bit: true, branch: chars("!1"), cursor: 0 },
            TraceEntry { state: 1, bit: false, branch: chars("!1"), cursor: 0 },
        ]
    );
}

#[test]
fn execute_runs_a_loaded_program() {
    let program = load("\\>2// set and move on\n/3 !3// clear or flip\nEND");
    assert_eq!(
        execute(&parse_tape("01"), &program, false, LIMIT).result,
        ended("10", 1, 2, Stop::Halted)
    );
}

#[test]
fn machine_starts_at_state_one_on_the_first_cell() {
    let machine = Machine::new(parse_tape("01"));
    assert_eq!(machine, Machine { state: 1, cursor: 0, tape: parse_tape("01") });
}

#[test]
fn step_runs_one_state() {
    let program = load(">2\n\\3\nEND");
    let mut machine = Machine::new(parse_tape("00"));
    assert_eq!(machine.step(&program), Step::Ran);
    assert_eq!(machine, Machine { state: 2, cursor: 1, tape: parse_tape("00") });
    assert_eq!(machine.step(&program), Step::Ran);
    assert_eq!(machine, Machine { state: 3, cursor: 1, tape: parse_tape("01") });
    assert_eq!(machine.step(&program), Step::Halted);
    assert_eq!(machine, Machine { state: 3, cursor: 1, tape: parse_tape("01") });
}

#[test]
fn step_moves_the_cursor_back_by_one() {
    let program = load(">1");
    let mut machine = Machine { state: 1, cursor: 5, tape: parse_tape("00") };
    assert_eq!(machine.step(&program), Step::OffTape);
    assert_eq!(machine.cursor, 4);
    let mut machine = Machine { state: 1, cursor: -3, tape: parse_tape("00") };
    assert_eq!(machine.step(&program), Step::OffTape);
    assert_eq!(machine.cursor, -2);
    let mut machine = Machine { state: 1, cursor: 0, tape: parse_tape("") };
    assert_eq!(machine.step(&program), Step::OffTape);
    assert_eq!(machine.cursor, -1);
}

#[test]
fn failed_step_leaves_the_machine_where_the_actions_left_it() {
    let program = load("\\>0\nEND");
    let mut machine = Machine::new(parse_tape("00"));
    assert_eq!(
        machine.step(&program),
        Step::Failed(Fault::InvalidJump { state: 1, target: 0 })
    );
    assert_eq!(machine, Machine { state: 1, cursor: 1, tape: parse_tape("10") });

    let program = load("\\<\\>/2\nEND");
    let mut machine = Machine::new(parse_tape("00"));
    assert_eq!(
        machine.step(&program),
        Step::Failed(Fault::WriteOffTape { state: 1, cursor: -1 })
    );
    assert_eq!(machine, Machine { state: 1, cursor: -1, tape: parse_tape("10") });
}

#[test]
fn step_at_a_state_that_does_not_exist_fails() {
    let program = load("END");
    let mut machine = Machine { state: 0, cursor: 0, tape: parse_tape("0") };
    assert_eq!(machine.step(&program), Step::Failed(Fault::NoSuchState { state: 0 }));
    let mut machine = Machine { state: 2, cursor: 0, tape: parse_tape("0") };
    assert_eq!(machine.step(&program), Step::Failed(Fault::NoSuchState { state: 2 }));
}

#[test]
fn trace_entry_describes_the_step_to_come() {
    let program = load("0 >1\nEND");
    let machine = Machine::new(parse_tape("10"));
    assert_eq!(
        machine.trace_entry(&program),
        Some(TraceEntry { state: 1, bit: true, branch: chars(">1"), cursor: 0 })
    );
    let machine = Machine { state: 2, cursor: 0, tape: parse_tape("10") };
    assert_eq!(machine.trace_entry(&program), None);
    let machine = Machine { state: 1, cursor: 2, tape: parse_tape("10") };
    assert_eq!(machine.trace_entry(&program), None);
    let machine = Machine { state: 3, cursor: 0, tape: parse_tape("10") };
    assert_eq!(machine.trace_entry(&program), None);
}

#[test]
fn branches_built_by_hand_run_like_loaded_ones() {
    let program = Program::new(vec![
        State::new(vec![Branch::new(chars("\\2"))]),
        State::new(vec![Branch::new(chars("END"))]),
    ]);
    assert_eq!(
        execute(&parse_tape("0"), &program, false, LIMIT).result,
        ended("1", 0, 1, Stop::Halted)
    );
}
