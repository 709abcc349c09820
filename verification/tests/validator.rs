use tape_machine::engine::{parse_tape, run, Fault};
use tape_machine::program::{load, Branch, Program, State};
use tape_machine::validator::{debug, display_index, validate, Finding, Report};

fn chars(text: &str) -> Vec<char> {
    text.chars().collect()
}

fn lines(items: &[&str]) -> Vec<String> {
    items.iter().map(|l| l.to_string()).collect()
}

fn check(program: &[&str]) -> Report {
    debug(&lines(program))
}

#[test]
fn display_index_is_one_more() {
    assert_eq!(display_index(0), 1);
    assert_eq!(display_index(41), 42);
    assert_eq!(display_index(u64::MAX - 1), u64::MAX);
    assert_eq!(display_index(u64::MAX), u64::MAX);
}

#[test]
fn clean_program_has_no_findings() {
    assert_eq!(
        check(&[">1 !2", "<1", "1"]),
        Report { declared: 2, findings: vec![], errors: 0 }
    );
}

#[test]
fn invalid_characters_are_reported_with_their_line() {
    assert_eq!(
        check(&[">1", "a>b1 c2", "END"]),
        Report {
            declared: 2,
            findings: vec![
                Finding::InvalidCharacter { line: 1, ch: 'a' },
                Finding::InvalidCharacter { line: 1, ch: 'b' },
                Finding::InvalidCharacter { line: 1, ch: 'c' },
                Finding::InvalidCharacter { line: 2, ch: 'E' },
                Finding::InvalidCharacter { line: 2, ch: 'N' },
                Finding::InvalidCharacter { line: 2, ch: 'D' },
            ],
            errors: 6,
        }
    );
}

#[test]
fn text_after_the_first_digits_is_unreachable() {
    assert_eq!(
        check(&[">1>", "1", "1"]),
        Report {
            declared: 2,
            findings: vec![Finding::UnreachableText { line: 0, fragment: chars(">") }],
            errors: 1,
        }
    );
    assert_eq!(
        check(&["1 >12<<2!", "1", "1"]),
        Report {
            declared: 2,
            findings: vec![
                Finding::UnreachableText { line: 0, fragment: chars("<<2!") },
                Finding::InvalidJump { target: 122 },
            ],
            errors: 1,
        }
    );
}

#[test]
fn white_space_after_the_digits_is_not_unreachable_text() {
    assert_eq!(
        check(&["1\t", "1", "1"]),
        Report {
            declared: 2,
            findings: vec![Finding::InvalidCharacter { line: 0, ch: '\t' }],
            errors: 1,
        }
    );
    assert_eq!(
        check(&["\t1\t>", "1", "1"]),
        Report {
            declared: 2,
            findings: vec![
                Finding::InvalidCharacter { line: 0, ch: '\t' },
                Finding::InvalidCharacter { line: 0, ch: '\t' },
                Finding::UnreachableText { line: 0, fragment: chars("\t>") },
            ],
            errors: 3,
        }
    );
}

#[test]
fn invalid_characters_come_before_unreachable_text() {
    assert_eq!(
        check(&["x1y", "1"]),
        Report {
            declared: 1,
            findings: vec![
                Finding::InvalidCharacter { line: 0, ch: 'x' },
                Finding::InvalidCharacter { line: 0, ch: 'y' },
                Finding::UnreachableText { line: 0, fragment: chars("y") },
            ],
            errors: 3,
        }
    );
}

#[test]
fn jump_to_state_zero_or_beyond_is_flagged() {
    assert_eq!(
        check(&["0 >1", ">1", "END"]).findings,
        vec![
            Finding::InvalidCharacter { line: 2, ch: 'E' },
            Finding::InvalidCharacter { line: 2, ch: 'N' },
            Finding::InvalidCharacter { line: 2, ch: 'D' },
            Finding::InvalidJump { target: 0 },
        ]
    );
    assert_eq!(
        check(&[">4", ">2", "1"]).findings,
        vec![Finding::InvalidJump { target: 4 }]
    );
    assert_eq!(
        check(&[">99999999999999999999999", "1"]).findings,
        vec![Finding::InvalidJump { target: u64::MAX }]
    );
}

#[test]
fn jump_to_the_last_state_is_flagged() {
    assert_eq!(
        check(&["\\2", "1"]),
        Report { declared: 1, findings: vec![Finding::InvalidJump { target: 2 }], errors: 0 }
    );
}

#[test]
fn flagged_jump_is_fatal_when_taken() {
    for target in ["0", "3", "4", "18446744073709551615", "18446744073709551616"] {
        let program = lines(&[target, "END"]);
        let shown: u64 = target.parse().unwrap_or(u64::MAX);
        assert!(debug(&program).findings.contains(&Finding::InvalidJump { target: shown }));
        assert_eq!(
            run(&parse_tape("0"), &program, false, 10).result,
            Err(Fault::InvalidJump { state: 1, target: shown })
        );
    }
}

#[test]
fn invalid_jumps_are_listed_once_in_order_of_appearance() {
    assert_eq!(
        check(&["9 7", "9", "1 8", "7 0", "1"]).findings,
        vec![
            Finding::InvalidJump { target: 9 },
            Finding::InvalidJump { target: 7 },
            Finding::InvalidJump { target: 8 },
            Finding::InvalidJump { target: 0 },
        ]
    );
}

#[test]
fn invalid_jumps_and_unused_states_are_no_errors() {
    let program = Program::new(vec![
        State::new(vec![Branch::new(chars("9"))]),
        State::new(vec![]),
        State::new(vec![Branch::new(chars("1"))]),
    ]);
    assert_eq!(
        validate(&program),
        Report {
            declared: 2,
            findings: vec![
                Finding::UnusedState { state: 2 },
                Finding::InvalidJump { target: 9 },
            ],
            errors: 0,
        }
    );
}

#[test]
fn state_after_a_line_without_branches_is_unused() {
    let program = Program::new(vec![
        State::new(vec![]),
        State::new(vec![]),
        State::new(vec![Branch::new(chars("1"))]),
        State::new(vec![]),
    ]);
    assert_eq!(
        validate(&program).findings,
        vec![Finding::UnusedState { state: 1 }, Finding::UnusedState { state: 2 }]
    );
}

#[test]
fn every_state_of_a_loaded_program_is_used() {
    let report = validate(&load(">2\n\n\nEND\n"));
    assert!(!report.findings.iter().any(|f| matches!(f, Finding::UnusedState { .. })));
}

#[test]
fn blank_lines_have_no_findings() {
    assert_eq!(check(&["", "", ""]), Report { declared: 2, findings: vec![], errors: 0 });
}

#[test]
fn empty_program_has_an_empty_report() {
    assert_eq!(check(&[]), Report { declared: 0, findings: vec![], errors: 0 });
}

#[test]
fn one_state_program_declares_no_state() {
    assert_eq!(
        check(&["1"]),
        Report { declared: 0, findings: vec![Finding::InvalidJump { target: 1 }], errors: 0 }
    );
}

#[test]
fn validating_twice_gives_the_same_report() {
    let program = load("x1y 0\n>9 // far\n\nEND");
    let first = validate(&program);
    let second = validate(&program);
    assert_eq!(first, second);
    assert_eq!(program, load("x1y 0\n>9 // far\n\nEND"));
}

#[test]
fn comments_do_not_change_the_report() {
    assert_eq!(
        validate(&load("x1y 0// first\n>9// far\n// nothing\n1")),
        validate(&load("x1y 0\n>9\n\n1"))
    );
    assert_eq!(
        validate(&load("a1b// c1d")),
        Report {
            declared: 0,
            findings: vec![
                Finding::InvalidCharacter { line: 0, ch: 'a' },
                Finding::InvalidCharacter { line: 0, ch: 'b' },
                Finding::UnreachableText { line: 0, fragment: chars("b") },
                Finding::InvalidJump { target: 1 },
            ],
            errors: 3,
        }
    );
}

#[test]
fn halt_marker_is_scanned_like_any_line() {
    assert_eq!(
        check(&["1", "END"]),
        Report {
            declared: 1,
            findings: vec![
                Finding::InvalidCharacter { line: 1, ch: 'E' },
                Finding::InvalidCharacter { line: 1, ch: 'N' },
                Finding::InvalidCharacter { line: 1, ch: 'D' },
            ],
            errors: 3,
        }
    );
}
