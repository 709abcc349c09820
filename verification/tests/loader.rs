use tape_machine::program::{action_for, load, Action, Branch, Program, State};

fn chars(text: &str) -> Vec<char> {
    text.chars().collect()
}

fn lines(items: &[&str]) -> Vec<String> {
    items.iter().map(|l| l.to_string()).collect()
}

fn branch_texts(state: &State) -> Vec<String> {
    (0..state.len()).map(|i| state.branch(i).text().iter().collect()).collect()
}

fn shape(program: &Program) -> Vec<Vec<String>> {
    (0..program.len()).map(|i| branch_texts(program.state(i))).collect()
}

#[test]
fn each_action_character_has_its_action() {
    assert_eq!(action_for('>'), Some(Action::Right));
    assert_eq!(action_for('<'), Some(Action::Left));
    assert_eq!(action_for('!'), Some(Action::Flip));
    assert_eq!(action_for('{'), Some(Action::Home));
    assert_eq!(action_for('}'), Some(Action::End));
    assert_eq!(action_for('/'), Some(Action::Clear));
    assert_eq!(action_for('\\'), Some(Action::Mark));
    assert_eq!(action_for('1'), None);
    assert_eq!(action_for(' '), None);
    assert_eq!(action_for('E'), None);
}

#[test]
fn branch_holds_the_actions_before_its_first_digit() {
    let branch = Branch::new(chars("><x!1>2"));
    assert_eq!(branch.text(), &chars("><x!1>2"));
    assert_eq!(branch.actions(), &vec![Action::Right, Action::Left, Action::Flip]);
    assert_eq!(branch.jump(), Some(12));
}

#[test]
fn branch_without_digits_has_no_jump() {
    let branch = Branch::new(chars("{}/\\"));
    assert_eq!(
        branch.actions(),
        &vec![Action::Home, Action::End, Action::Clear, Action::Mark]
    );
    assert_eq!(branch.jump(), None);
}

#[test]
fn empty_branch_does_nothing() {
    let branch = Branch::new(chars(""));
    assert!(branch.actions().is_empty());
    assert_eq!(branch.jump(), None);
}

#[test]
fn state_is_cut_at_every_space() {
    assert_eq!(branch_texts(&State::parse(&chars("0 >1"))), vec!["0", ">1"]);
    assert_eq!(branch_texts(&State::parse(&chars(">1"))), vec![">1"]);
    assert_eq!(branch_texts(&State::parse(&chars(""))), vec![""]);
    assert_eq!(branch_texts(&State::parse(&chars("a b c"))), vec!["a", "b", "c"]);
    assert_eq!(branch_texts(&State::parse(&chars("a  b"))), vec!["a", "", "b"]);
}

#[test]
fn only_the_exact_marker_halts() {
    assert!(State::parse(&chars("END")).is_halt());
    assert!(!State::parse(&chars("END ")).is_halt());
    assert!(!State::parse(&chars(" END")).is_halt());
    assert!(!State::parse(&chars("end")).is_halt());
    assert!(!State::parse(&chars("ENDS")).is_halt());
    assert!(!State::parse(&chars("EN")).is_halt());
    assert!(!State::parse(&chars("")).is_halt());
    assert!(!State::parse(&chars("END END")).is_halt());
}

#[test]
fn load_gives_one_state_per_line() {
    let program = load("\\2\nEND");
    assert_eq!(shape(&program), vec![vec!["\\2"], vec!["END"]]);
    assert!(program.state(1).is_halt());
}

#[test]
fn load_accepts_the_empty_text() {
    let program = load("");
    assert_eq!(shape(&program), vec![vec![""]]);
}

#[test]
fn load_keeps_blank_lines_as_states() {
    let program = load(">2\n\nEND\n");
    assert_eq!(shape(&program), vec![vec![">2"], vec![""], vec!["END"], vec![""]]);
}

#[test]
fn load_strips_comments_before_cutting() {
    let program = load("0 >1 // two branches\nEND// done\n// only a comment");
    assert_eq!(
        shape(&program),
        vec![vec!["0", ">1", ""], vec!["END"], vec![""]]
    );
    assert!(program.state(1).is_halt());
}

#[test]
fn a_space_before_the_comment_stays() {
    let program = load("END // done");
    assert_eq!(shape(&program), vec![vec!["END", ""]]);
    assert!(!program.state(0).is_halt());
}

#[test]
fn load_does_not_look_at_what_branches_hold() {
    let program = load("hello world\n\t\r\n12 34 56");
    assert_eq!(
        shape(&program),
        vec![vec!["hello", "world"], vec!["\t\r"], vec!["12", "34", "56"]]
    );
}

#[test]
fn stripping_a_comment_changes_nothing_for_the_loader() {
    assert_eq!(load(">1 // right\nEND"), load(">1 \nEND"));
    assert_eq!(load("// a\n// b"), load("\n"));
}

#[test]
fn from_lines_takes_lines_as_they_are() {
    let program = Program::from_lines(&lines(&["0 >1", "END"]));
    assert_eq!(shape(&program), vec![vec!["0", ">1"], vec!["END"]]);
    let program = Program::from_lines(&lines(&["a//b"]));
    assert_eq!(shape(&program), vec![vec!["a//b"]]);
    assert_eq!(Program::from_lines(&lines(&[])).len(), 0);
}

#[test]
fn from_lines_agrees_with_load_on_text_without_comments() {
    assert_eq!(
        Program::from_lines(&lines(&[">2", "", "END"])),
        load(">2\n\nEND")
    );
}

#[test]
fn programs_can_be_built_from_states() {
    let state = State::new(vec![Branch::new(chars(">1"))]);
    let program = Program::new(vec![state, State::new(vec![])]);
    assert_eq!(shape(&program), vec![vec![">1".to_string()], vec![]]);
}
