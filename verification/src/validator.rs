//! The static validator: what can be said of a program without running it.

use crate::program::{line_texts, states_of, Branch, Program, State};
use crate::text::{
    is_valid, jump_target, leading, leading_len, lemma_char_range, same_chars, scan_run, slice_of, trim, trimmed,
    valid_char, TARGET_MAX,
};
use vstd::prelude::*;

verus! {

/// One thing that the validator found, as the model sees it. Lines, states
/// and targets are held as they are counted inside the validator; what a
/// report shows for each is its [`shown`] form.
pub enum FindingView {
    /// A character that is neither an action nor a digit, and the line
    /// (counted from zero) that holds it.
    InvalidCharacter { line: nat, ch: char },
    /// Text that follows the first run of digits of a branch and so can
    /// never take effect, and the line (counted from zero) that holds it.
    UnreachableText { line: nat, fragment: Seq<char> },
    /// A declared state that no line leads to.
    UnusedState { state: nat },
    /// A jump to a state that is not declared.
    InvalidJump { target: nat },
}

/// One thing that the validator found.
#[derive(Debug, PartialEq, Eq)]
pub enum Finding {
    /// A character that is neither an action nor a digit, and the line
    /// (counted from zero) that holds it.
    InvalidCharacter { line: usize, ch: char },
    /// Text that follows the first run of digits of a branch and so can
    /// never take effect, and the line (counted from zero) that holds it.
    UnreachableText { line: usize, fragment: Vec<char> },
    /// A declared state that no line leads to.
    UnusedState { state: usize },
    /// A jump to a state that is not declared.
    InvalidJump { target: u64 },
}

impl View for Finding {
    type V = FindingView;

    open spec fn view(&self) -> FindingView {
        match *self {
            Finding::InvalidCharacter { line, ch } => FindingView::InvalidCharacter {
                line: line as nat,
                ch,
            },
            Finding::UnreachableText { line, fragment } => FindingView::UnreachableText {
                line: line as nat,
                fragment: fragment@,
            },
            Finding::UnusedState { state } => FindingView::UnusedState { state: state as nat },
            Finding::InvalidJump { target } => FindingView::InvalidJump { target: target as nat },
        }
    }
}

/// The views of a list of findings.
pub open spec fn finding_views(findings: Seq<Finding>) -> Seq<FindingView> {
    findings.map_values(|f: Finding| f@)
}

/// The number under which a report shows a line, a state or a jump target:
/// one more than the number that the validator holds.
pub open spec fn shown(index: nat) -> nat {
    index + 1
}

/// Exec form of [`shown`]. The largest number of all is shown as itself.
pub fn display_index(index: u64) -> (number: u64)
    ensures
        index < TARGET_MAX ==> number as nat == shown(index as nat),
        index == TARGET_MAX ==> number == TARGET_MAX,
{
    if index < TARGET_MAX {
        index + 1
    } else {
        TARGET_MAX
    }
}

/// The invalid characters of a branch, in order, each with its line.
pub open spec fn invalid_chars(line: nat, path: Seq<char>) -> Seq<FindingView>
    decreases path.len(),
{
    if path.len() == 0 {
        Seq::<FindingView>::empty()
    } else if !valid_char(path.last()) {
        invalid_chars(line, path.drop_last()).push(
            FindingView::InvalidCharacter { line, ch: path.last() },
        )
    } else {
        invalid_chars(line, path.drop_last())
    }
}

/// Whether a branch holds text that can never take effect: something other
/// than white space after its first run of digits. Both sides of the
/// comparison are trimmed.
pub open spec fn has_excess(path: Seq<char>) -> bool {
    trim(leading(path)) != trim(path)
}

/// What follows the first run of digits of a branch, as it is written.
pub open spec fn excess(path: Seq<char>) -> Seq<char> {
    path.skip(leading_len(path))
}

/// The findings on one branch: its invalid characters, then its unreachable
/// text if it has any.
pub open spec fn branch_findings(line: nat, path: Seq<char>) -> Seq<FindingView> {
    if has_excess(path) {
        invalid_chars(line, path).push(
            FindingView::UnreachableText { line, fragment: excess(path) },
        )
    } else {
        invalid_chars(line, path)
    }
}

/// The findings on the branches of one state, branch by branch.
pub open spec fn state_findings(line: nat, state: Seq<Seq<char>>) -> Seq<FindingView>
    decreases state.len(),
{
    if state.len() == 0 {
        Seq::<FindingView>::empty()
    } else {
        state_findings(line, state.drop_last()) + branch_findings(line, state.last())
    }
}

/// The findings on the branches of a program, state by state.
pub open spec fn scan_findings(program: Seq<Seq<Seq<char>>>) -> Seq<FindingView>
    decreases program.len(),
{
    if program.len() == 0 {
        Seq::<FindingView>::empty()
    } else {
        scan_findings(program.drop_last()) + state_findings(
            (program.len() - 1) as nat,
            program.last(),
        )
    }
}

/// The jump targets of the branches of one state, in order.
pub open spec fn state_jumps(state: Seq<Seq<char>>) -> Seq<nat>
    decreases state.len(),
{
    if state.len() == 0 {
        Seq::<nat>::empty()
    } else {
        match jump_target(state.last()) {
            Some(t) => state_jumps(state.drop_last()).push(t),
            None => state_jumps(state.drop_last()),
        }
    }
}

/// The jump targets of a program, in the order of its states and branches.
pub open spec fn jumps(program: Seq<Seq<Seq<char>>>) -> Seq<nat>
    decreases program.len(),
{
    if program.len() == 0 {
        Seq::<nat>::empty()
    } else {
        jumps(program.drop_last()) + state_jumps(program.last())
    }
}

/// The number of declared states of a program with `count` states: all but
/// the last, which is where a program ends.
pub open spec fn declared_count(count: nat) -> nat {
    if count == 0 {
        0
    } else {
        (count - 1) as nat
    }
}

/// Whether `state` is one of the declared states `1 ..= count - 1`.
pub open spec fn declared(count: nat, state: nat) -> bool {
    1 <= state <= declared_count(count)
}

/// Whether some line leads to `state`: each branch marks the state that
/// follows the index, counted from zero, of its line.
pub open spec fn visited(program: Seq<Seq<Seq<char>>>, state: nat) -> bool {
    1 <= state <= program.len() && program[state - 1].len() > 0
}

/// The declared states up to `limit` that no line leads to, in rising order.
pub open spec fn unused_up_to(program: Seq<Seq<Seq<char>>>, limit: nat) -> Seq<FindingView>
    decreases limit,
{
    if limit == 0 {
        Seq::<FindingView>::empty()
    } else {
        let before = unused_up_to(program, (limit - 1) as nat);
        if declared(program.len(), limit) && !visited(program, limit) {
            before.push(FindingView::UnusedState { state: limit })
        } else {
            before
        }
    }
}

/// `seen`, and after it the targets in `targets` that are no declared state
/// and not yet noted, each once, in the order in which they first appear.
pub open spec fn noted(seen: Seq<nat>, targets: Seq<nat>, count: nat) -> Seq<nat>
    decreases targets.len(),
{
    if targets.len() == 0 {
        seen
    } else {
        let before = noted(seen, targets.drop_last(), count);
        if declared(count, targets.last()) || before.contains(targets.last()) {
            before
        } else {
            before.push(targets.last())
        }
    }
}

/// The targets in `targets` that are no declared state, each once, in the
/// order in which they first appear.
pub open spec fn undeclared(targets: Seq<nat>, count: nat) -> Seq<nat> {
    noted(Seq::<nat>::empty(), targets, count)
}

/// One finding for each target.
pub open spec fn jump_findings(targets: Seq<nat>) -> Seq<FindingView> {
    targets.map_values(|t: nat| FindingView::InvalidJump { target: t })
}

/// What the validator reports, as the model sees it.
pub struct ReportView {
    /// The number of declared states: they are `1 ..= declared`.
    pub declared: nat,
    /// The findings: those on the branches, in the order of the program;
    /// then the unused states, rising; then the invalid jump targets, in
    /// the order in which the program first names them.
    pub findings: Seq<FindingView>,
    /// The number of errors: the findings on the branches.
    pub errors: nat,
}

/// The report on a program.
pub open spec fn report_of(program: Seq<Seq<Seq<char>>>) -> ReportView {
    ReportView {
        declared: declared_count(program.len()),
        findings: scan_findings(program) + unused_up_to(program, declared_count(program.len()))
            + jump_findings(undeclared(jumps(program), program.len())),
        errors: scan_findings(program).len(),
    }
}

/// What the validator reports.
#[derive(Debug, PartialEq, Eq)]
pub struct Report {
    /// The number of declared states: they are `1 ..= declared`.
    pub declared: usize,
    /// The findings: those on the branches, in the order of the program;
    /// then the unused states, rising; then the invalid jump targets, in
    /// the order in which the program first names them.
    pub findings: Vec<Finding>,
    /// The number of errors: the findings on the branches.
    pub errors: usize,
}

impl View for Report {
    type V = ReportView;

    open spec fn view(&self) -> ReportView {
        ReportView {
            declared: self.declared as nat,
            findings: finding_views(self.findings@),
            errors: self.errors as nat,
        }
    }
}

/// The views of a list of findings with one more finding.
proof fn lemma_views_push(findings: Seq<Finding>, finding: Finding)
    ensures
        finding_views(findings.push(finding)) == finding_views(findings).push(finding@),
{
    assert(finding_views(findings.push(finding)) =~= finding_views(findings).push(finding@));
}

/// Adds the findings on one branch to `findings`.
fn check_branch(line: usize, branch: &Branch, findings: &mut Vec<Finding>)
    ensures
        finding_views(final(findings)@) == finding_views(old(findings)@) + branch_findings(
            line as nat,
            branch@,
        ),
{
    let path = branch.text();
    let ghost start = finding_views(findings@);
    let mut i: usize = 0;
    while i < path.len()
        invariant
            i <= path.len(),
            finding_views(findings@) == start + invalid_chars(line as nat, path@.take(i as int)),
        decreases path.len() - i,
    {
        let c = path[i];
        proof {
            lemma_char_range(c);
            assert(path@.take(i + 1).drop_last() =~= path@.take(i as int));
        }
        if !is_valid(&c) {
            proof {
                lemma_views_push(findings@, Finding::InvalidCharacter { line, ch: c });
            }
            findings.push(Finding::InvalidCharacter { line, ch: c });
        }
        i += 1;
    }
    proof {
        assert(path@.take(path@.len() as int) =~= path@);
    }
    let first = scan_run(path, 0, false);
    let end = scan_run(path, first, true);
    let head = slice_of(path, 0, end);
    if !same_chars(&trimmed(&head), &trimmed(path)) {
        let fragment = slice_of(path, end, path.len());
        proof {
            lemma_views_push(findings@, Finding::UnreachableText { line, fragment });
        }
        findings.push(Finding::UnreachableText { line, fragment });
    }
}

/// Adds the findings on the branches of one state to `findings`.
fn check_state(line: usize, state: &State, findings: &mut Vec<Finding>)
    ensures
        finding_views(final(findings)@) == finding_views(old(findings)@) + state_findings(
            line as nat,
            state@,
        ),
{
    let ghost start = finding_views(findings@);
    let mut b: usize = 0;
    while b < state.len()
        invariant
            b <= state@.len(),
            finding_views(findings@) == start + state_findings(line as nat, state@.take(b as int)),
        decreases state@.len() - b,
    {
        check_branch(line, state.branch(b), findings);
        proof {
            assert(state@.take(b + 1).drop_last() =~= state@.take(b as int));
        }
        b += 1;
    }
    proof {
        assert(state@.take(state@.len() as int) =~= state@);
    }
}

/// The targets as the model counts them.
pub open spec fn target_values(targets: Seq<u64>) -> Seq<nat> {
    targets.map_values(|t: u64| t as nat)
}

/// Noting one list of targets after another is noting them all in one go.
proof fn lemma_noted_twice(seen: Seq<nat>, first: Seq<nat>, second: Seq<nat>, count: nat)
    ensures
        noted(noted(seen, first, count), second, count) == noted(seen, first + second, count),
    decreases second.len(),
{
    if second.len() > 0 {
        lemma_noted_twice(seen, first, second.drop_last(), count);
        assert((first + second).drop_last() =~= first + second.drop_last());
    }
}

/// Whether `targets` holds `target`.
fn holds(targets: &Vec<u64>, target: u64) -> (r: bool)
    ensures
        r == target_values(targets@).contains(target as nat),
{
    let mut i: usize = 0;
    while i < targets.len()
        invariant
            i <= targets.len(),
            forall|j: int| 0 <= j < i ==> targets@[j] != target,
        decreases targets.len() - i,
    {
        if targets[i] == target {
            assert(target_values(targets@)[i as int] == target as nat);
            return true;
        }
        i += 1;
    }
    false
}

/// Notes the jump targets of one state that are no declared state.
fn note_jumps(state: &State, count: usize, bad: &mut Vec<u64>)
    ensures
        target_values(final(bad)@) == noted(
            target_values(old(bad)@),
            state_jumps(state@),
            count as nat,
        ),
{
    let ghost start = target_values(bad@);
    let mut b: usize = 0;
    while b < state.len()
        invariant
            b <= state@.len(),
            target_values(bad@) == noted(start, state_jumps(state@.take(b as int)), count as nat),
        decreases state@.len() - b,
    {
        proof {
            assert(state@.take(b + 1).drop_last() =~= state@.take(b as int));
        }
        match state.branch(b).jump() {
            Some(target) => {
                let ghost jumps_before = state_jumps(state@.take(b as int));
                proof {
                    assert(jumps_before.push(target as nat).drop_last() =~= jumps_before);
                }
                let is_declared = 1 <= target && count >= 1 && target <= (count - 1) as u64;
                if !is_declared && !holds(bad, target) {
                    bad.push(target);
                }
            },
            None => {},
        }
        b += 1;
    }
    proof {
        assert(state@.take(state@.len() as int) =~= state@);
    }
}

/// Examines a program without running it.
///
/// Every branch is checked for characters that are neither actions nor
/// digits and for text after its first run of digits. Then the declared
/// states that no line leads to are listed, and the jump targets that are
/// no declared state. Only the findings on the branches count as errors.
/// The program is not changed, and the same program always gets the same
/// report.
pub fn validate(program: &Program) -> (report: Report)
    ensures
        report@ == report_of(program@),
{
    let count = program.len();
    let mut findings: Vec<Finding> = Vec::new();
    let mut bad: Vec<u64> = Vec::new();
    let mut line: usize = 0;
    while line < count
        invariant
            line <= count,
            count == program@.len(),
            finding_views(findings@) == scan_findings(program@.take(line as int)),
            target_values(bad@) == undeclared(jumps(program@.take(line as int)), count as nat),
        decreases count - line,
    {
        let state = program.state(line);
        proof {
            assert(program@.take(line + 1).drop_last() =~= program@.take(line as int));
            lemma_noted_twice(
                Seq::<nat>::empty(),
                jumps(program@.take(line as int)),
                state_jumps(state@),
                count as nat,
            );
        }
        check_state(line, state, &mut findings);
        note_jumps(state, count, &mut bad);
        line += 1;
    }
    proof {
        assert(program@.take(program@.len() as int) =~= program@);
    }
    let errors = findings.len();
    let declared = if count == 0 {
        0
    } else {
        count - 1
    };
    let ghost scanned = finding_views(findings@);
    let mut state: usize = 0;
    while state < declared
        invariant
            state <= declared < count || state == declared == count == 0,
            count == program@.len(),
            declared == declared_count(count as nat),
            finding_views(findings@) == scanned + unused_up_to(program@, state as nat),
        decreases declared - state,
    {
        state += 1;
        if program.state(state - 1).len() == 0 {
            proof {
                lemma_views_push(findings@, Finding::UnusedState { state });
            }
            findings.push(Finding::UnusedState { state });
        }
    }
    let ghost listed = finding_views(findings@);
    let mut k: usize = 0;
    while k < bad.len()
        invariant
            k <= bad.len(),
            finding_views(findings@) == listed + jump_findings(target_values(bad@).take(k as int)),
        decreases bad.len() - k,
    {
        let target = bad[k];
        proof {
            lemma_views_push(findings@, Finding::InvalidJump { target });
        }
        findings.push(Finding::InvalidJump { target });
        k += 1;
    }
    proof {
        assert(target_values(bad@).take(bad@.len() as int) =~= target_values(bad@));
    }
    Report { declared, findings, errors }
}

/// Examines the program that `instructions` holds, one state per line, the
/// comments already gone. See [`validate`].
pub fn debug(instructions: &Vec<String>) -> (report: Report)
    ensures
        report@ == report_of(states_of(line_texts(instructions@))),
{
    let program = Program::from_lines(instructions);
    validate(&program)
}

} // verus!
