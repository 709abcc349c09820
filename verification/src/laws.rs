//! What holds of every program and every tape.

use crate::engine::{
    perform, run_from, run_of, runs, select, start_of, step_of, trace_of, FaultView, MachineView,
    OutcomeView, Stop, StepView, TraceEntryView,
};
use crate::program::{actions_of, code_lines, halts, program_of, states_of, Action};
use crate::text::{
    comment_start, digit, first_digit, jump_target, leading, leading_len, lemma_comment_start,
    lemma_run_end_bounds, lemma_split_join, space_end, split, strip_comment, trim_end,
    white_space,
};
use crate::validator::{
    declared, declared_count, has_excess, jump_findings, jumps, noted, report_of, scan_findings,
    state_jumps, undeclared, unused_up_to, visited, FindingView, ReportView,
};
use vstd::prelude::*;

verus! {

/// A program whose first state is the halt marker, and so one whose only
/// state is the halt marker, does nothing: whatever the tape and the step
/// limit, the run ends well at once, with the tape as it was, the cursor on
/// the first cell, no step taken and nothing traced.
pub proof fn lemma_halt_marker_runs_nothing(
    program: Seq<Seq<Seq<char>>>,
    tape: Seq<bool>,
    limit: nat,
)
    requires
        program.len() >= 1,
        halts(program[0]),
    ensures
        run_of(program, tape, limit) == Ok::<OutcomeView, FaultView>(
            OutcomeView { tape, cursor: 0, steps: 0, stop: Stop::Halted },
        ),
        trace_of(program, tape, limit) == Seq::<TraceEntryView>::empty(),
{
}

/// A branch that moves the cursor one cell to the right, does nothing else,
/// and goes on to a state that the program has.
pub open spec fn moves_right(path: Seq<char>, state: nat, count: nat) -> bool {
    &&& actions_of(path) == seq![Action::Right]
    &&& match jump_target(path) {
        Some(target) => 1 <= target <= count,
        None => state < count,
    }
}

/// A state, given by its index, that is not the halt marker and whose one
/// or two branches all move right.
pub open spec fn state_moves_right(program: Seq<Seq<Seq<char>>>, index: int) -> bool {
    &&& !halts(program[index])
    &&& (program[index].len() == 1 || program[index].len() == 2)
    &&& forall|b: int|
        0 <= b < program[index].len() ==> moves_right(
            #[trigger] program[index][b],
            (index + 1) as nat,
            program.len(),
        )
}

/// A program that only ever moves right: it has a state, and every state
/// moves right.
pub open spec fn only_moves_right(program: Seq<Seq<Seq<char>>>) -> bool {
    &&& program.len() >= 1
    &&& forall|index: int| 0 <= index < program.len() ==> #[trigger] state_moves_right(program, index)
}

/// A program that only ever moves right, from anywhere on the tape or just
/// past its end.
proof fn lemma_moves_right_from(
    program: Seq<Seq<Seq<char>>>,
    m: MachineView,
    steps: nat,
    fuel: nat,
)
    requires
        only_moves_right(program),
        1 <= m.state <= program.len(),
        0 <= m.cursor <= m.tape.len(),
        fuel >= m.tape.len() - m.cursor,
    ensures
        run_from(program, m, steps, fuel) == Ok::<OutcomeView, FaultView>(
            OutcomeView {
                tape: m.tape,
                cursor: m.tape.len() - 1,
                steps: (steps + m.tape.len() - m.cursor) as nat,
                stop: Stop::OffTape,
            },
        ),
    decreases m.tape.len() - m.cursor,
{
    assert(state_moves_right(program, m.state - 1));
    if m.cursor < m.tape.len() {
        let state = program[m.state - 1];
        let path = state[if state.len() == 2 && m.tape[m.cursor] {
            1int
        } else {
            0int
        }];
        reveal_with_fuel(perform, 2);
        let after = step_of(program, m).1;
        lemma_moves_right_from(program, after, steps + 1, (fuel - 1) as nat);
    }
}

/// A program that only ever moves right walks the cursor off the end of the
/// tape: given at least as many steps as the tape has cells, the run ends
/// well with the tape as it was, the cursor on the last cell (one before
/// the first, for an empty tape) and one step taken for each cell.
pub proof fn lemma_moving_right_walks_the_tape(
    program: Seq<Seq<Seq<char>>>,
    tape: Seq<bool>,
    limit: nat,
)
    requires
        only_moves_right(program),
        limit >= tape.len(),
    ensures
        run_of(program, tape, limit) == Ok::<OutcomeView, FaultView>(
            OutcomeView {
                tape,
                cursor: tape.len() - 1,
                steps: tape.len(),
                stop: Stop::OffTape,
            },
        ),
{
    lemma_moves_right_from(program, start_of(tape), 0, limit);
}

/// Where no two slashes stand in a row, no comment starts.
proof fn lemma_no_marker(s: Seq<char>, from: int)
    requires
        0 <= from <= s.len(),
        forall|i: int| from <= i && i + 1 < s.len() ==> !(#[trigger] s[i] == '/' && s[i + 1] == '/'),
    ensures
        comment_start(s, from) == s.len(),
    decreases s.len() - from,
{
    if from + 1 < s.len() {
        lemma_no_marker(s, from + 1);
    }
}

/// What is left of a line after its comment is gone holds no comment:
/// stripping it again changes nothing.
pub proof fn lemma_strip_comment_twice(line: Seq<char>)
    ensures
        strip_comment(strip_comment(line)) == strip_comment(line),
{
    lemma_comment_start(line, 0);
    let code = strip_comment(line);
    assert forall|i: int| 0 <= i && i + 1 < code.len() implies !(#[trigger] code[i] == '/'
        && code[i + 1] == '/') by {
        assert(code[i] == line[i] && code[i + 1] == line[i + 1]);
    }
    lemma_no_marker(code, 0);
}

/// A comment added to a line is dropped again, provided that the line holds
/// no comment marker and does not end in a slash, which would join the
/// marker: the line with the comment stands for the same state as the line
/// without it, and the validator says the same of both.
pub proof fn lemma_comment_is_dropped(code: Seq<char>, comment: Seq<char>)
    requires
        comment_start(code, 0) == code.len(),
        code.len() == 0 || code.last() != '/',
    ensures
        strip_comment(code + seq!['/', '/'] + comment) == code,
        states_of(code_lines(seq![code + seq!['/', '/'] + comment])) == states_of(
            code_lines(seq![code]),
        ),
        report_of(states_of(code_lines(seq![code + seq!['/', '/'] + comment]))) == report_of(
            states_of(code_lines(seq![code])),
        ),
{
    let line = code + seq!['/', '/'] + comment;
    lemma_comment_start(code, 0);
    lemma_comment_start(line, 0);
    let n = code.len() as int;
    assert(line[n] == '/' && line[n + 1] == '/');
    assert(strip_comment(line) =~= code);
    assert(strip_comment(code) =~= code);
    assert(code_lines(seq![line]) =~= code_lines(seq![code]));
}

/// Stripping the comments from the lines of a program changes nothing for
/// the validator: the lines and their non-comment portions stand for the
/// same program, and so get the same report.
pub proof fn lemma_report_ignores_comments(lines: Seq<Seq<char>>)
    ensures
        states_of(code_lines(code_lines(lines))) == states_of(code_lines(lines)),
        report_of(states_of(code_lines(code_lines(lines)))) == report_of(
            states_of(code_lines(lines)),
        ),
{
    assert forall|i: int| 0 <= i < lines.len() implies code_lines(code_lines(lines))[i]
        == code_lines(lines)[i] by {
        lemma_strip_comment_twice(lines[i]);
    }
}

/// The validator reads a program and changes nothing, so running it twice
/// on the same program gives the same report twice.
pub proof fn lemma_report_is_repeatable(
    program: Seq<Seq<Seq<char>>>,
    first: ReportView,
    second: ReportView,
)
    requires
        first == report_of(program),
        second == report_of(program),
    ensures
        first == second,
{
}

/// The jump targets of a state hold the target of each of its branches.
proof fn lemma_state_jumps_hold(state: Seq<Seq<char>>, branch: int, target: nat)
    requires
        0 <= branch < state.len(),
        jump_target(state[branch]) == Some(target),
    ensures
        state_jumps(state).contains(target),
    decreases state.len(),
{
    let before = state_jumps(state.drop_last());
    if branch == state.len() - 1 {
        assert(before.push(target)[before.len() as int] == target);
    } else {
        lemma_state_jumps_hold(state.drop_last(), branch, target);
        let j = choose|j: int| 0 <= j < before.len() && before[j] == target;
        match jump_target(state.last()) {
            Some(other) => {
                assert(before.push(other)[j] == target);
            },
            None => {},
        }
    }
}

/// The jump targets of a program hold those of each of its states.
proof fn lemma_jumps_hold(program: Seq<Seq<Seq<char>>>, line: int, target: nat)
    requires
        0 <= line < program.len(),
        state_jumps(program[line]).contains(target),
    ensures
        jumps(program).contains(target),
    decreases program.len(),
{
    let before = jumps(program.drop_last());
    let last = state_jumps(program.last());
    if line == program.len() - 1 {
        let j = choose|j: int| 0 <= j < last.len() && last[j] == target;
        assert((before + last)[before.len() + j] == target);
    } else {
        lemma_jumps_hold(program.drop_last(), line, target);
        let j = choose|j: int| 0 <= j < before.len() && before[j] == target;
        assert((before + last)[j] == target);
    }
}

/// A branch that jumps to state zero, or to a state beyond the declared
/// ones, is flagged: the report holds an invalid jump with its target.
pub proof fn lemma_bad_jump_is_flagged(
    program: Seq<Seq<Seq<char>>>,
    line: int,
    branch: int,
    target: nat,
)
    requires
        0 <= line < program.len(),
        0 <= branch < program[line].len(),
        jump_target(program[line][branch]) == Some(target),
        target == 0 || target > declared_count(program.len()),
    ensures
        report_of(program).findings.contains(FindingView::InvalidJump { target }),
{
    lemma_state_jumps_hold(program[line], branch, target);
    lemma_jumps_hold(program, line, target);
    lemma_noted_is_exact(Seq::<nat>::empty(), jumps(program), program.len(), target);
    let bad = undeclared(jumps(program), program.len());
    let j = choose|j: int| 0 <= j < bad.len() && bad[j] == target;
    let head = scan_findings(program) + unused_up_to(program, declared_count(program.len()));
    assert((head + jump_findings(bad))[head.len() + j] == FindingView::InvalidJump { target });
}

/// A branch that jumps to state zero, or to a state beyond the last, is
/// fatal when it is taken: the step fails, with `InvalidJump` and the
/// target unless a write off the tape failed before the jump, and the run
/// ends in an error whatever the step limit.
pub proof fn lemma_bad_jump_is_fatal(
    program: Seq<Seq<Seq<char>>>,
    m: MachineView,
    steps: nat,
    fuel: nat,
    target: nat,
)
    requires
        runs(program, m),
        select(program[m.state - 1], m.tape[m.cursor]).is_some(),
        jump_target(select(program[m.state - 1], m.tape[m.cursor]).unwrap()) == Some(target),
        target == 0 || target > program.len(),
    ensures
        step_of(program, m).0 is Failed,
        perform(
            actions_of(select(program[m.state - 1], m.tape[m.cursor]).unwrap()),
            m.tape,
            m.cursor,
        ).complete ==> step_of(program, m).0 == StepView::Failed(
            FaultView::InvalidJump { state: m.state, target },
        ),
        run_from(program, m, steps, fuel) is Err,
{
}

/// The loader gives one state per line, blank lines included, and at least
/// one state; each state holds at least one branch, and is its line, cut
/// off at the comment marker and then cut at every space.
pub proof fn lemma_one_state_per_line(text: Seq<char>)
    ensures
        program_of(text).len() == split(text, '\n').len(),
        program_of(text).len() >= 1,
        forall|i: int|
            0 <= i < program_of(text).len() ==> (#[trigger] program_of(text)[i]) == split(
                strip_comment(split(text, '\n')[i]),
                ' ',
            ) && program_of(text)[i].len() >= 1,
{
    lemma_split_join(text, '\n');
    assert forall|i: int| 0 <= i < program_of(text).len() implies (#[trigger] program_of(text)[i])
        == split(strip_comment(split(text, '\n')[i]), ' ') && program_of(text)[i].len() >= 1 by {
        lemma_split_join(strip_comment(split(text, '\n')[i]), ' ');
    }
}

/// The unused states that a report lists are the declared states that no
/// line leads to.
pub proof fn lemma_unused_is_exact(program: Seq<Seq<Seq<char>>>, limit: nat, state: nat)
    ensures
        unused_up_to(program, limit).contains(FindingView::UnusedState { state }) <==> 1 <= state
            <= limit && declared(program.len(), state) && !visited(program, state),
    decreases limit,
{
    if limit > 0 {
        lemma_unused_is_exact(program, (limit - 1) as nat, state);
        let before = unused_up_to(program, (limit - 1) as nat);
        let wanted = FindingView::UnusedState { state };
        if declared(program.len(), limit) && !visited(program, limit) {
            let now = before.push(FindingView::UnusedState { state: limit });
            if before.contains(wanted) {
                let j = choose|j: int| 0 <= j < before.len() && before[j] == wanted;
                assert(now[j] == wanted);
            }
            if state == limit {
                assert(now[before.len() as int] == wanted);
            }
        }
    }
}

/// In a program where every state holds a branch, as in every program that
/// the loader gives, each line leads to the next state, so no state is
/// unused.
pub proof fn lemma_every_state_is_used(program: Seq<Seq<Seq<char>>>, limit: nat)
    requires
        forall|i: int| 0 <= i < program.len() ==> (#[trigger] program[i]).len() >= 1,
    ensures
        unused_up_to(program, limit) == Seq::<FindingView>::empty(),
    decreases limit,
{
    if limit > 0 {
        lemma_every_state_is_used(program, (limit - 1) as nat);
    }
}

/// What is noted is what was seen before and what is new and undeclared.
proof fn lemma_noted_is_exact(seen: Seq<nat>, targets: Seq<nat>, count: nat, target: nat)
    ensures
        noted(seen, targets, count).contains(target) <==> seen.contains(target) || (
        targets.contains(target) && !declared(count, target)),
    decreases targets.len(),
{
    if targets.len() > 0 {
        let rest = targets.drop_last();
        lemma_noted_is_exact(seen, rest, count, target);
        let before = noted(seen, rest, count);
        let now = noted(seen, targets, count);
        if targets.contains(target) && targets.last() != target {
            let j = choose|j: int| 0 <= j < targets.len() && targets[j] == target;
            assert(rest[j] == target);
        }
        if !(declared(count, targets.last()) || before.contains(targets.last())) {
            if before.contains(target) {
                let j = choose|j: int| 0 <= j < before.len() && before[j] == target;
                assert(now[j] == target);
            }
            if targets.last() == target {
                assert(now[before.len() as int] == target);
            }
        }
    }
}

/// Nothing is noted twice.
proof fn lemma_noted_once(seen: Seq<nat>, targets: Seq<nat>, count: nat)
    requires
        seen.no_duplicates(),
    ensures
        noted(seen, targets, count).no_duplicates(),
    decreases targets.len(),
{
    if targets.len() > 0 {
        lemma_noted_once(seen, targets.drop_last(), count);
    }
}

/// The invalid jump targets that a report lists are the jump targets that
/// are no declared state, and none is listed twice.
pub proof fn lemma_undeclared_is_exact(targets: Seq<nat>, count: nat)
    ensures
        forall|target: nat| #[trigger]
            undeclared(targets, count).contains(target) <==> targets.contains(target) && !declared(
                count,
                target,
            ),
        undeclared(targets, count).no_duplicates(),
{
    assert forall|target: nat| #[trigger]
        undeclared(targets, count).contains(target) <==> targets.contains(target) && !declared(
            count,
            target,
        ) by {
        lemma_noted_is_exact(Seq::<nat>::empty(), targets, count, target);
    }
    lemma_noted_once(Seq::<nat>::empty(), targets, count);
}

/// No action makes the tape longer or shorter.
pub proof fn lemma_actions_keep_the_length(actions: Seq<Action>, tape: Seq<bool>, cursor: int)
    ensures
        perform(actions, tape, cursor).tape.len() == tape.len(),
    decreases actions.len(),
{
    if actions.len() > 0 {
        let rest = actions.drop_first();
        match actions[0] {
            Action::Right => lemma_actions_keep_the_length(rest, tape, cursor + 1),
            Action::Left => lemma_actions_keep_the_length(rest, tape, cursor - 1),
            Action::Home => lemma_actions_keep_the_length(rest, tape, 0),
            Action::End => lemma_actions_keep_the_length(rest, tape, tape.len() - 1),
            Action::Flip => if 0 <= cursor < tape.len() {
                lemma_actions_keep_the_length(rest, tape.update(cursor, !tape[cursor]), cursor)
            },
            Action::Clear => if 0 <= cursor < tape.len() {
                lemma_actions_keep_the_length(rest, tape.update(cursor, false), cursor)
            },
            Action::Mark => if 0 <= cursor < tape.len() {
                lemma_actions_keep_the_length(rest, tape.update(cursor, true), cursor)
            },
        }
    }
}

/// No step makes the tape longer or shorter.
pub proof fn lemma_step_keeps_the_length(program: Seq<Seq<Seq<char>>>, m: MachineView)
    ensures
        step_of(program, m).1.tape.len() == m.tape.len(),
{
    if runs(program, m) {
        match select(program[m.state - 1], m.tape[m.cursor]) {
            Some(path) => lemma_actions_keep_the_length(actions_of(path), m.tape, m.cursor),
            None => {},
        }
    }
}

/// The tape has the same length at the end of a run as at its start, and a
/// run takes no more steps than its limit allows.
pub proof fn lemma_run_keeps_the_length(
    program: Seq<Seq<Seq<char>>>,
    m: MachineView,
    steps: nat,
    fuel: nat,
)
    ensures
        run_from(program, m, steps, fuel) matches Ok(outcome) ==> outcome.tape.len()
            == m.tape.len() && steps <= outcome.steps <= steps + fuel,
    decreases fuel,
{
    lemma_step_keeps_the_length(program, m);
    if runs(program, m) && fuel > 0 {
        lemma_run_keeps_the_length(program, step_of(program, m).1, steps + 1, (fuel - 1) as nat);
    }
}

/// The white space at the start of a text ends inside the text; before its
/// end stands white space only, and at its end, if anything, none.
proof fn lemma_space_end(s: Seq<char>, from: int)
    requires
        0 <= from <= s.len(),
    ensures
        from <= space_end(s, from) <= s.len(),
        forall|i: int| from <= i < space_end(s, from) ==> white_space(#[trigger] s[i]),
        space_end(s, from) < s.len() ==> !white_space(s[space_end(s, from)]),
    decreases s.len() - from,
{
    if from < s.len() && white_space(s[from]) {
        lemma_space_end(s, from + 1);
    }
}

/// A text without the white space at its end is the start of the text; it
/// does not end in white space, and only white space was left out.
proof fn lemma_trim_end(s: Seq<char>)
    ensures
        trim_end(s).len() <= s.len(),
        trim_end(s) == s.take(trim_end(s).len() as int),
        trim_end(s).len() > 0 ==> !white_space(s[trim_end(s).len() - 1]),
        forall|i: int| trim_end(s).len() <= i < s.len() ==> white_space(#[trigger] s[i]),
    decreases s.len(),
{
    if s.len() > 0 && white_space(s.last()) {
        lemma_trim_end(s.drop_last());
        let kept = trim_end(s).len() as int;
        assert forall|i: int| kept <= i < s.len() implies white_space(#[trigger] s[i]) by {
            if i < s.len() - 1 {
                assert(s.drop_last()[i] == s[i]);
            }
        }
    }
}

/// A branch has unreachable text exactly when something other than white
/// space follows its first run of digits.
pub proof fn lemma_excess_is_text(path: Seq<char>)
    ensures
        has_excess(path) <==> exists|i: int|
            leading_len(path) <= i < path.len() && !white_space(#[trigger] path[i]),
{
    let d = first_digit(path);
    let k = leading_len(path);
    lemma_run_end_bounds(path, 0, false);
    lemma_run_end_bounds(path, d, true);
    if k == path.len() {
        // Nothing follows the digits.
        assert(leading(path) =~= path);
    } else {
        // Something follows, so there are digits, and the last of them
        // stands at `k - 1`. The white space at the start ends before the
        // first digit, in the branch as in its leading part.
        let head = leading(path);
        let a = space_end(path, 0);
        let b = space_end(head, 0);
        lemma_space_end(path, 0);
        lemma_space_end(head, 0);
        if a < b {
            assert(head[a] == path[a]);
        }
        // The leading part ends in a digit: trimming takes nothing from its
        // end. Trimming the branch leaves `e` characters after `a`.
        let short = head.skip(a);
        let long = path.skip(a);
        lemma_trim_end(long);
        let e = trim_end(long).len() as int;
        if exists|i: int| k <= i < path.len() && !white_space(#[trigger] path[i]) {
            let i = choose|i: int| k <= i < path.len() && !white_space(#[trigger] path[i]);
            assert(long[i - a] == path[i]);
        } else {
            assert(long[k - a - 1] == path[k - 1]);
            assert(long.take(e) =~= short);
        }
    }
}

} // verus!
