//! The execution engine: one state transition per step, until the program
//! halts, the cursor leaves the tape, or something goes wrong.

use crate::program::{actions_of, halts, line_texts, states_of, Action, Program};
use crate::text::{chars_of, jump_target, prefix};
use vstd::prelude::*;

verus! {

/// Why a run ended well.
#[derive(Clone, Copy, Debug, PartialEq, Eq, Structural)]
pub enum Stop {
    /// The machine reached the halt marker.
    Halted,
    /// The cursor was off the tape when a step was due. It has been moved
    /// one cell back towards the tape.
    OffTape,
}

/// Why a run could not go on, as the model sees it.
pub enum FaultView {
    /// The machine is at a state that the program does not have.
    NoSuchState { state: nat },
    /// The state is a blank line, or has neither one branch nor two.
    MalformedState { state: nat },
    /// A branch of the state wrote to the tape while the cursor was off it.
    WriteOffTape { state: nat, cursor: int },
    /// A branch of the state jumped to a state that the program does not
    /// have.
    InvalidJump { state: nat, target: nat },
    /// A branch of the last state named no target, and no state follows.
    EndOfProgram { state: nat },
    /// The step limit was reached before the run ended.
    StepLimit,
}

/// Why a run could not go on.
#[derive(Clone, Copy, Debug, PartialEq, Eq)]
pub enum Fault {
    /// The machine is at a state that the program does not have.
    NoSuchState { state: usize },
    /// The state is a blank line, or has neither one branch nor two.
    MalformedState { state: usize },
    /// A branch of the state wrote to the tape while the cursor was off it.
    WriteOffTape { state: usize, cursor: i128 },
    /// A branch of the state jumped to a state that the program does not
    /// have.
    InvalidJump { state: usize, target: u64 },
    /// A branch of the last state named no target, and no state follows.
    EndOfProgram { state: usize },
    /// The step limit was reached before the run ended.
    StepLimit,
}

impl View for Fault {
    type V = FaultView;

    open spec fn view(&self) -> FaultView {
        match *self {
            Fault::NoSuchState { state } => FaultView::NoSuchState { state: state as nat },
            Fault::MalformedState { state } => FaultView::MalformedState { state: state as nat },
            Fault::WriteOffTape { state, cursor } => FaultView::WriteOffTape {
                state: state as nat,
                cursor: cursor as int,
            },
            Fault::InvalidJump { state, target } => FaultView::InvalidJump {
                state: state as nat,
                target: target as nat,
            },
            Fault::EndOfProgram { state } => FaultView::EndOfProgram { state: state as nat },
            Fault::StepLimit => FaultView::StepLimit,
        }
    }
}

/// How one step ended, as the model sees it.
pub enum StepView {
    /// A branch was run and the machine is at its next state.
    Ran,
    /// The machine is at the halt marker; nothing changed.
    Halted,
    /// The cursor was off the tape; it has been moved one cell back.
    OffTape,
    /// The step failed.
    Failed(FaultView),
}

/// How one step ended.
#[derive(Clone, Copy, Debug, PartialEq, Eq)]
pub enum Step {
    /// A branch was run and the machine is at its next state.
    Ran,
    /// The machine is at the halt marker; nothing changed.
    Halted,
    /// The cursor was off the tape; it has been moved one cell back.
    OffTape,
    /// The step failed.
    Failed(Fault),
}

impl View for Step {
    type V = StepView;

    open spec fn view(&self) -> StepView {
        match *self {
            Step::Ran => StepView::Ran,
            Step::Halted => StepView::Halted,
            Step::OffTape => StepView::OffTape,
            Step::Failed(fault) => StepView::Failed(fault@),
        }
    }
}

/// A machine between two steps, as the model sees it.
pub struct MachineView {
    /// The number of the current state, counted from one.
    pub state: nat,
    /// The cursor. It is on the tape when it is in `0 .. tape.len()`.
    pub cursor: int,
    /// The tape.
    pub tape: Seq<bool>,
}

/// The machine at the start of a run: state one, cursor on the first cell.
pub open spec fn start_of(tape: Seq<bool>) -> MachineView {
    MachineView { state: 1, cursor: 0, tape }
}

/// Where a list of actions leaves the tape and the cursor.
pub struct Performed {
    pub tape: Seq<bool>,
    pub cursor: int,
    /// False if an action wrote to the tape while the cursor was off it.
    /// The actions after that one were not performed.
    pub complete: bool,
}

/// Performs `actions` in order. A move changes the cursor only, and may take
/// it off the tape. A write changes the bit under the cursor; with the
/// cursor off the tape it ends the list.
pub open spec fn perform(actions: Seq<Action>, tape: Seq<bool>, cursor: int) -> Performed
    decreases actions.len(),
{
    if actions.len() == 0 {
        Performed { tape, cursor, complete: true }
    } else {
        let rest = actions.drop_first();
        match actions[0] {
            Action::Right => perform(rest, tape, cursor + 1),
            Action::Left => perform(rest, tape, cursor - 1),
            Action::Home => perform(rest, tape, 0),
            Action::End => perform(rest, tape, tape.len() - 1),
            Action::Flip => if 0 <= cursor < tape.len() {
                perform(rest, tape.update(cursor, !tape[cursor]), cursor)
            } else {
                Performed { tape, cursor, complete: false }
            },
            Action::Clear => if 0 <= cursor < tape.len() {
                perform(rest, tape.update(cursor, false), cursor)
            } else {
                Performed { tape, cursor, complete: false }
            },
            Action::Mark => if 0 <= cursor < tape.len() {
                perform(rest, tape.update(cursor, true), cursor)
            } else {
                Performed { tape, cursor, complete: false }
            },
        }
    }
}

/// A state read from a blank line: one branch, and nothing in it.
pub open spec fn blank(state: Seq<Seq<char>>) -> bool {
    state.len() == 1 && state[0].len() == 0
}

/// The branch that a state runs on `bit`: its only branch, or of two the
/// first for a zero and the second for a one. `None` for a blank line and
/// for any other number of branches: such a state cannot be run.
pub open spec fn select(state: Seq<Seq<char>>, bit: bool) -> Option<Seq<char>> {
    if blank(state) {
        None
    } else if state.len() == 1 {
        Some(state[0])
    } else if state.len() == 2 {
        Some(
            state[if bit {
                1int
            } else {
                0int
            }],
        )
    } else {
        None
    }
}

/// Whether a step of the machine runs a state: the program has the state,
/// it is not the halt marker, and the cursor is on the tape.
pub open spec fn runs(program: Seq<Seq<Seq<char>>>, m: MachineView) -> bool {
    &&& 1 <= m.state <= program.len()
    &&& !halts(program[m.state - 1])
    &&& 0 <= m.cursor < m.tape.len()
}

/// One step: how it ends, and the machine after it.
///
/// At the halt marker nothing happens. With the cursor off the tape, the
/// cursor moves one cell back towards the tape and nothing else happens.
/// Otherwise the bit under the cursor selects a branch, the actions of the
/// branch are performed, and the machine goes to the state that the branch
/// names, or to the next state if it names none. A failed step leaves the
/// machine at its state, with the tape and the cursor as the actions that
/// were performed left them.
pub open spec fn step_of(program: Seq<Seq<Seq<char>>>, m: MachineView) -> (StepView, MachineView) {
    if !(1 <= m.state <= program.len()) {
        (StepView::Failed(FaultView::NoSuchState { state: m.state }), m)
    } else if halts(program[m.state - 1]) {
        (StepView::Halted, m)
    } else if m.cursor < 0 {
        (StepView::OffTape, MachineView { cursor: m.cursor + 1, ..m })
    } else if m.cursor >= m.tape.len() {
        (StepView::OffTape, MachineView { cursor: m.cursor - 1, ..m })
    } else {
        match select(program[m.state - 1], m.tape[m.cursor]) {
            None => (StepView::Failed(FaultView::MalformedState { state: m.state }), m),
            Some(path) => {
                let done = perform(actions_of(path), m.tape, m.cursor);
                let after = MachineView { state: m.state, cursor: done.cursor, tape: done.tape };
                if !done.complete {
                    (
                        StepView::Failed(
                            FaultView::WriteOffTape { state: m.state, cursor: done.cursor },
                        ),
                        after,
                    )
                } else {
                    match jump_target(path) {
                        Some(target) => if 1 <= target <= program.len() {
                            (StepView::Ran, MachineView { state: target, ..after })
                        } else {
                            (
                                StepView::Failed(
                                    FaultView::InvalidJump { state: m.state, target },
                                ),
                                after,
                            )
                        },
                        None => if m.state < program.len() {
                            (StepView::Ran, MachineView { state: m.state + 1, ..after })
                        } else {
                            (StepView::Failed(FaultView::EndOfProgram { state: m.state }), after)
                        },
                    }
                }
            },
        }
    }
}

/// One line of a trace, as the model sees it.
pub struct TraceEntryView {
    /// The number of the state that ran.
    pub state: nat,
    /// The bit that was read.
    pub bit: bool,
    /// The text of the branch that was selected.
    pub branch: Seq<char>,
    /// The cursor before the actions of the branch.
    pub cursor: int,
}

/// The trace line of the step that the machine is about to take, if that
/// step selects a branch.
pub open spec fn entry_of(program: Seq<Seq<Seq<char>>>, m: MachineView) -> Option<TraceEntryView> {
    if runs(program, m) {
        match select(program[m.state - 1], m.tape[m.cursor]) {
            Some(path) => Some(
                TraceEntryView {
                    state: m.state,
                    bit: m.tape[m.cursor],
                    branch: path,
                    cursor: m.cursor,
                },
            ),
            None => None,
        }
    } else {
        None
    }
}

/// How a run ended well, as the model sees it.
pub struct OutcomeView {
    /// The tape at the end.
    pub tape: Seq<bool>,
    /// The cursor at the end.
    pub cursor: int,
    /// The number of states that were run.
    pub steps: nat,
    /// Why the run ended.
    pub stop: Stop,
}

/// The run of a machine that has taken `steps` steps and may take `fuel`
/// more. It ends well at the halt marker or with the cursor off the tape,
/// and fails where a step fails. If a state is due to run when no fuel is
/// left, the run fails with `StepLimit`.
pub open spec fn run_from(
    program: Seq<Seq<Seq<char>>>,
    m: MachineView,
    steps: nat,
    fuel: nat,
) -> Result<OutcomeView, FaultView>
    decreases fuel,
{
    let (kind, after) = step_of(program, m);
    if !runs(program, m) {
        match kind {
            StepView::Failed(fault) => Err(fault),
            StepView::OffTape => Ok(
                OutcomeView { tape: after.tape, cursor: after.cursor, steps, stop: Stop::OffTape },
            ),
            _ => Ok(
                OutcomeView { tape: after.tape, cursor: after.cursor, steps, stop: Stop::Halted },
            ),
        }
    } else if fuel == 0 {
        Err(FaultView::StepLimit)
    } else {
        match kind {
            StepView::Failed(fault) => Err(fault),
            _ => run_from(program, after, steps + 1, (fuel - 1) as nat),
        }
    }
}

/// The trace of the same run: one line for each step that selected a branch.
pub open spec fn trace_from(program: Seq<Seq<Seq<char>>>, m: MachineView, fuel: nat) -> Seq<
    TraceEntryView,
>
    decreases fuel,
{
    match entry_of(program, m) {
        None => Seq::<TraceEntryView>::empty(),
        Some(entry) => if fuel == 0 {
            Seq::<TraceEntryView>::empty()
        } else {
            let (kind, after) = step_of(program, m);
            match kind {
                StepView::Failed(_) => seq![entry],
                _ => seq![entry] + trace_from(program, after, (fuel - 1) as nat),
            }
        },
    }
}

/// The run of a program on a tape, with at most `limit` steps.
pub open spec fn run_of(program: Seq<Seq<Seq<char>>>, tape: Seq<bool>, limit: nat) -> Result<
    OutcomeView,
    FaultView,
> {
    run_from(program, start_of(tape), 0, limit)
}

/// The trace of that run.
pub open spec fn trace_of(program: Seq<Seq<Seq<char>>>, tape: Seq<bool>, limit: nat) -> Seq<
    TraceEntryView,
> {
    trace_from(program, start_of(tape), limit)
}

/// A machine between two steps: a state number, a tape and a cursor.
#[derive(Debug, PartialEq, Eq)]
pub struct Machine {
    /// The number of the current state, counted from one.
    pub state: usize,
    /// The cursor. It is on the tape when it is in `0 .. tape.len()`.
    pub cursor: i128,
    /// The tape.
    pub tape: Vec<bool>,
}

impl View for Machine {
    type V = MachineView;

    open spec fn view(&self) -> MachineView {
        MachineView { state: self.state as nat, cursor: self.cursor as int, tape: self.tape@ }
    }
}

/// Exec form of [`perform`], for a cursor that starts on the tape.
fn perform_actions(actions: &Vec<Action>, tape: &mut Vec<bool>, cursor: i128) -> (end: (
    i128,
    bool,
))
    requires
        0 <= cursor < old(tape)@.len(),
    ensures
        perform(actions@, old(tape)@, cursor as int) == (Performed {
            tape: final(tape)@,
            cursor: end.0 as int,
            complete: end.1,
        }),
{
    let ghost first = tape@;
    let size = tape.len();
    let mut cur: i128 = cursor;
    let mut i: usize = 0;
    assert(actions@.skip(0) =~= actions@);
    while i < actions.len()
        invariant
            i <= actions.len(),
            tape@.len() == size,
            size == first.len(),
            first == old(tape)@,
            -1 - i <= cur <= size + i,
            perform(actions@.skip(i as int), tape@, cur as int) == perform(
                actions@,
                first,
                cursor as int,
            ),
        decreases actions.len() - i,
    {
        proof {
            assert(actions@.skip(i as int).drop_first() =~= actions@.skip(i + 1));
        }
        match actions[i] {
            Action::Right => {
                cur = cur + 1;
            },
            Action::Left => {
                cur = cur - 1;
            },
            Action::Home => {
                cur = 0;
            },
            Action::End => {
                cur = size as i128 - 1;
            },
            Action::Flip => {
                if cur < 0 || cur >= size as i128 {
                    return (cur, false);
                }
                let at = cur as usize;
                let bit = tape[at];
                tape[at] = !bit;
            },
            Action::Clear => {
                if cur < 0 || cur >= size as i128 {
                    return (cur, false);
                }
                tape[cur as usize] = false;
            },
            Action::Mark => {
                if cur < 0 || cur >= size as i128 {
                    return (cur, false);
                }
                tape[cur as usize] = true;
            },
        }
        i += 1;
    }
    (cur, true)
}

/// One line of a trace.
#[derive(Debug, PartialEq, Eq)]
pub struct TraceEntry {
    /// The number of the state that ran.
    pub state: usize,
    /// The bit that was read.
    pub bit: bool,
    /// The text of the branch that was selected.
    pub branch: Vec<char>,
    /// The cursor before the actions of the branch.
    pub cursor: i128,
}

impl View for TraceEntry {
    type V = TraceEntryView;

    open spec fn view(&self) -> TraceEntryView {
        TraceEntryView {
            state: self.state as nat,
            bit: self.bit,
            branch: self.branch@,
            cursor: self.cursor as int,
        }
    }
}

/// The views of a list of trace lines.
pub open spec fn trace_views(trace: Seq<TraceEntry>) -> Seq<TraceEntryView> {
    trace.map_values(|e: TraceEntry| e@)
}

/// How a step that runs no state ends.
pub open spec fn rest_kind(rest: Result<Stop, Fault>) -> StepView {
    match rest {
        Ok(Stop::Halted) => StepView::Halted,
        Ok(Stop::OffTape) => StepView::OffTape,
        Err(fault) => StepView::Failed(fault@),
    }
}

impl Machine {
    /// A machine at the start of a run on `tape`.
    pub fn new(tape: Vec<bool>) -> (machine: Machine)
        ensures
            machine@ == start_of(tape@),
    {
        Machine { state: 1, cursor: 0, tape }
    }

    /// The part of a step that comes before a state is run. Returns `None`,
    /// and changes nothing, if a state is due to run.
    fn settle(&mut self, program: &Program) -> (rest: Option<Result<Stop, Fault>>)
        ensures
            runs(program@, old(self)@) ==> rest.is_none() && final(self)@ == old(self)@,
            !runs(program@, old(self)@) ==> rest.is_some() && rest_kind(rest.unwrap()) == step_of(
                program@,
                old(self)@,
            ).0 && final(self)@ == step_of(program@, old(self)@).1,
    {
        if self.state < 1 || self.state > program.len() {
            return Some(Err(Fault::NoSuchState { state: self.state }));
        }
        if program.state(self.state - 1).is_halt() {
            return Some(Ok(Stop::Halted));
        }
        if self.cursor < 0 {
            self.cursor = self.cursor + 1;
            return Some(Ok(Stop::OffTape));
        }
        if self.cursor >= self.tape.len() as i128 {
            self.cursor = self.cursor - 1;
            return Some(Ok(Stop::OffTape));
        }
        None
    }

    /// The part of a step that runs a state.
    fn advance(&mut self, program: &Program) -> (kind: Step)
        requires
            runs(program@, old(self)@),
        ensures
            kind@ == step_of(program@, old(self)@).0,
            final(self)@ == step_of(program@, old(self)@).1,
    {
        let state = program.state(self.state - 1);
        assert(self.tape.len() <= usize::MAX);
        let bit = self.tape[self.cursor as usize];
        let count = state.len();
        if (count != 1 && count != 2) || (count == 1 && state.branch(0).text().len() == 0) {
            return Step::Failed(Fault::MalformedState { state: self.state });
        }
        let branch = state.branch(
            if count == 2 && bit {
                1
            } else {
                0
            },
        );
        let (cursor, complete) = perform_actions(branch.actions(), &mut self.tape, self.cursor);
        self.cursor = cursor;
        if !complete {
            return Step::Failed(Fault::WriteOffTape { state: self.state, cursor });
        }
        match branch.jump() {
            Some(target) => {
                if 1 <= target && target <= program.len() as u64 {
                    self.state = target as usize;
                    Step::Ran
                } else {
                    Step::Failed(Fault::InvalidJump { state: self.state, target })
                }
            },
            None => {
                if self.state < program.len() {
                    self.state = self.state + 1;
                    Step::Ran
                } else {
                    Step::Failed(Fault::EndOfProgram { state: self.state })
                }
            },
        }
    }

    /// Takes one step of `program`. See [`step_of`].
    pub fn step(&mut self, program: &Program) -> (kind: Step)
        ensures
            kind@ == step_of(program@, old(self)@).0,
            final(self)@ == step_of(program@, old(self)@).1,
    {
        match self.settle(program) {
            Some(Ok(Stop::Halted)) => Step::Halted,
            Some(Ok(Stop::OffTape)) => Step::OffTape,
            Some(Err(fault)) => Step::Failed(fault),
            None => self.advance(program),
        }
    }

    /// The trace line of the step that the machine is about to take, if
    /// that step selects a branch.
    pub fn trace_entry(&self, program: &Program) -> (entry: Option<TraceEntry>)
        ensures
            entry.is_some() == entry_of(program@, self@).is_some(),
            entry.is_some() ==> entry.unwrap()@ == entry_of(program@, self@).unwrap(),
    {
        if self.state < 1 || self.state > program.len() {
            return None;
        }
        let state = program.state(self.state - 1);
        if state.is_halt() || self.cursor < 0 || self.cursor >= self.tape.len() as i128 {
            return None;
        }
        let bit = self.tape[self.cursor as usize];
        let count = state.len();
        if (count != 1 && count != 2) || (count == 1 && state.branch(0).text().len() == 0) {
            return None;
        }
        let text = state.branch(
            if count == 2 && bit {
                1
            } else {
                0
            },
        ).text();
        let branch = prefix(text, text.len());
        assert(text@.take(text@.len() as int) =~= text@);
        Some(TraceEntry { state: self.state, bit, branch, cursor: self.cursor })
    }
}

/// How a run ended well.
#[derive(Debug, PartialEq, Eq)]
pub struct Outcome {
    /// The tape at the end.
    pub tape: Vec<bool>,
    /// The cursor at the end.
    pub cursor: i128,
    /// The number of states that were run.
    pub steps: u64,
    /// Why the run ended.
    pub stop: Stop,
}

impl View for Outcome {
    type V = OutcomeView;

    open spec fn view(&self) -> OutcomeView {
        OutcomeView {
            tape: self.tape@,
            cursor: self.cursor as int,
            steps: self.steps as nat,
            stop: self.stop,
        }
    }
}

/// The view of the result of a run.
pub open spec fn result_view(result: Result<Outcome, Fault>) -> Result<OutcomeView, FaultView> {
    match result {
        Ok(outcome) => Ok(outcome@),
        Err(fault) => Err(fault@),
    }
}

/// A run: how it ended, and its trace if one was asked for.
#[derive(Debug, PartialEq, Eq)]
pub struct Execution {
    /// How the run ended.
    pub result: Result<Outcome, Fault>,
    /// One line for each step that selected a branch, in order. Empty
    /// unless a trace was asked for.
    pub trace: Vec<TraceEntry>,
}

/// A copy of `tape`.
fn copy_tape(tape: &Vec<bool>) -> (copy: Vec<bool>)
    ensures
        copy@ == tape@,
{
    let mut copy: Vec<bool> = Vec::new();
    let mut i: usize = 0;
    while i < tape.len()
        invariant
            i <= tape.len(),
            copy@ == tape@.take(i as int),
        decreases tape.len() - i,
    {
        copy.push(tape[i]);
        i += 1;
    }
    copy
}

/// The views of a trace with one more line.
proof fn lemma_trace_push(trace: Seq<TraceEntry>, entry: TraceEntry)
    ensures
        trace_views(trace.push(entry)) == trace_views(trace).push(entry@),
{
    assert(trace_views(trace.push(entry)) =~= trace_views(trace).push(entry@));
}

/// Runs `program` on a copy of `tape`, from state one with the cursor on the
/// first cell, for at most `limit` steps.
///
/// The run ends well when the machine reaches the halt marker, or when a
/// step is due and the cursor is off the tape; the cursor is then moved one
/// cell back towards the tape. It fails where a step fails, and with
/// `StepLimit` if a state is due to run after `limit` steps. With `debug`
/// the run is traced.
pub fn execute(tape: &Vec<bool>, program: &Program, debug: bool, limit: u64) -> (run: Execution)
    ensures
        result_view(run.result) == run_of(program@, tape@, limit as nat),
        debug ==> trace_views(run.trace@) == trace_of(program@, tape@, limit as nat),
        !debug ==> run.trace@.len() == 0,
{
    let mut machine = Machine::new(copy_tape(tape));
    let mut steps: u64 = 0;
    let mut trace: Vec<TraceEntry> = Vec::new();
    loop
        invariant
            steps <= limit,
            run_from(program@, machine@, steps as nat, (limit - steps) as nat) == run_of(
                program@,
                tape@,
                limit as nat,
            ),
            debug ==> trace_views(trace@) + trace_from(
                program@,
                machine@,
                (limit - steps) as nat,
            ) == trace_of(program@, tape@, limit as nat),
            !debug ==> trace@.len() == 0,
        decreases limit - steps,
    {
        match machine.settle(program) {
            Some(rest) => {
                let result = match rest {
                    Ok(stop) => Ok(
                        Outcome { tape: machine.tape, cursor: machine.cursor, steps, stop },
                    ),
                    Err(fault) => Err(fault),
                };
                return Execution { result, trace };
            },
            None => {},
        }
        if steps == limit {
            return Execution { result: Err(Fault::StepLimit), trace };
        }
        if debug {
            match machine.trace_entry(program) {
                Some(entry) => {
                    proof {
                        lemma_trace_push(trace@, entry);
                    }
                    trace.push(entry);
                },
                None => {},
            }
        }
        match machine.advance(program) {
            Step::Failed(fault) => {
                return Execution { result: Err(fault), trace };
            },
            _ => {
                steps = steps + 1;
            },
        }
    }
}

/// Runs the program that `instructions` holds, one state per line, the
/// comments already gone. See [`execute`].
pub fn run(tape: &Vec<bool>, instructions: &Vec<String>, debug: bool, limit: u64) -> (run:
    Execution)
    ensures
        result_view(run.result) == run_of(
            states_of(line_texts(instructions@)),
            tape@,
            limit as nat,
        ),
        debug ==> trace_views(run.trace@) == trace_of(
            states_of(line_texts(instructions@)),
            tape@,
            limit as nat,
        ),
        !debug ==> run.trace@.len() == 0,
{
    let program = Program::from_lines(instructions);
    execute(tape, &program, debug, limit)
}

/// The tape that an input line stands for: a one for each `1`, a zero for
/// any other character.
pub open spec fn bits_of(input: Seq<char>) -> Seq<bool> {
    input.map_values(|c: char| c == '1')
}

/// The text of a tape: `1` for a one and `0` for a zero, cell by cell.
pub open spec fn bit_chars(tape: Seq<bool>) -> Seq<char> {
    tape.map_values(
        |b: bool|
            if b {
                '1'
            } else {
                '0'
            },
    )
}

/// Reads a tape from an input line.
pub fn parse_tape(input: &str) -> (tape: Vec<bool>)
    ensures
        tape@ == bits_of(input@),
{
    let chars = chars_of(input);
    let mut tape: Vec<bool> = Vec::new();
    let mut i: usize = 0;
    while i < chars.len()
        invariant
            i <= chars.len(),
            chars@ == input@,
            tape@ == bits_of(input@).take(i as int),
        decreases chars.len() - i,
    {
        tape.push(chars[i] == '1');
        i += 1;
    }
    tape
}

/// Writes a tape as text.
pub fn render_tape(tape: &Vec<bool>) -> (text: String)
    ensures
        text@ == bit_chars(tape@),
{
    let mut text = String::new();
    let mut i: usize = 0;
    while i < tape.len()
        invariant
            i <= tape.len(),
            text@ == bit_chars(tape@).take(i as int),
        decreases tape.len() - i,
    {
        proof {
            reveal_strlit("1");
            reveal_strlit("0");
        }
        if tape[i] {
            text.append("1");
        } else {
            text.append("0");
        }
        i += 1;
    }
    text
}

} // verus!
