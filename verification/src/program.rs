//! Programs: states, their branches, and the loader that reads them from text.

use crate::text::{
    chars_of, first_digit, jump_target, parse_jump, prefix, scan_run, split, split_chars,
    strip_comment, texts, without_comment,
};
use vstd::prelude::*;

verus! {

/// What one action character does to the tape and the cursor.
#[derive(Clone, Copy, Debug, PartialEq, Eq, Structural)]
pub enum Action {
    /// `>`: the cursor moves one cell to the right.
    Right,
    /// `<`: the cursor moves one cell to the left.
    Left,
    /// `!`: the bit under the cursor is flipped.
    Flip,
    /// `{`: the cursor goes to the first cell.
    Home,
    /// `}`: the cursor goes to the last cell.
    End,
    /// `/`: the bit under the cursor is cleared.
    Clear,
    /// `\`: the bit under the cursor is set.
    Mark,
}

/// The action that a character stands for, if it stands for one.
pub open spec fn action_of(c: char) -> Option<Action> {
    if c == '>' {
        Some(Action::Right)
    } else if c == '<' {
        Some(Action::Left)
    } else if c == '!' {
        Some(Action::Flip)
    } else if c == '{' {
        Some(Action::Home)
    } else if c == '}' {
        Some(Action::End)
    } else if c == '/' {
        Some(Action::Clear)
    } else if c == '\\' {
        Some(Action::Mark)
    } else {
        None
    }
}

/// The actions among the characters of `s`, in order; other characters are
/// passed over.
pub open spec fn actions_in(s: Seq<char>) -> Seq<Action>
    decreases s.len(),
{
    if s.len() == 0 {
        Seq::<Action>::empty()
    } else {
        match action_of(s.last()) {
            Some(a) => actions_in(s.drop_last()).push(a),
            None => actions_in(s.drop_last()),
        }
    }
}

/// The actions that a branch performs: those written before its first digit.
/// Whatever follows the first digit is never performed.
pub open spec fn actions_of(path: Seq<char>) -> Seq<Action> {
    actions_in(path.take(first_digit(path)))
}

/// Whether an exec jump target is the one that the model gives.
pub open spec fn same_target(jump: Option<u64>, target: Option<nat>) -> bool {
    match jump {
        Some(j) => target == Some(j as nat),
        None => target.is_none(),
    }
}

/// Exec form of [`action_of`].
pub fn action_for(c: char) -> (action: Option<Action>)
    ensures
        action == action_of(c),
{
    if c == '>' {
        Some(Action::Right)
    } else if c == '<' {
        Some(Action::Left)
    } else if c == '!' {
        Some(Action::Flip)
    } else if c == '{' {
        Some(Action::Home)
    } else if c == '}' {
        Some(Action::End)
    } else if c == '/' {
        Some(Action::Clear)
    } else if c == '\\' {
        Some(Action::Mark)
    } else {
        None
    }
}

/// One branch of a state: its text as written, with the actions and the jump
/// target that the text stands for, worked out once.
#[derive(Debug, PartialEq, Eq)]
pub struct Branch {
    text: Vec<char>,
    actions: Vec<Action>,
    jump: Option<u64>,
}

impl View for Branch {
    type V = Seq<char>;

    /// The branch as written.
    closed spec fn view(&self) -> Seq<char> {
        self.text@
    }
}

impl Branch {
    /// The actions and the jump target are those of the text.
    #[verifier::type_invariant]
    spec fn consistent(self) -> bool {
        &&& self.actions@ == actions_of(self.text@)
        &&& same_target(self.jump, jump_target(self.text@))
    }

    /// Reads a branch from its text. Any text is accepted.
    pub fn new(text: Vec<char>) -> (branch: Branch)
        ensures
            branch@ == text@,
    {
        let stop = scan_run(&text, 0, false);
        let mut actions: Vec<Action> = Vec::new();
        let mut i: usize = 0;
        while i < stop
            invariant
                i <= stop <= text.len(),
                actions@ == actions_in(text@.take(i as int)),
            decreases stop - i,
        {
            proof {
                assert(text@.take(i + 1).drop_last() =~= text@.take(i as int));
            }
            match action_for(text[i]) {
                Some(a) => {
                    actions.push(a);
                },
                None => {},
            }
            i += 1;
        }
        let jump = parse_jump(&text);
        Branch { text, actions, jump }
    }

    /// The branch as written.
    pub fn text(&self) -> (text: &Vec<char>)
        ensures
            text@ == self@,
    {
        &self.text
    }

    /// The actions that the branch performs, in order.
    pub fn actions(&self) -> (actions: &Vec<Action>)
        ensures
            actions@ == actions_of(self@),
    {
        proof {
            use_type_invariant(self);
        }
        &self.actions
    }

    /// The state that the branch jumps to, if it names one.
    pub fn jump(&self) -> (jump: Option<u64>)
        ensures
            same_target(jump, jump_target(self@)),
    {
        proof {
            use_type_invariant(self);
        }
        self.jump
    }
}

/// The texts of a list of branches.
pub open spec fn branch_texts(branches: Seq<Branch>) -> Seq<Seq<char>> {
    branches.map_values(|b: Branch| b@)
}

/// The halt marker: the state whose whole text is `END`.
pub open spec fn halts(state: Seq<Seq<char>>) -> bool {
    state.len() == 1 && state[0] == seq!['E', 'N', 'D']
}

/// One state of a program: the branches that its line holds.
#[derive(Debug, PartialEq, Eq)]
pub struct State {
    branches: Vec<Branch>,
}

impl View for State {
    type V = Seq<Seq<char>>;

    /// The texts of the branches, in order.
    closed spec fn view(&self) -> Seq<Seq<char>> {
        branch_texts(self.branches@)
    }
}

impl State {
    /// A state with the given branches. Any number of branches is accepted;
    /// only a state with one or two can be run.
    pub fn new(branches: Vec<Branch>) -> (state: State)
        ensures
            state@ == branch_texts(branches@),
    {
        State { branches }
    }

    /// Reads a state from a line without its comment: the line is cut at
    /// every space, and each piece is a branch.
    pub fn parse(line: &Vec<char>) -> (state: State)
        ensures
            state@ == split(line@, ' '),
    {
        let pieces = split_chars(line, ' ');
        let mut branches: Vec<Branch> = Vec::new();
        let mut i: usize = 0;
        while i < pieces.len()
            invariant
                i <= pieces.len(),
                branches@.len() == i,
                branch_texts(branches@) == texts(pieces@).take(i as int),
            decreases pieces.len() - i,
        {
            let piece = &pieces[i];
            let branch = Branch::new(prefix(piece, piece.len()));
            let ghost done = branches@;
            branches.push(branch);
            assert forall|j: int| 0 <= j < i + 1 implies branch_texts(branches@)[j] == texts(
                pieces@,
            )[j] by {
                if j < i {
                    assert(branch_texts(done)[j] == texts(pieces@).take(i as int)[j]);
                }
            }
            assert(branch_texts(branches@) =~= texts(pieces@).take(i + 1));
            i += 1;
        }
        State { branches }
    }

    /// The number of branches.
    pub fn len(&self) -> (n: usize)
        ensures
            n == self@.len(),
    {
        self.branches.len()
    }

    /// The branch at `index`, counted from zero.
    pub fn branch(&self, index: usize) -> (branch: &Branch)
        requires
            index < self@.len(),
        ensures
            branch@ == self@[index as int],
    {
        &self.branches[index]
    }

    /// Whether this is the halt marker.
    pub fn is_halt(&self) -> (r: bool)
        ensures
            r == halts(self@),
    {
        if self.branches.len() != 1 {
            return false;
        }
        let text = self.branches[0].text();
        let r = text.len() == 3 && text[0] == 'E' && text[1] == 'N' && text[2] == 'D';
        proof {
            if r {
                assert(text@ =~= seq!['E', 'N', 'D']);
            }
        }
        r
    }
}

/// The views of a list of states.
pub open spec fn state_views(states: Seq<State>) -> Seq<Seq<Seq<char>>> {
    states.map_values(|s: State| s@)
}

/// The views of a list of lines.
pub open spec fn line_texts(lines: Seq<String>) -> Seq<Seq<char>> {
    lines.map_values(|l: String| l@)
}

/// The states that a list of lines stands for, one state per line. The lines
/// are taken as they are: nothing is stripped from them.
pub open spec fn states_of(lines: Seq<Seq<char>>) -> Seq<Seq<Seq<char>>> {
    lines.map_values(|l: Seq<char>| split(l, ' '))
}

/// The lines without their comments.
pub open spec fn code_lines(lines: Seq<Seq<char>>) -> Seq<Seq<char>> {
    lines.map_values(|l: Seq<char>| strip_comment(l))
}

/// The program that a text stands for: one state per line, blank lines
/// included, each line cut off at its comment marker and then cut into
/// branches at every space.
pub open spec fn program_of(text: Seq<char>) -> Seq<Seq<Seq<char>>> {
    states_of(code_lines(split(text, '\n')))
}

/// A program: its states in the order in which they were declared. State
/// numbers start at one, so the state numbered `n` is at index `n - 1`.
#[derive(Debug, PartialEq, Eq)]
pub struct Program {
    states: Vec<State>,
}

impl View for Program {
    type V = Seq<Seq<Seq<char>>>;

    /// The states, each as the texts of its branches.
    closed spec fn view(&self) -> Seq<Seq<Seq<char>>> {
        state_views(self.states@)
    }
}

impl Program {
    /// A program with the given states.
    pub fn new(states: Vec<State>) -> (program: Program)
        ensures
            program@ == state_views(states@),
    {
        Program { states }
    }

    /// Reads a program from lines whose comments are already gone.
    pub fn from_lines(lines: &Vec<String>) -> (program: Program)
        ensures
            program@ == states_of(line_texts(lines@)),
    {
        let mut states: Vec<State> = Vec::new();
        let mut i: usize = 0;
        while i < lines.len()
            invariant
                i <= lines.len(),
                states@.len() == i,
                state_views(states@) == states_of(line_texts(lines@)).take(i as int),
            decreases lines.len() - i,
        {
            let line = chars_of(lines[i].as_str());
            let state = State::parse(&line);
            states.push(state);
            assert(state_views(states@) =~= states_of(line_texts(lines@)).take(i + 1));
            i += 1;
        }
        Program { states }
    }

    /// The number of states.
    pub fn len(&self) -> (n: usize)
        ensures
            n == self@.len(),
    {
        self.states.len()
    }

    /// The state at `index`, counted from zero: the state numbered
    /// `index + 1`.
    pub fn state(&self, index: usize) -> (state: &State)
        requires
            index < self@.len(),
        ensures
            state@ == self@[index as int],
    {
        &self.states[index]
    }
}

/// Reads a program from its text. No text is refused: what a line holds is
/// not looked at beyond the comment marker and the spaces.
pub fn load(text: &str) -> (program: Program)
    ensures
        program@ == program_of(text@),
{
    let chars = chars_of(text);
    let lines = split_chars(&chars, '\n');
    let mut states: Vec<State> = Vec::new();
    let mut i: usize = 0;
    while i < lines.len()
        invariant
            i <= lines.len(),
            texts(lines@) == split(text@, '\n'),
            states@.len() == i,
            state_views(states@) == program_of(text@).take(i as int),
        decreases lines.len() - i,
    {
        let code = without_comment(&lines[i]);
        let state = State::parse(&code);
        states.push(state);
        assert(state_views(states@) =~= program_of(text@).take(i + 1));
        i += 1;
    }
    Program { states }
}

} // verus!
