//! The interactive session's decisions: how each input changes the query,
//! the help screen and the selection, and which action it asks for.
use vstd::prelude::*;
use crate::selection::{fit, step, Intent, Selection};
use crate::text::{chars_of, is_digit, string_of};

verus! {

/// One input of the interactive session, as the terminal layer decoded it.
#[derive(Clone, Copy, Debug, PartialEq, Eq, Structural)]
pub enum Input {
    /// A character typed into the query.
    Char(char),
    /// Deletes the last character of the query.
    Backspace,
    /// Clears the query.
    ClearQuery,
    Down,
    Up,
    ResetScroll,
    ToggleHelp,
    KillSelected,
    Quit,
}

/// What the session asks of its host after an input.
#[derive(Clone, Copy, Debug, PartialEq, Eq, Structural)]
pub enum Action {
    /// Nothing beyond drawing the next frame.
    Continue,
    /// Kill the process at this position of the list on screen.
    Kill(usize),
    /// End the session.
    Quit,
}

/// The mathematical value of a [`Session`].
pub struct SessionView {
    pub query: Seq<char>,
    pub show_help: bool,
    pub selection: Selection,
}

/// The state of an interactive session: the query typed so far, whether the
/// help screen is up, and the selection in the list on screen.
pub struct Session {
    query: Vec<char>,
    show_help: bool,
    selection: Selection,
}

impl View for Session {
    type V = SessionView;

    closed spec fn view(&self) -> SessionView {
        SessionView { query: self.query@, show_help: self.show_help, selection: self.selection }
    }
}

/// A query is matched against PIDs when it starts with an ASCII digit, and
/// against command names otherwise.
pub open spec fn by_pid_spec(query: Seq<char>) -> bool {
    query.len() > 0 && is_digit(query[0])
}

/// The session after `input`, on a list of `total` rows in a viewport of
/// `capacity` rows.
pub open spec fn next_session(s: SessionView, input: Input, total: nat, capacity: nat) -> SessionView {
    let top = Selection { scroll_offset: 0, pointer: 0 };
    match input {
        Input::Char(c) => SessionView { query: s.query.push(c), selection: top, ..s },
        Input::Backspace => SessionView {
            query: if s.query.len() > 0 {
                s.query.drop_last()
            } else {
                s.query
            },
            selection: top,
            ..s
        },
        Input::ClearQuery => SessionView {
            query: Seq::empty(),
            selection: if s.query.len() > 0 {
                top
            } else {
                s.selection
            },
            ..s
        },
        Input::Down => SessionView {
            selection: step(s.selection, Intent::MoveDown, total, capacity),
            ..s
        },
        Input::Up => SessionView { selection: step(s.selection, Intent::MoveUp, total, capacity), ..s },
        Input::ResetScroll => SessionView { selection: top, ..s },
        Input::ToggleHelp => SessionView { show_help: !s.show_help, ..s },
        Input::KillSelected | Input::Quit => s,
    }
}

/// The action that `input` asks for: a kill of the selected row where there
/// is one, the end of the session on a quit.
pub open spec fn action_of(s: SessionView, input: Input, total: nat, capacity: nat) -> Action {
    match input {
        Input::KillSelected => if total == 0 {
            Action::Continue
        } else {
            let f = fit(s.selection, total, capacity);
            Action::Kill((f.scroll_offset + f.pointer) as usize)
        },
        Input::Quit => Action::Quit,
        _ => Action::Continue,
    }
}

/// Whether `query` is matched against PIDs rather than command names.
pub fn match_by_pid(query: &str) -> (r: bool)
    ensures
        r == by_pid_spec(query@),
{
    let cs = chars_of(query);
    cs.len() > 0 && '0' <= cs[0] && cs[0] <= '9'
}

impl Session {
    /// An empty query, no help screen, the top of the list.
    pub fn new() -> (r: Self)
        ensures
            r@.query == Seq::<char>::empty(),
            !r@.show_help,
            r@.selection == (Selection { scroll_offset: 0, pointer: 0 }),
    {
        Session { query: Vec::new(), show_help: false, selection: Selection::new() }
    }

    pub fn query(&self) -> (r: String)
        ensures
            r@ == self@.query,
    {
        string_of(&self.query)
    }

    pub fn show_help(&self) -> (r: bool)
        ensures
            r == self@.show_help,
    {
        self.show_help
    }

    pub fn selection(&self) -> (r: Selection)
        ensures
            r == self@.selection,
    {
        self.selection
    }

    /// Brings the selection within a list of `total` rows in a viewport of
    /// `capacity` rows, as the list or the terminal changed.
    pub fn refit(&mut self, total: usize, capacity: usize)
        ensures
            final(self)@.query == old(self)@.query,
            final(self)@.show_help == old(self)@.show_help,
            final(self)@.selection == fit(old(self)@.selection, total as nat, capacity as nat),
    {
        self.selection.apply(Intent::Refit, total, capacity);
    }

    /// Handles `input` on a list of `total` rows in a viewport of `capacity`
    /// rows, and says what the host is to do.
    pub fn handle(&mut self, input: Input, total: usize, capacity: usize) -> (r: Action)
        ensures
            final(self)@ == next_session(old(self)@, input, total as nat, capacity as nat),
            r == action_of(old(self)@, input, total as nat, capacity as nat),
    {
        let ghost before = self@;
        match input {
            Input::Char(c) => {
                self.query.push(c);
                self.selection = Selection::new();
                Action::Continue
            },
            Input::Backspace => {
                if self.query.len() > 0 {
                    self.query.pop();
                }
                self.selection = Selection::new();
                Action::Continue
            },
            Input::ClearQuery => {
                if self.query.len() > 0 {
                    self.selection = Selection::new();
                }
                self.query = Vec::new();
                Action::Continue
            },
            Input::Down => {
                self.selection.apply(Intent::MoveDown, total, capacity);
                Action::Continue
            },
            Input::Up => {
                self.selection.apply(Intent::MoveUp, total, capacity);
                Action::Continue
            },
            Input::ResetScroll => {
                self.selection = Selection::new();
                Action::Continue
            },
            Input::ToggleHelp => {
                self.show_help = !self.show_help;
                Action::Continue
            },
            Input::KillSelected => match self.selection.selected(total, capacity) {
                Some(i) => Action::Kill(i),
                None => Action::Continue,
            },
            Input::Quit => Action::Quit,
        }
    }
}

} // verus!
