//! The command interpreter: what a line typed by the learner means.

use vstd::prelude::*;
use crate::text::{trim, trimmed};

verus! {

/// The character that a command begins with.
pub const SENTINEL: char = ':';

/// A command of the session.
#[derive(Clone, Copy, Debug, PartialEq, Eq, Structural)]
pub enum Command {
    /// Leave at once, without saving.
    Quit,
    /// Show a hint for the current card.
    Hint,
    /// Save the whole deck.
    Save,
    /// Save the whole deck, then leave.
    SaveQuit,
    /// Credit the card before the current one: its answer was a typing mistake.
    Typo,
    /// Go on to the next card and leave this one as it is.
    Skip,
    /// End this pass early.
    Revise,
    /// Show both sides of the current card and credit it.
    Flash,
    /// Report how many cards are left and where the pass stands.
    Progress,
    /// A line that begins with the sentinel and names no command.
    Unknown,
}

/// What a line is: a guess, or a command.
#[derive(Clone, Copy, Debug, PartialEq, Eq, Structural)]
pub enum Input {
    /// A plain answer, compared with the expected one.
    Guess,
    /// A command.
    Command(Command),
}

/// The command that a text beginning with the sentinel names.
pub open spec fn command_of(text: Seq<char>) -> Command {
    if text == ":q"@ || text == ":quit"@ || text == ":exit"@ {
        Command::Quit
    } else if text == ":h"@ || text == ":help"@ || text == ":hint"@ {
        Command::Hint
    } else if text == ":w"@ || text == ":write"@ || text == ":save"@ {
        Command::Save
    } else if text == ":wq"@ {
        Command::SaveQuit
    } else if text == ":typo"@ {
        Command::Typo
    } else if text == ":skip"@ {
        Command::Skip
    } else if text == ":revise"@ {
        Command::Revise
    } else if text == ":f"@ || text == ":flash"@ {
        Command::Flash
    } else if text == ":n"@ || text == ":num"@ || text == ":togo"@ {
        Command::Progress
    } else {
        Command::Unknown
    }
}

/// What a text without surrounding white space is: a command when it begins
/// with the sentinel, a guess otherwise.
pub open spec fn input_of(text: Seq<char>) -> Input {
    if text.len() > 0 && text[0] == SENTINEL {
        Input::Command(command_of(text))
    } else {
        Input::Guess
    }
}

impl Command {
    /// Whether the command only informs: after it the question is not shown
    /// again with the next prompt.
    pub open spec fn spec_informs(self) -> bool {
        self == Command::Hint || self == Command::Typo || self == Command::Progress
    }

    /// Whether the command only informs: after it the question is not shown
    /// again with the next prompt.
    #[verifier::when_used_as_spec(spec_informs)]
    pub fn informs(self) -> (r: bool)
        ensures
            r == self.spec_informs(),
    {
        match self {
            Command::Hint | Command::Typo | Command::Progress => true,
            _ => false,
        }
    }
}

/// Names the command in a text that begins with the sentinel.
pub fn command(text: &str) -> (c: Command)
    ensures
        c == command_of(text@),
{
    if text.eq(":q") || text.eq(":quit") || text.eq(":exit") {
        Command::Quit
    } else if text.eq(":h") || text.eq(":help") || text.eq(":hint") {
        Command::Hint
    } else if text.eq(":w") || text.eq(":write") || text.eq(":save") {
        Command::Save
    } else if text.eq(":wq") {
        Command::SaveQuit
    } else if text.eq(":typo") {
        Command::Typo
    } else if text.eq(":skip") {
        Command::Skip
    } else if text.eq(":revise") {
        Command::Revise
    } else if text.eq(":f") || text.eq(":flash") {
        Command::Flash
    } else if text.eq(":n") || text.eq(":num") || text.eq(":togo") {
        Command::Progress
    } else {
        Command::Unknown
    }
}

/// Tells a command from a guess in a text without surrounding white space.
pub fn input(text: &str) -> (i: Input)
    ensures
        i == input_of(text@),
{
    if !text.is_empty() && text.get_char(0) == SENTINEL {
        Input::Command(command(text))
    } else {
        Input::Guess
    }
}

/// Reads one line of input: the white space around it is dropped, and what
/// is left is a command when it begins with the sentinel, a guess otherwise.
pub fn parse(line: &str) -> (i: Input)
    ensures
        i == input_of(trimmed(line@)),
{
    input(trim(line))
}

} // verus!
