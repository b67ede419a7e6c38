//! What a run does with its deck.

use vstd::prelude::*;

verus! {

/// What a run does with its deck.
#[derive(Clone, Copy, Debug, PartialEq, Eq, Structural)]
pub enum Mode {
    /// Quiz the learner on the cards.
    Cards,
    /// Write the deck out again as card text.
    VerbsToCards,
}

impl Mode {
    /// The mode that a name stands for, if it stands for one.
    pub open spec fn named(name: Seq<char>) -> Option<Mode> {
        if name == "cards"@ {
            Some(Mode::Cards)
        } else if name == "verbs2cards"@ || name == "convert"@ {
            Some(Mode::VerbsToCards)
        } else {
            None
        }
    }

    /// Reads a mode from its name.
    pub fn parse(name: &str) -> (mode: Option<Mode>)
        ensures
            mode == Mode::named(name@),
    {
        if name.eq("cards") {
            Some(Mode::Cards)
        } else if name.eq("verbs2cards") || name.eq("convert") {
            Some(Mode::VerbsToCards)
        } else {
            None
        }
    }

    /// The mode that a name stands for. The name has to be one that `parse`
    /// knows.
    pub fn from(name: &str) -> (mode: Mode)
        requires
            Mode::named(name@) is Some,
        ensures
            Mode::named(name@) == Some(mode),
    {
        match Mode::parse(name) {
            Some(mode) => mode,
            None => vstd::pervasive::unreached(),
        }
    }
}

} // verus!
