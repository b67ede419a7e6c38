//! The card: one term with its definition, an optional annotation and a
//! mastery counter, and the classification of that counter.

use vstd::prelude::*;
use crate::text::{hint, hinted};

verus! {

/// A card whose counter has reached this value is mastered.
pub const MASTERY_THRESHOLD: u32 = 2;

/// The largest value a mastery counter can hold; crediting stops there.
pub const COUNTER_MAX: u32 = u32::MAX;

/// How well a card is known.
#[derive(Clone, Copy, Debug, PartialEq, Eq, Structural)]
pub enum Lok {
    /// Never credited, or debited back to zero.
    New,
    /// Credited, but not yet mastered.
    Learning,
    /// Mastered: the counter has reached the threshold.
    Done,
}

/// The status that belongs to a counter value.
pub open spec fn classify(counter: nat) -> Lok {
    if counter == 0 {
        Lok::New
    } else if counter < MASTERY_THRESHOLD {
        Lok::Learning
    } else {
        Lok::Done
    }
}

impl Lok {
    /// The position of a status in the order `New`, `Learning`, `Done`.
    pub open spec fn rank(self) -> nat {
        match self {
            Lok::New => 0,
            Lok::Learning => 1,
            Lok::Done => 2,
        }
    }

    /// Classifies a counter value.
    pub fn of(counter: u32) -> (lok: Lok)
        ensures
            lok == classify(counter as nat),
    {
        if counter == 0 {
            Lok::New
        } else if counter < MASTERY_THRESHOLD {
            Lok::Learning
        } else {
            Lok::Done
        }
    }
}

/// A counter that is at least as large never has a lower status, and a
/// counter is mastered exactly from the threshold on and new exactly at zero.
pub proof fn lemma_classify_monotone(lower: nat, higher: nat)
    requires
        lower <= higher,
    ensures
        classify(lower).rank() <= classify(higher).rank(),
        classify(lower) == Lok::Done <==> lower >= MASTERY_THRESHOLD,
        classify(lower) == Lok::New <==> lower == 0,
{
}

/// What a card is, as plain values.
pub struct CardView {
    pub term: Seq<char>,
    pub definition: Seq<char>,
    pub annotation: Option<Seq<char>>,
    pub counter: nat,
}

impl CardView {
    /// The status of the card.
    pub open spec fn lok(self) -> Lok {
        classify(self.counter)
    }

    /// The card after one credit.
    pub open spec fn credited(self) -> CardView {
        CardView {
            counter: if self.counter < COUNTER_MAX { self.counter + 1 } else { self.counter },
            ..self
        }
    }

    /// The card after one debit.
    pub open spec fn debited(self) -> CardView {
        CardView {
            counter: if self.counter > 0 { (self.counter - 1) as nat } else { 0 },
            ..self
        }
    }

    /// The card asked in the other direction.
    pub open spec fn swapped(self) -> CardView {
        CardView { term: self.definition, definition: self.term, ..self }
    }

    /// Term and definition on one line, with `separator` between them.
    pub open spec fn ser(self, separator: Seq<char>) -> Seq<char> {
        self.term + separator + self.definition
    }

    /// Both sides of the card, the term first.
    pub open spec fn flashcard(self) -> Seq<char> {
        self.ser(" = "@)
    }
}

/// One term to learn, with its definition.
#[derive(Clone, Debug, PartialEq, Eq)]
pub struct Card {
    term: String,
    definition: String,
    annotation: Option<String>,
    counter: u32,
}

impl View for Card {
    type V = CardView;

    closed spec fn view(&self) -> CardView {
        CardView {
            term: self.term@,
            definition: self.definition@,
            annotation: match self.annotation {
                Some(note) => Some(note@),
                None => None,
            },
            counter: self.counter as nat,
        }
    }
}

impl Card {
    /// A card that has never been credited.
    pub fn new(term: &str, definition: &str, annotation: Option<&str>) -> (card: Card)
        ensures
            card@.term == term@,
            card@.definition == definition@,
            card@.annotation == match annotation {
                Some(note) => Some(note@),
                None => None,
            },
            card@.counter == 0,
    {
        let note = match annotation {
            Some(note) => Some(note.to_owned()),
            None => None,
        };
        Card { term: term.to_owned(), definition: definition.to_owned(), annotation: note, counter: 0 }
    }

    /// The card with its counter set, as when progress is taken up again.
    pub fn with_counter(self, counter: u32) -> (card: Card)
        ensures
            card@ == (CardView { counter: counter as nat, ..self@ }),
    {
        Card { counter, ..self }
    }

    /// The side of the card that is shown.
    pub fn question(&self) -> (text: &str)
        ensures
            text@ == self@.term,
    {
        self.term.as_str()
    }

    /// The answer that is expected, letter for letter.
    pub fn correct(&self) -> (text: &str)
        ensures
            text@ == self@.definition,
    {
        self.definition.as_str()
    }

    /// The first half of the expected answer, the rest masked.
    pub fn hint(&self) -> (text: String)
        ensures
            text@ == hinted(self@.definition),
    {
        hint(self.definition.as_str())
    }

    /// Both sides of the card, the term first, for reading without a guess.
    pub fn flashcard(&self) -> (text: String)
        ensures
            text@ == self@.flashcard(),
    {
        self.ser(" = ")
    }

    /// The note that goes with the card, if it has one.
    pub fn annotation(&self) -> (note: Option<&str>)
        ensures
            self@.annotation == match note {
                Some(note) => Some(note@),
                None => None,
            },
    {
        match &self.annotation {
            Some(note) => Some(note.as_str()),
            None => None,
        }
    }

    /// How often the card was credited, less how often it was debited.
    pub fn counter(&self) -> (counter: u32)
        ensures
            counter == self@.counter,
    {
        self.counter
    }

    /// The status of the card.
    pub fn lok(&self) -> (lok: Lok)
        ensures
            lok == self@.lok(),
    {
        Lok::of(self.counter)
    }

    /// Credits the card once.
    pub fn incr(&mut self)
        ensures
            final(self)@ == old(self)@.credited(),
    {
        if self.counter < COUNTER_MAX {
            self.counter = self.counter + 1;
        }
    }

    /// Debits the card once; a counter at zero stays at zero.
    pub fn decr(&mut self)
        ensures
            final(self)@ == old(self)@.debited(),
            old(self)@.counter == 0 ==> final(self)@.counter == 0,
    {
        if self.counter > 0 {
            self.counter = self.counter - 1;
        }
    }

    /// Exchanges term and definition.
    pub fn swap(&mut self)
        ensures
            final(self)@ == old(self)@.swapped(),
    {
        std::mem::swap(&mut self.term, &mut self.definition);
    }

    /// Exchanges term and definition if `flip` is set, and leaves the card as
    /// it is otherwise.
    pub fn swap_if(&mut self, flip: bool)
        ensures
            final(self)@ == if flip { old(self)@.swapped() } else { old(self)@ },
    {
        if flip {
            self.swap();
        }
    }

    /// Term and definition on one line, with `separator` between them.
    pub fn ser(&self, separator: &str) -> (line: String)
        ensures
            line@ == self@.ser(separator@),
    {
        let mut line = self.term.clone();
        line.append(separator);
        line.append(self.definition.as_str());
        line
    }
}

} // verus!
