//! The repetition rule: passes over the deck are repeated until every card
//! is mastered.

use vstd::prelude::*;
use crate::card::{Card, CardView, MASTERY_THRESHOLD};
use crate::deck::{due, lemma_remaining_zero, remaining, reorder, to_learn, views};
use crate::session::{lemma_next_due, next_due, Cursor};

verus! {

/// How a run goes on.
#[derive(Clone, Copy, Debug, PartialEq, Eq, Structural)]
pub enum Stage {
    /// Cards are left to learn: one more pass, begun with this cursor.
    Pass(Cursor),
    /// Every card is mastered: the run is over, and progress that was saved
    /// for it is of no more use and is to be removed.
    Finished,
}

/// Whether every card of the deck is mastered.
pub open spec fn mastered(deck: Seq<CardView>) -> bool {
    forall|i: int| 0 <= i < deck.len() ==> (#[trigger] deck[i]).counter >= MASTERY_THRESHOLD
}

/// A deck is mastered exactly when no card is left to learn, and a pass
/// over a deck asks a card exactly when the deck is not mastered.
pub proof fn lemma_mastered(deck: Seq<CardView>)
    ensures
        mastered(deck) <==> remaining(deck) == 0,
        mastered(deck) <==> next_due(deck, 0) >= deck.len(),
{
    lemma_remaining_zero(deck);
    lemma_next_due(deck, 0);
    if remaining(deck) == 0 {
        assert forall|i: int| 0 <= i < deck.len() implies (#[trigger] deck[i]).counter
            >= MASTERY_THRESHOLD by {
            assert(!due(deck[i]));
        }
    }
    if mastered(deck) {
        assert forall|i: int| 0 <= i < deck.len() implies !due(#[trigger] deck[i]) by {
            assert(deck[i].counter >= MASTERY_THRESHOLD);
        }
    }
    if next_due(deck, 0) >= deck.len() {
        assert forall|i: int| 0 <= i < deck.len() implies !due(#[trigger] deck[i]) by {}
    }
}

/// Decides how the run goes on. When every card is mastered the run is
/// finished and the deck is left as it is. While a single card is below the
/// threshold the run is not finished: the deck is put in a random order if
/// `shuffle` is set, and the next pass begins at its first card. The deck
/// holds the same cards afterwards, so as many are left to learn as before.
pub fn run(deck: &mut Vec<Card>, shuffle: bool) -> (stage: Stage)
    ensures
        stage == Stage::Finished <==> mastered(views(old(deck)@)),
        stage != Stage::Finished ==> stage == Stage::Pass(Cursor { index: 0, quiet: false }),
        stage == Stage::Finished || !shuffle ==> final(deck)@ == old(deck)@,
        final(deck)@.to_multiset() == old(deck)@.to_multiset(),
        final(deck)@.len() == old(deck)@.len(),
        remaining(views(final(deck)@)) == remaining(views(old(deck)@)),
{
    proof {
        lemma_mastered(views(deck@));
    }
    if to_learn(deck) == 0 {
        Stage::Finished
    } else {
        reorder(deck, shuffle);
        Stage::Pass(Cursor::start())
    }
}

} // verus!
