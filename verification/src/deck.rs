//! The deck: an ordered sequence of cards, and what is asked of it as a whole.

use vstd::prelude::*;
use crate::card::{Card, CardView, Lok};

verus! {

/// The cards of a deck as plain values, in deck order.
pub open spec fn views(deck: Seq<Card>) -> Seq<CardView> {
    deck.map_values(|card: Card| card@)
}

/// Whether a card still has to be learned.
pub open spec fn due(card: CardView) -> bool {
    card.lok() != Lok::Done
}

/// How many cards of the deck still have to be learned.
pub open spec fn remaining(deck: Seq<CardView>) -> nat {
    deck.filter(|card: CardView| due(card)).len()
}

/// The deck with every card asked in the other direction.
pub open spec fn all_swapped(deck: Seq<CardView>) -> Seq<CardView> {
    deck.map_values(|card: CardView| card.swapped())
}

/// Nothing is left to learn exactly when every card is mastered.
pub proof fn lemma_remaining_zero(deck: Seq<CardView>)
    ensures
        remaining(deck) == 0 <==> forall|i: int| 0 <= i < deck.len() ==> !due(#[trigger] deck[i]),
        remaining(deck) <= deck.len(),
    decreases deck.len(),
{
    reveal(Seq::filter);
    if deck.len() > 0 {
        let front = deck.drop_last();
        lemma_remaining_zero(front);
        if remaining(deck) == 0 {
            assert forall|i: int| 0 <= i < deck.len() implies !due(#[trigger] deck[i]) by {
                if i < front.len() {
                    assert(front[i] == deck[i]);
                }
            }
        }
        if forall|i: int| 0 <= i < deck.len() ==> !due(#[trigger] deck[i]) {
            assert forall|i: int| 0 <= i < front.len() implies !due(#[trigger] front[i]) by {
                assert(front[i] == deck[i]);
            }
        }
    }
}

/// Counts the cards that still have to be learned.
pub fn to_learn(deck: &Vec<Card>) -> (count: usize)
    ensures
        count == remaining(views(deck@)),
{
    let ghost all = views(deck@);
    let mut count: usize = 0;
    let mut i: usize = 0;
    proof {
        reveal(Seq::filter);
    }
    while i < deck.len()
        invariant
            all == views(deck@),
            i <= deck@.len(),
            count <= i,
            count == remaining(all.take(i as int)),
        decreases deck@.len() - i,
    {
        proof {
            reveal(Seq::filter);
            assert(all.take(i + 1).drop_last() =~= all.take(i as int));
        }
        if deck[i].lok() != Lok::Done {
            count += 1;
        }
        i += 1;
    }
    assert(all.take(i as int) =~= all);
    count
}

/// Exchanges term and definition of every card.
pub fn swap_cards(cards: &mut Vec<Card>)
    ensures
        views(final(cards)@) == all_swapped(views(old(cards)@)),
{
    let mut i: usize = 0;
    while i < cards.len()
        invariant
            cards@.len() == old(cards)@.len(),
            i <= cards@.len(),
            forall|k: int| 0 <= k < i ==> (#[trigger] cards@[k])@ == old(cards)@[k]@.swapped(),
            forall|k: int| i <= k < cards@.len() ==> cards@[k] == old(cards)@[k],
        decreases cards@.len() - i,
    {
        cards[i].swap();
        i += 1;
    }
    assert(views(cards@) =~= all_swapped(views(old(cards)@)));
}

/// `fastrand::bool`: a random truth value from the thread's generator.
/// Nothing is claimed of the value.
pub assume_specification[ fastrand::bool ]() -> bool
;

/// `fastrand::shuffle`: puts the cards in a random order. The generator only
/// exchanges cards, so the deck holds the same cards afterwards, each as
/// often as before; nothing is claimed of their order.
#[verifier::external_body]
fn shuffle(deck: &mut Vec<Card>)
    ensures
        final(deck)@.to_multiset() == old(deck)@.to_multiset(),
{
    fastrand::shuffle(deck.as_mut_slice());
}

/// Exchanges term and definition of the cards that a coin picks, one toss
/// per card: every card is either as it was or asked in the other direction.
pub fn randomly_swap_cards(cards: &mut Vec<Card>)
    ensures
        final(cards)@.len() == old(cards)@.len(),
        forall|i: int|
            0 <= i < old(cards)@.len() ==> {
                ||| (#[trigger] final(cards)@[i])@ == old(cards)@[i]@
                ||| final(cards)@[i]@ == old(cards)@[i]@.swapped()
            },
{
    let mut i: usize = 0;
    while i < cards.len()
        invariant
            cards@.len() == old(cards)@.len(),
            i <= cards@.len(),
            forall|k: int|
                0 <= k < i ==> {
                    ||| (#[trigger] cards@[k])@ == old(cards)@[k]@
                    ||| cards@[k]@ == old(cards)@[k]@.swapped()
                },
            forall|k: int| i <= k < cards@.len() ==> cards@[k] == old(cards)@[k],
        decreases cards@.len() - i,
    {
        let flip = fastrand::bool();
        cards[i].swap_if(flip);
        i += 1;
    }
}

/// Puts the deck in a random order if `shuffle` is set. The deck holds the
/// same cards afterwards, so as many are left to learn as before.
pub fn reorder(deck: &mut Vec<Card>, shuffle: bool)
    ensures
        final(deck)@.to_multiset() == old(deck)@.to_multiset(),
        final(deck)@.len() == old(deck)@.len(),
        remaining(views(final(deck)@)) == remaining(views(old(deck)@)),
        !shuffle ==> final(deck)@ == old(deck)@,
{
    if shuffle {
        self::shuffle(deck);
        proof {
            old(deck)@.to_multiset_ensures();
            deck@.to_multiset_ensures();
            lemma_remaining_of_permutation(old(deck)@, deck@);
        }
    }
}

/// Taking one element out of a sequence lowers the number of elements that
/// meet `pred` by one if that element meets it, and not at all otherwise.
proof fn lemma_filter_remove<A>(s: Seq<A>, pred: spec_fn(A) -> bool, j: int)
    requires
        0 <= j < s.len(),
    ensures
        s.filter(pred).len() == s.remove(j).filter(pred).len() + if pred(s[j]) {
            1nat
        } else {
            0nat
        },
{
    let front = s.take(j);
    let one = seq![s[j]];
    let back = s.skip(j + 1);
    assert(s =~= (front + one) + back);
    assert(s.remove(j) =~= front + back);
    Seq::filter_distributes_over_add(front + one, back, pred);
    Seq::filter_distributes_over_add(front, one, pred);
    Seq::filter_distributes_over_add(front, back, pred);
    assert(one.filter(pred).len() == if pred(s[j]) { 1nat } else { 0nat }) by {
        reveal_with_fuel(Seq::filter, 2);
        assert(one.drop_last() =~= Seq::<A>::empty());
    }
}

/// Two sequences that hold the same elements, each as often as the other,
/// hold as many elements that meet `pred`.
proof fn lemma_filter_len_of_permutation<A>(a: Seq<A>, b: Seq<A>, pred: spec_fn(A) -> bool)
    requires
        a.to_multiset() == b.to_multiset(),
    ensures
        a.filter(pred).len() == b.filter(pred).len(),
    decreases a.len(),
{
    a.to_multiset_ensures();
    b.to_multiset_ensures();
    if a.len() == 0 {
        assert(b.len() == 0);
        assert(a =~= b);
    } else {
        let last = a.len() - 1;
        let x = a[last];
        assert(a.contains(x));
        assert(a.to_multiset().count(x) > 0);
        assert(b.to_multiset().count(x) > 0);
        assert(b.contains(x));
        let j = choose|j: int| 0 <= j < b.len() && b[j] == x;
        assert(a.remove(last).to_multiset() =~= b.remove(j).to_multiset());
        lemma_filter_len_of_permutation(a.remove(last), b.remove(j), pred);
        lemma_filter_remove(a, pred, last);
        lemma_filter_remove(b, pred, j);
    }
}

/// The test `due`, asked of a card rather than of its plain value.
spec fn due_card() -> spec_fn(Card) -> bool {
    |card: Card| due(card@)
}

/// Counting the due cards of a deck and counting the due plain values of
/// its cards come to the same.
proof fn lemma_remaining_of_cards(deck: Seq<Card>)
    ensures
        remaining(views(deck)) == deck.filter(due_card()).len(),
    decreases deck.len(),
{
    reveal(Seq::filter);
    if deck.len() > 0 {
        lemma_remaining_of_cards(deck.drop_last());
        assert(views(deck).drop_last() =~= views(deck.drop_last()));
    }
}

/// Two decks that hold the same cards, in whatever order, leave as many
/// cards to learn.
pub proof fn lemma_remaining_of_permutation(a: Seq<Card>, b: Seq<Card>)
    requires
        a.to_multiset() == b.to_multiset(),
    ensures
        remaining(views(a)) == remaining(views(b)),
{
    lemma_remaining_of_cards(a);
    lemma_remaining_of_cards(b);
    lemma_filter_len_of_permutation(a, b, due_card());
}

/// Asking a card in the other direction twice gives the card back.
pub proof fn lemma_swap_involution(card: CardView)
    ensures
        card.swapped().swapped() == card,
{
}

/// Swapping a whole deck twice gives the deck back.
pub proof fn lemma_swap_cards_involution(deck: Seq<CardView>)
    ensures
        all_swapped(all_swapped(deck)) == deck,
{
    assert(all_swapped(all_swapped(deck)) =~= deck);
}

} // verus!
