use crablit::card::{COUNTER_MAX, MASTERY_THRESHOLD};
use crablit::deck::{reorder, to_learn};
use crablit::{randomly_swap_cards, swap_cards, Card, Lok, Mode};

#[test]
#[should_panic]
fn incorrect_mode() {
    let _ = Mode::from("mode");
}

#[test]
fn correct_mode_cards() {
    assert_eq!(Mode::Cards, Mode::from("cards"));
}

#[test]
fn mode_new_conv() {
    let mode = "verbs2cards";
    assert_eq!(Mode::VerbsToCards, Mode::from(mode));
    let mode = "convert";
    assert_eq!(Mode::VerbsToCards, Mode::from(mode));
}

#[test]
fn mode_parse_knows_three_names() {
    assert_eq!(Mode::parse("cards"), Some(Mode::Cards));
    assert_eq!(Mode::parse("verbs2cards"), Some(Mode::VerbsToCards));
    assert_eq!(Mode::parse("convert"), Some(Mode::VerbsToCards));
    assert_eq!(Mode::parse("mode"), None);
    assert_eq!(Mode::parse("Cards"), None);
    assert_eq!(Mode::parse(""), None);
}

#[test]
fn swap_cards_works() {
    let mut cards = vec![Card::new("term", "definition", None)];

    swap_cards(&mut cards);
    assert_eq!(cards, vec![Card::new("definition", "term", None)]);
}

#[test]
fn swap_cards_twice_gives_the_deck_back() {
    let deck = vec![
        Card::new("term1", "def1", None),
        Card::new("term2", "def2", Some("note")),
        Card::new("term3", "def3", None),
    ];
    let mut swapped = deck.clone();
    swap_cards(&mut swapped);
    assert_eq!(swapped[1], Card::new("def2", "term2", Some("note")));
    swap_cards(&mut swapped);
    assert_eq!(swapped, deck);
}

#[test]
fn swap_twice_gives_the_card_back() {
    let mut card = Card::new("haus", "house", Some("das"));
    card.incr();
    let before = card.clone();
    card.swap();
    assert_eq!(card.question(), "house");
    assert_eq!(card.correct(), "haus");
    assert_eq!(card.annotation(), Some("das"));
    assert_eq!(card.counter(), 1);
    card.swap();
    assert_eq!(card, before);
}

#[test]
fn swap_if_follows_the_flag() {
    let mut card = Card::new("haus", "house", None);
    card.swap_if(false);
    assert_eq!(card, Card::new("haus", "house", None));
    card.swap_if(true);
    assert_eq!(card, Card::new("house", "haus", None));
}

#[test]
fn new_card_is_new() {
    let card = Card::new("haus", "house", None);
    assert_eq!(card.question(), "haus");
    assert_eq!(card.correct(), "house");
    assert_eq!(card.annotation(), None);
    assert_eq!(card.counter(), 0);
    assert_eq!(card.lok(), Lok::New);
}

#[test]
fn decr_at_zero_stays_at_zero() {
    let mut card = Card::new("haus", "house", None);
    card.decr();
    assert_eq!(card.counter(), 0);
    card.decr();
    assert_eq!(card.counter(), 0);
    assert_eq!(card.lok(), Lok::New);
}

#[test]
fn incr_and_decr_move_by_one() {
    let mut card = Card::new("haus", "house", None);
    card.incr();
    assert_eq!(card.counter(), 1);
    card.incr();
    card.incr();
    assert_eq!(card.counter(), 3);
    card.decr();
    assert_eq!(card.counter(), 2);
}

#[test]
fn status_follows_the_counter() {
    let mut card = Card::new("haus", "house", None);
    assert_eq!(card.lok(), Lok::New);
    card.incr();
    assert_eq!(card.lok(), Lok::Learning);
    card.incr();
    assert_eq!(card.lok(), Lok::Done);
    card.incr();
    assert_eq!(card.lok(), Lok::Done);
    card.decr();
    assert_eq!(card.lok(), Lok::Done);
    card.decr();
    assert_eq!(card.lok(), Lok::Learning);
    card.decr();
    assert_eq!(card.lok(), Lok::New);
}

#[test]
fn classifier_is_total_and_monotone() {
    assert_eq!(MASTERY_THRESHOLD, 2);
    assert_eq!(Lok::of(0), Lok::New);
    assert_eq!(Lok::of(1), Lok::Learning);
    assert_eq!(Lok::of(2), Lok::Done);
    assert_eq!(Lok::of(3), Lok::Done);
    assert_eq!(Lok::of(COUNTER_MAX), Lok::Done);
    let rank = |lok: Lok| match lok {
        Lok::New => 0,
        Lok::Learning => 1,
        Lok::Done => 2,
    };
    for counter in 0u32..100 {
        assert!(rank(Lok::of(counter)) <= rank(Lok::of(counter + 1)));
        assert_eq!(Lok::of(counter), Lok::of(counter));
    }
}

#[test]
fn hint_of_a_card_masks_its_definition() {
    let card = Card::new("haus", "house", None);
    assert_eq!(card.hint(), "ho___");
}

#[test]
fn ser_and_flashcard() {
    let card = Card::new("haus", "house", Some("das"));
    assert_eq!(card.ser(";"), "haus;house");
    assert_eq!(card.ser(" = "), "haus = house");
    assert_eq!(card.ser(""), "haushouse");
    assert_eq!(card.flashcard(), "haus = house");
}

#[test]
fn randomly_swap_cards_swaps_or_keeps_each_card() {
    let deck: Vec<Card> =
        (0..64).map(|i| Card::new(&format!("term{i}"), &format!("def{i}"), None)).collect();
    let mut swapped = deck.clone();
    randomly_swap_cards(&mut swapped);
    assert_eq!(swapped.len(), deck.len());
    for (after, before) in swapped.iter().zip(deck.iter()) {
        let mut other = before.clone();
        other.swap();
        assert!(after == before || *after == other);
    }
}

#[test]
fn to_learn_counts_the_cards_below_the_threshold() {
    let mut deck = vec![
        Card::new("a", "1", None),
        Card::new("b", "2", None),
        Card::new("c", "3", None),
    ];
    assert_eq!(to_learn(&deck), 3);
    deck[0].incr();
    assert_eq!(to_learn(&deck), 3);
    deck[0].incr();
    assert_eq!(to_learn(&deck), 2);
    deck[2].incr();
    deck[2].incr();
    deck[2].incr();
    assert_eq!(to_learn(&deck), 1);
    assert_eq!(to_learn(&Vec::new()), 0);
}

#[test]
fn reorder_without_shuffle_keeps_the_order() {
    let deck: Vec<Card> =
        (0..32).map(|i| Card::new(&format!("term{i}"), &format!("def{i}"), None)).collect();
    let mut same = deck.clone();
    reorder(&mut same, false);
    assert_eq!(same, deck);
}

#[test]
fn reorder_with_shuffle_keeps_the_cards_and_changes_the_order() {
    fastrand::seed(7);
    let deck: Vec<Card> =
        (0..32).map(|i| Card::new(&format!("term{i:02}"), &format!("def{i:02}"), None)).collect();
    let mut shuffled = deck.clone();
    shuffled[3].incr();
    let mut expected = shuffled.clone();
    reorder(&mut shuffled, true);
    assert_ne!(shuffled, expected);
    assert_eq!(to_learn(&shuffled), 32);
    let key = |card: &Card| card.question().to_string();
    shuffled.sort_by_key(key);
    expected.sort_by_key(key);
    assert_eq!(shuffled, expected);
}
