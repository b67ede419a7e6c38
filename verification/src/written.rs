//! What is written as text is read back: the laws that tie the writer of a
//! deck's text to its reader.

use vstd::prelude::*;
use crate::card::{CardView, COUNTER_MAX};
use crate::number::{digit_of, digits_of, lemma_digits_round_trip};
use crate::source::{
    card_of, counts, deck_of, head, index_of, line_of, lines_of, refused, tail, text_of_deck,
    COMMENT, NEWLINE,
};
use crate::text::{is_space, trimmed};

verus! {

/// Whether a character can part the fields of a line: it is no newline, no
/// white space and no digit.
pub open spec fn fits(delim: char) -> bool {
    delim != NEWLINE && !is_space(delim) && digit_of(delim) is None
}

/// Whether a text can stand as a field of a line: it is not empty, white
/// space neither begins nor ends it, and it holds neither the delimiter nor
/// a newline.
pub open spec fn plain(s: Seq<char>, delim: char) -> bool {
    &&& s.len() > 0
    &&& !is_space(s.first())
    &&& !is_space(s.last())
    &&& forall|i: int| 0 <= i < s.len() ==> s[i] != delim && s[i] != NEWLINE
}

/// Whether a card can be written as a line and read back: its texts can
/// stand as fields, and its term does not begin like a comment.
pub open spec fn writable(card: CardView, delim: char) -> bool {
    &&& plain(card.term, delim)
    &&& card.term.first() != COMMENT
    &&& plain(card.definition, delim)
    &&& card.annotation matches Some(note) ==> plain(note, delim)
    &&& card.counter <= COUNTER_MAX
}

/// The lines that describe the cards of a deck.
pub open spec fn lines_of_deck(deck: Seq<CardView>, delim: char) -> Seq<Seq<char>> {
    Seq::new(deck.len(), |i: int| line_of(deck[i], delim))
}

/// A text without `c`, then `c`, then any text: the first part is the head
/// and the last part is the tail.
proof fn lemma_cut(a: Seq<char>, c: char, b: Seq<char>)
    requires
        forall|i: int| 0 <= i < a.len() ==> a[i] != c,
    ensures
        index_of(a + seq![c] + b, c) == a.len(),
        head(a + seq![c] + b, c) == a,
        tail(a + seq![c] + b, c) == b,
    decreases a.len(),
{
    let s = a + seq![c] + b;
    if a.len() == 0 {
        assert(s[0] == c);
    } else {
        assert(s[0] == a[0]);
        assert(s.drop_first() =~= a.drop_first() + seq![c] + b);
        assert forall|i: int| 0 <= i < a.drop_first().len() implies a.drop_first()[i] != c by {
            assert(a.drop_first()[i] == a[i + 1]);
        }
        lemma_cut(a.drop_first(), c, b);
    }
    assert(s.take(a.len() as int) =~= a);
    assert(s.skip(a.len() as int + 1) =~= b);
}

/// A text without `c` is its own head and has an empty tail.
proof fn lemma_uncut(a: Seq<char>, c: char)
    requires
        forall|i: int| 0 <= i < a.len() ==> a[i] != c,
    ensures
        index_of(a, c) == a.len(),
        head(a, c) == a,
        tail(a, c) == Seq::<char>::empty(),
    decreases a.len(),
{
    if a.len() > 0 {
        assert forall|i: int| 0 <= i < a.drop_first().len() implies a.drop_first()[i] != c by {
            assert(a.drop_first()[i] == a[i + 1]);
        }
        lemma_uncut(a.drop_first(), c);
    }
    assert(a.take(a.len() as int) =~= a);
}

/// A text that white space neither begins nor ends is left as it is by
/// trimming.
proof fn lemma_trimmed_plain(s: Seq<char>)
    requires
        s.len() == 0 || (!is_space(s.first()) && !is_space(s.last())),
    ensures
        trimmed(s) == s,
{
}

/// The digits of a number can stand as a field.
proof fn lemma_digits_plain(n: nat, delim: char)
    requires
        fits(delim),
    ensures
        digits_of(n).len() > 0,
        forall|i: int|
            0 <= i < digits_of(n).len() ==> {
                &&& (#[trigger] digits_of(n)[i]) != delim
                &&& digits_of(n)[i] != NEWLINE
                &&& !is_space(digits_of(n)[i])
            },
{
    lemma_digits_round_trip(n);
    assert forall|i: int| 0 <= i < digits_of(n).len() implies {
        &&& (#[trigger] digits_of(n)[i]) != delim
        &&& digits_of(n)[i] != NEWLINE
        &&& !is_space(digits_of(n)[i])
    } by {
        assert(digit_of(digits_of(n)[i]) is Some);
    }
}

/// The annotation of a card as a field: empty when there is none.
pub open spec fn note_of(card: CardView) -> Seq<char> {
    match card.annotation {
        Some(note) => note,
        None => Seq::empty(),
    }
}

/// The counter of a card as a field: empty when it is zero.
pub open spec fn level_of(card: CardView) -> Seq<char> {
    if card.counter > 0 {
        digits_of(card.counter)
    } else {
        Seq::empty()
    }
}

/// The four fields that are read from the line of a card are the card's
/// term, definition, annotation and counter as they were written.
proof fn lemma_fields(card: CardView, delim: char)
    requires
        fits(delim),
        writable(card, delim),
    ensures
        head(line_of(card, delim), delim) == card.term,
        head(tail(line_of(card, delim), delim), delim) == card.definition,
        head(tail(tail(line_of(card, delim), delim), delim), delim) == note_of(card),
        head(tail(tail(tail(line_of(card, delim), delim), delim), delim), delim) == level_of(card),
        line_of(card, delim).len() > 0,
        line_of(card, delim).first() == card.term.first(),
        !is_space(line_of(card, delim).last()),
        forall|i: int|
            0 <= i < line_of(card, delim).len() ==> line_of(card, delim)[i] != NEWLINE,
{
    let line = line_of(card, delim);
    let d = seq![delim];
    let none = Seq::<char>::empty();
    let note = note_of(card);
    let digits = digits_of(card.counter);
    lemma_digits_plain(card.counter, delim);
    lemma_uncut(none, delim);
    if card.counter > 0 {
        let third = note + d + digits;
        let second = card.definition + d + third;
        assert(line =~= card.term + d + second);
        lemma_cut(card.term, delim, second);
        lemma_cut(card.definition, delim, third);
        lemma_cut(note, delim, digits);
        lemma_uncut(digits, delim);
        assert(line.last() == digits.last());
    } else if card.annotation is Some {
        let second = card.definition + d + note;
        assert(line =~= card.term + d + second);
        lemma_cut(card.term, delim, second);
        lemma_cut(card.definition, delim, note);
        lemma_uncut(note, delim);
        assert(line.last() == note.last());
    } else {
        assert(line =~= card.term + d + card.definition);
        lemma_cut(card.term, delim, card.definition);
        lemma_uncut(card.definition, delim);
        assert(line.last() == card.definition.last());
    }
}

/// A card that can be written is read back from its line as it was; the
/// line counts as a card's line and holds no newline.
pub proof fn lemma_line_read_back(card: CardView, delim: char)
    requires
        fits(delim),
        writable(card, delim),
    ensures
        card_of(line_of(card, delim), delim) == Some(card),
        counts(line_of(card, delim)),
        forall|i: int|
            0 <= i < line_of(card, delim).len() ==> line_of(card, delim)[i] != NEWLINE,
{
    lemma_fields(card, delim);
    lemma_digits_plain(card.counter, delim);
    lemma_digits_round_trip(card.counter);
    lemma_trimmed_plain(card.term);
    lemma_trimmed_plain(card.definition);
    lemma_trimmed_plain(note_of(card));
    lemma_trimmed_plain(level_of(card));
    lemma_trimmed_plain(line_of(card, delim));
}

/// Where the first `c` of a text stands is not changed by what follows the
/// text; what follows it goes to the tail.
proof fn lemma_index_of_front(a: Seq<char>, b: Seq<char>, c: char)
    requires
        index_of(a, c) < a.len(),
    ensures
        index_of(a + b, c) == index_of(a, c),
        head(a + b, c) == head(a, c),
        tail(a + b, c) == tail(a, c) + b,
    decreases a.len(),
{
    if a[0] != c {
        assert((a + b).drop_first() =~= a.drop_first() + b);
        lemma_index_of_front(a.drop_first(), b, c);
    }
    let k = index_of(a, c) as int;
    assert((a + b).take(k) =~= a.take(k));
    assert((a + b).skip(k + 1) =~= a.skip(k + 1) + b);
}

/// A text that ends with `c` holds a first `c`, and its tail is shorter and
/// is empty or ends with `c` again.
proof fn lemma_index_of_last(a: Seq<char>, c: char)
    requires
        a.len() > 0,
        a.last() == c,
    ensures
        index_of(a, c) < a.len(),
        tail(a, c).len() < a.len(),
        tail(a, c).len() == 0 || tail(a, c).last() == c,
    decreases a.len(),
{
    if a[0] != c {
        let rest = a.drop_first();
        assert(rest.last() == a.last());
        lemma_index_of_last(rest, c);
        assert(a.skip(index_of(a, c) as int + 1) =~= rest.skip(index_of(rest, c) as int + 1));
    }
}

/// One more line at the end of a text of whole lines is one more line at
/// the end of its lines.
proof fn lemma_lines_push(text: Seq<char>, line: Seq<char>)
    requires
        text.len() == 0 || text.last() == NEWLINE,
        forall|i: int| 0 <= i < line.len() ==> line[i] != NEWLINE,
    ensures
        lines_of(text + line + seq![NEWLINE]) == lines_of(text).push(line),
    decreases text.len(),
{
    let more = line + seq![NEWLINE];
    let none = Seq::<char>::empty();
    assert(text + line + seq![NEWLINE] =~= text + more);
    if text.len() == 0 {
        assert(text + more =~= line + seq![NEWLINE] + none);
        lemma_cut(line, NEWLINE, none);
        assert(lines_of(none) =~= Seq::<Seq<char>>::empty());
        assert(lines_of(text + more) =~= seq![line]);
        assert(lines_of(text).push(line) =~= seq![line]);
    } else {
        lemma_index_of_last(text, NEWLINE);
        lemma_index_of_front(text, more, NEWLINE);
        let rest = tail(text, NEWLINE);
        lemma_lines_push(rest, line);
        assert(rest + line + seq![NEWLINE] =~= rest + more);
        assert(lines_of(text + more) =~= lines_of(text).push(line));
    }
}

/// The lines of a deck's text are the lines of its cards.
proof fn lemma_text_lines(deck: Seq<CardView>, delim: char)
    requires
        fits(delim),
        forall|i: int| 0 <= i < deck.len() ==> writable(#[trigger] deck[i], delim),
    ensures
        lines_of(text_of_deck(deck, delim)) == lines_of_deck(deck, delim),
        text_of_deck(deck, delim).len() == 0 || text_of_deck(deck, delim).last() == NEWLINE,
    decreases deck.len(),
{
    if deck.len() > 0 {
        let front = deck.drop_last();
        assert forall|i: int| 0 <= i < front.len() implies writable(#[trigger] front[i], delim) by {
            assert(front[i] == deck[i]);
        }
        lemma_text_lines(front, delim);
        lemma_line_read_back(deck.last(), delim);
        lemma_lines_push(text_of_deck(front, delim), line_of(deck.last(), delim));
        assert(lines_of_deck(front, delim).push(line_of(deck.last(), delim)) =~= lines_of_deck(
            deck,
            delim,
        ));
    } else {
        assert(lines_of_deck(deck, delim) =~= Seq::<Seq<char>>::empty());
    }
}

/// The cards of the lines of a deck are the deck.
proof fn lemma_deck_of_lines(deck: Seq<CardView>, delim: char)
    requires
        fits(delim),
        forall|i: int| 0 <= i < deck.len() ==> writable(#[trigger] deck[i], delim),
    ensures
        deck_of(lines_of_deck(deck, delim), delim) == deck,
    decreases deck.len(),
{
    if deck.len() > 0 {
        let front = deck.drop_last();
        assert forall|i: int| 0 <= i < front.len() implies writable(#[trigger] front[i], delim) by {
            assert(front[i] == deck[i]);
        }
        lemma_deck_of_lines(front, delim);
        lemma_line_read_back(deck.last(), delim);
        assert(lines_of_deck(deck, delim).drop_last() =~= lines_of_deck(front, delim));
        assert(front.push(deck.last()) =~= deck);
    } else {
        assert(deck =~= Seq::<CardView>::empty());
    }
}

/// A deck whose cards can all be written is read back from its text as it
/// was, and no line of the text is refused.
pub proof fn lemma_text_read_back(deck: Seq<CardView>, delim: char)
    requires
        fits(delim),
        forall|i: int| 0 <= i < deck.len() ==> writable(#[trigger] deck[i], delim),
    ensures
        deck_of(lines_of(text_of_deck(deck, delim)), delim) == deck,
        forall|i: int|
            0 <= i < lines_of(text_of_deck(deck, delim)).len() ==> !refused(
                #[trigger] lines_of(text_of_deck(deck, delim))[i],
                delim,
            ),
{
    lemma_text_lines(deck, delim);
    lemma_deck_of_lines(deck, delim);
    assert forall|i: int| 0 <= i < lines_of_deck(deck, delim).len() implies !refused(
        #[trigger] lines_of_deck(deck, delim)[i],
        delim,
    ) by {
        lemma_line_read_back(deck[i], delim);
    }
}

} // verus!
