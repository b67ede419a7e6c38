//! The deck as text: one card per line, its fields parted by a delimiter.

use vstd::prelude::*;
use crate::card::{Card, CardView};
use crate::deck::views;
use crate::number::{counter_at, counter_of, digits_of, push_digits};
use crate::text::{chars_of, text_of, trim_bounds, trimmed};

verus! {

/// The character that ends a line.
pub const NEWLINE: char = '\n';

/// The character that a comment line begins with.
pub const COMMENT: char = '#';

/// Where `c` first stands in `s`; the length of `s` if it stands nowhere.
pub open spec fn index_of(s: Seq<char>, c: char) -> nat
    decreases s.len(),
{
    if s.len() == 0 || s[0] == c {
        0
    } else {
        1 + index_of(s.drop_first(), c)
    }
}

/// What stands before the first `c` in `s`; all of `s` if there is none.
pub open spec fn head(s: Seq<char>, c: char) -> Seq<char> {
    s.take(index_of(s, c) as int)
}

/// What stands after the first `c` in `s`; nothing if there is none.
pub open spec fn tail(s: Seq<char>, c: char) -> Seq<char> {
    if index_of(s, c) < s.len() {
        s.skip(index_of(s, c) as int + 1)
    } else {
        Seq::empty()
    }
}

/// The lines of a text. A line ends at a newline or at the end of the
/// text; a newline at the very end begins no further line.
pub open spec fn lines_of(text: Seq<char>) -> Seq<Seq<char>>
    decreases text.len(),
{
    if text.len() == 0 {
        Seq::empty()
    } else {
        seq![head(text, NEWLINE)] + lines_of(tail(text, NEWLINE))
    }
}

/// Whether a line holds a card: it is neither blank nor a comment.
pub open spec fn counts(line: Seq<char>) -> bool {
    trimmed(line).len() > 0 && trimmed(line)[0] != COMMENT
}

/// The card that a line describes: its first field is the term, its second
/// the definition, its third, if it is not blank, the annotation, its
/// fourth, if it is not blank, the counter in decimal digits, each without
/// the white space around it. A line without a term, without a definition,
/// or with a fourth field that writes no counter describes no card.
pub open spec fn card_of(line: Seq<char>, delim: char) -> Option<CardView> {
    let second = tail(line, delim);
    let third = tail(second, delim);
    let fourth = tail(third, delim);
    let term = trimmed(head(line, delim));
    let definition = trimmed(head(second, delim));
    let note = trimmed(head(third, delim));
    let counter = counter_of(trimmed(head(fourth, delim)));
    if term.len() == 0 || definition.len() == 0 || counter is None {
        None
    } else {
        Some(
            CardView {
                term,
                definition,
                annotation: if note.len() == 0 {
                    None
                } else {
                    Some(note)
                },
                counter: counter->0,
            },
        )
    }
}

/// The line that describes a card: term and definition, then the
/// annotation and the counter as far as there is anything to write. A
/// counter at zero is left out, and with it an annotation that is missing.
pub open spec fn line_of(card: CardView, delim: char) -> Seq<char> {
    let base = card.term + seq![delim] + card.definition;
    let note = match card.annotation {
        Some(note) => note,
        None => Seq::empty(),
    };
    if card.counter > 0 {
        base + seq![delim] + note + seq![delim] + digits_of(card.counter)
    } else if card.annotation is Some {
        base + seq![delim] + note
    } else {
        base
    }
}

/// The text that describes a deck: the line of each card, in deck order,
/// each ended by a newline.
pub open spec fn text_of_deck(deck: Seq<CardView>, delim: char) -> Seq<char>
    decreases deck.len(),
{
    if deck.len() == 0 {
        Seq::empty()
    } else {
        text_of_deck(deck.drop_last(), delim) + line_of(deck.last(), delim) + seq![NEWLINE]
    }
}

/// Whether a line is refused: it should hold a card and describes none.
pub open spec fn refused(line: Seq<char>, delim: char) -> bool {
    counts(line) && card_of(line, delim) is None
}

/// The cards of the lines that hold one, in the order of the lines.
pub open spec fn deck_of(lines: Seq<Seq<char>>, delim: char) -> Seq<CardView>
    decreases lines.len(),
{
    if lines.len() == 0 {
        Seq::empty()
    } else {
        let front = deck_of(lines.drop_last(), delim);
        if counts(lines.last()) && card_of(lines.last(), delim) is Some {
            front.push(card_of(lines.last(), delim)->0)
        } else {
            front
        }
    }
}

/// A line that should hold a card and describes none.
#[derive(Clone, Debug, PartialEq, Eq)]
pub struct DeckError {
    /// The number of the line in the text, counted from one.
    pub line: usize,
    /// The line, without the white space around it.
    pub text: String,
}

/// Finds the first `c` in `v[from..to]`; gives `to` if there is none.
fn find(v: &Vec<char>, from: usize, to: usize, c: char) -> (at: usize)
    requires
        from <= to <= v@.len(),
    ensures
        from <= at <= to,
        at - from == index_of(v@.subrange(from as int, to as int), c),
        head(v@.subrange(from as int, to as int), c) == v@.subrange(from as int, at as int),
        tail(v@.subrange(from as int, to as int), c) == v@.subrange(
            if at < to {
                at + 1
            } else {
                to as int
            },
            to as int,
        ),
{
    let ghost line = v@.subrange(from as int, to as int);
    let mut at: usize = from;
    while at < to && v[at] != c
        invariant
            from <= at <= to <= v@.len(),
            index_of(v@.subrange(from as int, to as int), c) == (at - from) + index_of(
                v@.subrange(at as int, to as int),
                c,
            ),
        decreases to - at,
    {
        assert(v@.subrange(at as int, to as int).drop_first() =~= v@.subrange(at + 1, to as int));
        at += 1;
    }
    assert(line.take(at - from) =~= v@.subrange(from as int, at as int));
    if at < to {
        assert(line.skip(at - from + 1) =~= v@.subrange(at + 1, to as int));
    } else {
        assert(Seq::<char>::empty() =~= v@.subrange(to as int, to as int));
    }
    at
}

/// Reads the card that `v[from..to]` describes, if it describes one.
fn card_at(v: &Vec<char>, from: usize, to: usize, delim: char) -> (card: Option<Card>)
    requires
        from <= to <= v@.len(),
    ensures
        match card {
            Some(card) => card_of(v@.subrange(from as int, to as int), delim) == Some(card@),
            None => card_of(v@.subrange(from as int, to as int), delim) is None,
        },
{
    let first: usize = find(v, from, to, delim);
    let second_from: usize = if first < to { first + 1 } else { to };
    let second: usize = find(v, second_from, to, delim);
    let third_from: usize = if second < to { second + 1 } else { to };
    let third: usize = find(v, third_from, to, delim);
    let fourth_from: usize = if third < to { third + 1 } else { to };
    let fourth: usize = find(v, fourth_from, to, delim);
    let (term_from, term_to) = trim_bounds(v, from, first);
    let (def_from, def_to) = trim_bounds(v, second_from, second);
    let (note_from, note_to) = trim_bounds(v, third_from, third);
    let (level_from, level_to) = trim_bounds(v, fourth_from, fourth);
    if term_from == term_to || def_from == def_to {
        return None;
    }
    let counter: u32 = match counter_at(v, level_from, level_to) {
        Some(counter) => counter,
        None => {
            return None;
        },
    };
    let term = text_of(v, term_from, term_to);
    let definition = text_of(v, def_from, def_to);
    let card = if note_from == note_to {
        Card::new(term.as_str(), definition.as_str(), None)
    } else {
        let note = text_of(v, note_from, note_to);
        Card::new(term.as_str(), definition.as_str(), Some(note.as_str()))
    };
    Some(card.with_counter(counter))
}

impl Card {
    /// Writes the line of a deck's text that describes the card.
    pub fn line(&self, delim: char) -> (line: String)
        ensures
            line@ == line_of(self@, delim),
    {
        let mut line = String::new();
        line.append(self.question());
        line.push(delim);
        line.append(self.correct());
        let counter: u32 = self.counter();
        match self.annotation() {
            Some(note) => {
                line.push(delim);
                line.append(note);
                if counter > 0 {
                    line.push(delim);
                    push_digits(&mut line, counter);
                }
            },
            None => {
                if counter > 0 {
                    line.push(delim);
                    line.push(delim);
                    push_digits(&mut line, counter);
                }
            },
        }
        assert(line@ =~= line_of(self@, delim));
        line
    }

    /// Reads a card from one line of a deck's text.
    pub fn deser(line: &str, delim: char) -> (card: Option<Card>)
        ensures
            match card {
                Some(card) => card_of(line@, delim) == Some(card@),
                None => card_of(line@, delim) is None,
            },
    {
        let v = chars_of(line);
        assert(v@.subrange(0, v@.len() as int) =~= v@);
        card_at(&v, 0, v.len(), delim)
    }
}

/// Reads a deck from its text. Blank lines and comment lines are passed
/// over; every other line has to describe a card. The first line that does
/// not is reported, and no deck is returned.
pub fn init(contents: &str, delim: char) -> (deck: Result<Vec<Card>, DeckError>)
    ensures
        match deck {
            Ok(deck) => {
                &&& views(deck@) == deck_of(lines_of(contents@), delim)
                &&& forall|i: int|
                    0 <= i < lines_of(contents@).len() ==> !refused(
                        #[trigger] lines_of(contents@)[i],
                        delim,
                    )
            },
            Err(error) => {
                &&& 1 <= error.line <= lines_of(contents@).len()
                &&& refused(lines_of(contents@)[error.line - 1], delim)
                &&& forall|i: int|
                    0 <= i < error.line - 1 ==> !refused(#[trigger] lines_of(contents@)[i], delim)
                &&& error.text@ == trimmed(lines_of(contents@)[error.line - 1])
            },
        },
{
    let v = chars_of(contents);
    let len: usize = v.len();
    let ghost all = lines_of(v@);
    let ghost done: Seq<Seq<char>> = Seq::empty();
    let mut deck: Vec<Card> = Vec::new();
    let mut pos: usize = 0;
    let mut count: usize = 0;
    assert(v@.skip(0) =~= v@);
    assert(views(deck@) =~= deck_of(done, delim));
    while pos < len
        invariant
            v@ == contents@,
            len == v@.len(),
            all == lines_of(v@),
            pos <= len,
            count <= pos,
            count == done.len(),
            all == done + lines_of(v@.skip(pos as int)),
            views(deck@) == deck_of(done, delim),
            forall|i: int| 0 <= i < done.len() ==> !refused(#[trigger] done[i], delim),
        decreases len - pos,
    {
        let ghost rest = v@.skip(pos as int);
        assert(rest =~= v@.subrange(pos as int, len as int));
        let end: usize = find(&v, pos, len, NEWLINE);
        let next: usize = if end < len { end + 1 } else { len };
        let ghost line = v@.subrange(pos as int, end as int);
        proof {
            assert(v@.subrange(next as int, len as int) =~= v@.skip(next as int));
            assert(lines_of(rest) == seq![line] + lines_of(v@.skip(next as int)));
            assert(all =~= done.push(line) + lines_of(v@.skip(next as int)));
            assert(done.push(line).drop_last() =~= done);
            assert(all[count as int] == line);
        }
        let (from, to) = trim_bounds(&v, pos, end);
        assert(from < to ==> trimmed(line)[0] == v@[from as int]);
        if from < to && v[from] != COMMENT {
            match card_at(&v, pos, end, delim) {
                Some(card) => {
                    deck.push(card);
                    assert(views(deck@) =~= deck_of(done.push(line), delim));
                },
                None => {
                    assert forall|i: int| 0 <= i < count implies !refused(
                        #[trigger] all[i],
                        delim,
                    ) by {
                        assert(all[i] == done[i]);
                    }
                    return Err(DeckError { line: count + 1, text: text_of(&v, from, to) });
                },
            }
        }
        proof {
            done = done.push(line);
        }
        pos = next;
        count += 1;
    }
    assert(v@.skip(len as int) =~= Seq::<char>::empty());
    assert(all =~= done);
    Ok(deck)
}

/// Writes a deck as text, one line per card.
pub fn to_text(deck: &Vec<Card>, delim: char) -> (text: String)
    ensures
        text@ == text_of_deck(views(deck@), delim),
{
    let ghost all = views(deck@);
    let mut text = String::new();
    let mut i: usize = 0;
    while i < deck.len()
        invariant
            all == views(deck@),
            i <= deck@.len(),
            text@ == text_of_deck(all.take(i as int), delim),
        decreases deck@.len() - i,
    {
        assert(all.take(i + 1).drop_last() =~= all.take(i as int));
        let line = deck[i].line(delim);
        text.append(line.as_str());
        text.push(NEWLINE);
        i += 1;
    }
    assert(all.take(i as int) =~= all);
    text
}

} // verus!
