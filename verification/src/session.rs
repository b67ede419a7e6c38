//! One pass over a deck: the cursor, and what each line of input does to the
//! deck and the cursor.

use vstd::prelude::*;
use crate::card::{Card, CardView, Lok};
use crate::command::{input, input_of, Command, Input};
use crate::deck::{due, remaining, to_learn, views};
use crate::text::{trim, trimmed};

verus! {

/// Where a pass stands.
#[derive(Clone, Copy, Debug, PartialEq, Eq, Structural)]
pub struct Cursor {
    /// The card the pass has come to; the deck's length when the pass is over.
    pub index: usize,
    /// Whether the last line was a command that only informs, so that the
    /// next prompt does not show the question again.
    pub quiet: bool,
}

/// What a line of input led to. A card is named by its place in the deck.
#[derive(Clone, Copy, Debug, PartialEq, Eq, Structural)]
pub enum Reply {
    /// The guess was the expected answer; the card was credited.
    Knew(usize),
    /// The guess was not the expected answer; the card was debited.
    Wrong(usize),
    /// A hint for this card is to be shown.
    Hint(usize),
    /// The deck is to be saved.
    Save,
    /// The deck is to be saved, and the process ends.
    SaveQuit,
    /// The process ends.
    Quit,
    /// This card, the one before the current card, was credited.
    Typo(usize),
    /// There is no card before the current one to credit.
    NothingToCorrect,
    /// This card was passed over unchanged.
    Skipped(usize),
    /// The pass was ended early.
    Revise,
    /// Both sides of this card are to be shown; the card was credited.
    Flash(usize),
    /// So many cards are left to learn, and the pass stands at this place.
    Progress(usize, usize),
    /// The line began with the sentinel and named no command.
    Unknown,
    /// No card was left to ask: the pass is over and the line was not read.
    Complete,
}

/// What the loop around the session does after a reply.
#[derive(Clone, Copy, Debug, PartialEq, Eq, Structural)]
pub enum Signal {
    /// Ask the same card again.
    Continue,
    /// Go on; the card was left as it was.
    AdvanceWithoutCredit,
    /// Go on; the card was credited.
    AdvanceWithCredit,
    /// Go on; the card was debited.
    AdvanceWithDebit,
    /// The pass is over.
    AbortPass,
    /// End the process with this exit code.
    TerminateProcess(i32),
}

/// The first card at or after `from` that still has to be learned, or the
/// end of the deck.
pub open spec fn next_due(deck: Seq<CardView>, from: int) -> int
    decreases deck.len() - from,
{
    if 0 <= from < deck.len() && !due(deck[from]) {
        next_due(deck, from + 1)
    } else {
        from
    }
}

/// The outcome of one line of input.
pub struct Step {
    pub deck: Seq<CardView>,
    pub index: int,
    pub quiet: bool,
    pub reply: Reply,
}

/// What a command does when the pass stands at the card `at`.
pub open spec fn act(deck: Seq<CardView>, at: int, command: Command) -> Step {
    let stay = Step { deck, index: at, quiet: command.informs(), reply: Reply::Unknown };
    match command {
        Command::Quit => Step { reply: Reply::Quit, ..stay },
        Command::Hint => Step { reply: Reply::Hint(at as usize), ..stay },
        Command::Save => Step { reply: Reply::Save, ..stay },
        Command::SaveQuit => Step { reply: Reply::SaveQuit, ..stay },
        Command::Typo => if at > 0 {
            Step {
                deck: deck.update(at - 1, deck[at - 1].credited()),
                reply: Reply::Typo((at - 1) as usize),
                ..stay
            }
        } else {
            Step { reply: Reply::NothingToCorrect, ..stay }
        },
        Command::Skip => Step { index: at + 1, reply: Reply::Skipped(at as usize), ..stay },
        Command::Revise => Step { index: deck.len() as int, reply: Reply::Revise, ..stay },
        Command::Flash => Step {
            deck: deck.update(at, deck[at].credited()),
            index: at + 1,
            reply: Reply::Flash(at as usize),
            ..stay
        },
        Command::Progress => Step {
            reply: Reply::Progress(remaining(deck) as usize, at as usize),
            ..stay
        },
        Command::Unknown => stay,
    }
}

/// What a guess does when the pass stands at the card `at`: the card is
/// credited when the guess is its definition, letter for letter, and debited
/// otherwise; either way the pass goes on to the next card.
pub open spec fn judge(deck: Seq<CardView>, at: int, guess: Seq<char>) -> Step {
    if guess == deck[at].definition {
        Step {
            deck: deck.update(at, deck[at].credited()),
            index: at + 1,
            quiet: false,
            reply: Reply::Knew(at as usize),
        }
    } else {
        Step {
            deck: deck.update(at, deck[at].debited()),
            index: at + 1,
            quiet: false,
            reply: Reply::Wrong(at as usize),
        }
    }
}

/// What one line of input does to a deck when the cursor stands at `from`:
/// mastered cards are passed over in silence, and the line is read against
/// the first card that is still due.
pub open spec fn step(deck: Seq<CardView>, from: int, quiet: bool, line: Seq<char>) -> Step {
    let at = next_due(deck, from);
    if 0 <= at < deck.len() {
        match input_of(trimmed(line)) {
            Input::Guess => judge(deck, at, trimmed(line)),
            Input::Command(command) => act(deck, at, command),
        }
    } else {
        Step { deck, index: at, quiet, reply: Reply::Complete }
    }
}

/// A pass after `lines` were read in order, begun with the cursor at `from`.
/// The reply is the one to the last line, and `Complete` if there was none.
pub open spec fn after(deck: Seq<CardView>, from: int, quiet: bool, lines: Seq<Seq<char>>) -> Step
    decreases lines.len(),
{
    if lines.len() == 0 {
        Step { deck, index: from, quiet, reply: Reply::Complete }
    } else {
        let before = after(deck, from, quiet, lines.drop_last());
        step(before.deck, before.index, before.quiet, lines.last())
    }
}

/// The card that is asked next lies at or after the cursor, is still due
/// unless the deck has come to its end, and only mastered cards lie between
/// the cursor and it.
pub proof fn lemma_next_due(deck: Seq<CardView>, from: int)
    requires
        0 <= from,
    ensures
        from <= next_due(deck, from),
        from <= deck.len() ==> next_due(deck, from) <= deck.len(),
        next_due(deck, from) < deck.len() ==> due(deck[next_due(deck, from)]),
        forall|k: int| from <= k < next_due(deck, from) ==> k < deck.len() && !due(#[trigger] deck[k]),
    decreases deck.len() - from,
{
    if from < deck.len() && !due(deck[from]) {
        lemma_next_due(deck, from + 1);
    }
}

/// One line of input never moves the cursor back, leaves the deck its
/// length, leaves every card at or after the new cursor as it was, and
/// leaves every mastered card mastered.
pub proof fn lemma_step_forward(deck: Seq<CardView>, from: int, quiet: bool, line: Seq<char>)
    requires
        0 <= from,
    ensures
        from <= step(deck, from, quiet, line).index,
        step(deck, from, quiet, line).deck.len() == deck.len(),
        forall|k: int|
            step(deck, from, quiet, line).index <= k < deck.len() ==> #[trigger] step(
                deck,
                from,
                quiet,
                line,
            ).deck[k] == deck[k],
        forall|k: int|
            0 <= k < deck.len() && !due(deck[k]) ==> !due(
                #[trigger] step(deck, from, quiet, line).deck[k],
            ),
{
    lemma_next_due(deck, from);
}

/// Whatever lines are read, a pass never moves the cursor back, leaves the
/// deck its length and leaves every mastered card mastered.
pub proof fn lemma_after_forward(
    deck: Seq<CardView>,
    from: int,
    quiet: bool,
    lines: Seq<Seq<char>>,
)
    requires
        0 <= from,
    ensures
        from <= after(deck, from, quiet, lines).index,
        after(deck, from, quiet, lines).deck.len() == deck.len(),
        forall|k: int|
            0 <= k < deck.len() && !due(deck[k]) ==> !due(
                #[trigger] after(deck, from, quiet, lines).deck[k],
            ),
    decreases lines.len(),
{
    if lines.len() > 0 {
        let before = after(deck, from, quiet, lines.drop_last());
        lemma_after_forward(deck, from, quiet, lines.drop_last());
        lemma_step_forward(before.deck, before.index, before.quiet, lines.last());
    }
}

/// A card that is mastered when a pass begins is never asked during that
/// pass, whatever lines are read: it stays mastered, and it is never the
/// card that the next line is read against.
pub proof fn lemma_mastered_never_asked(
    deck: Seq<CardView>,
    from: int,
    quiet: bool,
    lines: Seq<Seq<char>>,
    card: int,
)
    requires
        0 <= from,
        0 <= card < deck.len(),
        !due(deck[card]),
    ensures
        !due(after(deck, from, quiet, lines).deck[card]),
        next_due(after(deck, from, quiet, lines).deck, after(deck, from, quiet, lines).index)
            != card,
{
    lemma_after_forward(deck, from, quiet, lines);
    let now = after(deck, from, quiet, lines);
    lemma_next_due(now.deck, now.index);
}

/// A card is asked at most once in a pass: after a line that made the pass
/// go on from a card, whatever lines follow, the card that is asked lies
/// behind that card.
pub proof fn lemma_asked_once(
    deck: Seq<CardView>,
    from: int,
    quiet: bool,
    line: Seq<char>,
    lines: Seq<Seq<char>>,
)
    requires
        0 <= from,
        step(deck, from, quiet, line).reply.signal() == Signal::AdvanceWithCredit || step(
            deck,
            from,
            quiet,
            line,
        ).reply.signal() == Signal::AdvanceWithDebit || step(
            deck,
            from,
            quiet,
            line,
        ).reply.signal() == Signal::AdvanceWithoutCredit,
    ensures
        next_due(deck, from) < next_due(
            after(
                step(deck, from, quiet, line).deck,
                step(deck, from, quiet, line).index,
                step(deck, from, quiet, line).quiet,
                lines,
            ).deck,
            after(
                step(deck, from, quiet, line).deck,
                step(deck, from, quiet, line).index,
                step(deck, from, quiet, line).quiet,
                lines,
            ).index,
        ),
{
    let first = step(deck, from, quiet, line);
    lemma_next_due(deck, from);
    lemma_after_forward(first.deck, first.index, first.quiet, lines);
    let later = after(first.deck, first.index, first.quiet, lines);
    lemma_next_due(later.deck, later.index);
}

impl Reply {
    /// What the loop around the session does after this reply.
    pub open spec fn spec_signal(self) -> Signal {
        match self {
            Reply::Knew(_) | Reply::Flash(_) => Signal::AdvanceWithCredit,
            Reply::Wrong(_) => Signal::AdvanceWithDebit,
            Reply::Skipped(_) => Signal::AdvanceWithoutCredit,
            Reply::Revise | Reply::Complete => Signal::AbortPass,
            Reply::Quit | Reply::SaveQuit => Signal::TerminateProcess(0),
            _ => Signal::Continue,
        }
    }

    /// What the loop around the session does after this reply.
    #[verifier::when_used_as_spec(spec_signal)]
    pub fn signal(self) -> (signal: Signal)
        ensures
            signal == self.spec_signal(),
    {
        match self {
            Reply::Knew(_) | Reply::Flash(_) => Signal::AdvanceWithCredit,
            Reply::Wrong(_) => Signal::AdvanceWithDebit,
            Reply::Skipped(_) => Signal::AdvanceWithoutCredit,
            Reply::Revise | Reply::Complete => Signal::AbortPass,
            Reply::Quit | Reply::SaveQuit => Signal::TerminateProcess(0),
            _ => Signal::Continue,
        }
    }
}

impl Cursor {
    /// The cursor at the start of a pass.
    pub fn start() -> (cursor: Cursor)
        ensures
            cursor.index == 0,
            !cursor.quiet,
    {
        Cursor { index: 0, quiet: false }
    }
}

/// Moves the cursor over the cards that are mastered and names the card to
/// ask next, if one is left. A card that is mastered is never named.
pub fn prompt(deck: &Vec<Card>, cursor: &mut Cursor) -> (card: Option<usize>)
    ensures
        final(cursor).index == next_due(views(deck@), old(cursor).index as int),
        final(cursor).quiet == old(cursor).quiet,
        old(cursor).index <= final(cursor).index,
        forall|i: int|
            old(cursor).index <= i < final(cursor).index ==> i < deck@.len() && !due(
                (#[trigger] deck@[i])@,
            ),
        match card {
            Some(at) => at == final(cursor).index && at < deck@.len() && due(deck@[at as int]@),
            None => final(cursor).index >= deck@.len(),
        },
{
    let ghost all = views(deck@);
    let ghost from = cursor.index as int;
    while cursor.index < deck.len() && deck[cursor.index].lok() == Lok::Done
        invariant
            all == views(deck@),
            from <= cursor.index,
            cursor.index == from || cursor.index <= deck@.len(),
            cursor.quiet == old(cursor).quiet,
            next_due(all, from) == next_due(all, cursor.index as int),
            forall|i: int|
                from <= i < cursor.index ==> i < deck@.len() && !due((#[trigger] deck@[i])@),
        decreases deck@.len() - cursor.index,
    {
        cursor.index = cursor.index + 1;
    }
    if cursor.index < deck.len() {
        Some(cursor.index)
    } else {
        None
    }
}

/// Reads one line of input against the deck. Mastered cards are passed over
/// first; if a card is left, the line is a guess at it or a command, and
/// the deck, the cursor and the reply are what `step` says.
pub fn question(deck: &mut Vec<Card>, cursor: &mut Cursor, line: &str) -> (reply: Reply)
    ensures
        final(deck)@.len() == old(deck)@.len(),
        views(final(deck)@) == step(
            views(old(deck)@),
            old(cursor).index as int,
            old(cursor).quiet,
            line@,
        ).deck,
        final(cursor).index == step(
            views(old(deck)@),
            old(cursor).index as int,
            old(cursor).quiet,
            line@,
        ).index,
        final(cursor).quiet == step(
            views(old(deck)@),
            old(cursor).index as int,
            old(cursor).quiet,
            line@,
        ).quiet,
        reply == step(views(old(deck)@), old(cursor).index as int, old(cursor).quiet, line@).reply,
{
    let ghost before = views(deck@);
    let at: usize = match prompt(deck, cursor) {
        Some(at) => at,
        None => {
            return Reply::Complete;
        },
    };
    let len: usize = deck.len();
    let text = trim(line);
    let reply = match input(text) {
        Input::Guess => {
            cursor.index = at + 1;
            cursor.quiet = false;
            if text.eq(deck[at].correct()) {
                deck[at].incr();
                Reply::Knew(at)
            } else {
                deck[at].decr();
                Reply::Wrong(at)
            }
        },
        Input::Command(command) => {
            cursor.quiet = command.informs();
            match command {
                Command::Quit => Reply::Quit,
                Command::Hint => Reply::Hint(at),
                Command::Save => Reply::Save,
                Command::SaveQuit => Reply::SaveQuit,
                Command::Typo => {
                    if at > 0 {
                        deck[at - 1].incr();
                        Reply::Typo(at - 1)
                    } else {
                        Reply::NothingToCorrect
                    }
                },
                Command::Skip => {
                    cursor.index = at + 1;
                    Reply::Skipped(at)
                },
                Command::Revise => {
                    cursor.index = len;
                    Reply::Revise
                },
                Command::Flash => {
                    deck[at].incr();
                    cursor.index = at + 1;
                    Reply::Flash(at)
                },
                Command::Progress => Reply::Progress(to_learn(deck), at),
                Command::Unknown => Reply::Unknown,
            }
        },
    };
    assert(views(deck@) =~= step(before, old(cursor).index as int, old(cursor).quiet, line@).deck);
    reply
}

} // verus!
