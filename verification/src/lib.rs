//! A vocabulary drill: cards with a mastery counter, the commands a learner
//! can type while being quizzed, one pass over a deck, and the rule that
//! repeats passes until every card is mastered.

pub mod card;
pub mod command;
pub mod deck;
pub mod mode;
pub mod number;
pub mod repetition;
pub mod session;
pub mod source;
pub mod text;
pub mod written;

pub use card::{Card, Lok};
pub use deck::{randomly_swap_cards, swap_cards};
pub use mode::Mode;
pub use repetition::run;
pub use session::question;
pub use source::init;
pub use text::hint;
