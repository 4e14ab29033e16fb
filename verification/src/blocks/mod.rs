//! Gems, falling columns, the pile, and the search for matches.

pub mod block;
pub mod column;
pub mod matching;
pub mod pile;

pub use block::{Gem, GemBlock};
pub use column::Column;
pub use matching::{Direction, MatchingStructure};
pub use pile::Pile;
