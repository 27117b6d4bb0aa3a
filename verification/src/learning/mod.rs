//! What is learned from the user's own corrections of a transcript.
pub mod diff;
pub mod focused_text;
pub mod similarity;
pub mod tally;

pub use similarity::similar_ratio;
