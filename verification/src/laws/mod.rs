//! What the library does to a text, said of the text itself.
//!
//! Each law takes texts apart into the pieces that matter and says what comes
//! out, or tells how the results of two calls relate.
pub mod text;
pub mod speech;
pub mod learning;
pub mod corrections;
pub mod silence;
pub mod repeats;
pub mod identifiers;
pub mod markup;
pub mod watching;
pub mod dictation;
pub mod listening;
pub mod store;
pub mod places;
pub mod calls;
