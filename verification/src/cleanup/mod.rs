//! Deterministic passes over a transcript: the per-app output mode, and the
//! removal of what speech recognition adds of its own.
pub mod postprocess;
pub mod scrub;

pub use postprocess::{apply as apply_postprocess, CodeCase, Mode};
pub use scrub::{collapse_repeats, scrub_hallucinations};
