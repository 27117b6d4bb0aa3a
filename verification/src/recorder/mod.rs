//! One dictation, from the recording to the text in the user's app.
pub mod autolearn;
pub mod pipeline;
pub mod prompt;
pub mod replacements;
pub mod session;
pub mod watcher;

pub use session::RecordingState;
