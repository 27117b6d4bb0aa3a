//! The rules of recording: which device, how much, and what is quiet.
pub mod capture;
pub mod vad;

pub use capture::{MicDevice, MAX_RECORDING_SECS};
