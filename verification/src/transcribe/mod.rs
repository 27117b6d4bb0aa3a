//! The engines that turn sound into text, as far as they can be told apart
//! without running them.
use vstd::prelude::*;
use crate::settings;
use crate::text;

pub mod parakeet;
pub mod whisper;

verus! {

/// How one transcription is made.
#[derive(Debug, Clone)]
pub struct TranscribeOptions {
    /// An ISO-639-1 code, or `auto`.
    pub language: String,
    /// Text that biases the engine towards the words in it.
    pub initial_prompt: String,
    /// Threads to use; the engine's choice where there is no number.
    pub threads: Option<i32>,
    /// The width of the search; 1 is none.
    pub beam_size: i32,
}

impl Default for TranscribeOptions {
    fn default() -> (r: Self)
        ensures
            r.language@ == "en"@,
            r.initial_prompt@ == Seq::<char>::empty(),
            r.threads is None,
            r.beam_size == 5,
    {
        TranscribeOptions {
            language: "en".to_owned(),
            initial_prompt: String::new(),
            threads: None,
            beam_size: 5,
        }
    }
}

/// The file or directory of a model.
pub open spec fn file_of(model_id: Seq<char>) -> Seq<char> {
    if settings::engine_of(model_id) == "parakeet"@ {
        parakeet::directory_of(model_id)
    } else {
        whisper::file_of(model_id)
    }
}

/// The file or directory of a model.
pub fn model_filename(model_id: &str) -> (r: String)
    ensures
        r@ == file_of(model_id@),
{
    if text::same_text(settings::engine_for_model(model_id), "parakeet") {
        parakeet::model_filename(model_id)
    } else {
        whisper::model_filename(model_id)
    }
}

/// Where a model comes from.
pub fn model_download_url(model_id: &str) -> (r: String)
    ensures
        r@ == (if settings::engine_of(model_id@) == "parakeet"@ {
            parakeet::home_of(model_id@)
        } else {
            whisper::home_of(model_id@)
        }),
{
    if text::same_text(settings::engine_for_model(model_id), "parakeet") {
        parakeet::model_download_url(model_id)
    } else {
        whisper::model_download_url(model_id)
    }
}

/// What has to be done before a model can be used.
#[derive(Debug, Clone, Copy, PartialEq, Eq, Structural)]
pub enum Loading {
    /// It is loaded.
    Done,
    /// It is to be loaded, in place of another if there is one.
    Load,
}

/// Whether a model must be loaded: not where the same is loaded already.
pub open spec fn loading(loaded: Option<Seq<char>>, wanted: Seq<char>) -> Loading {
    if loaded == Some(wanted) {
        Loading::Done
    } else {
        Loading::Load
    }
}

/// Whether a model must be loaded, given the path of the one that is loaded.
pub fn needs_loading(loaded: Option<&str>, wanted: &str) -> (r: Loading)
    ensures
        r == loading(text::opt_str(loaded), wanted@),
{
    match loaded {
        Some(l) => if text::same_text(l, wanted) {
            Loading::Done
        } else {
            Loading::Load
        },
        None => Loading::Load,
    }
}

} // verus!
