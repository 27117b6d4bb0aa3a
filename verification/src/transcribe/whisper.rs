//! The whisper engine: its models, and what it is told for a transcription.
use vstd::prelude::*;
use crate::text;
use crate::text::Class;
use crate::transcribe;
use crate::transcribe::{Loading, TranscribeOptions};

verus! {

/// The file of a model.
pub open spec fn file_of(model_size: Seq<char>) -> Seq<char> {
    "ggml-"@ + model_size + ".bin"@
}

/// Where a model comes from.
pub open spec fn home_of(model_size: Seq<char>) -> Seq<char> {
    "https://huggingface.co/ggerganov/whisper.cpp/resolve/main/ggml-"@ + model_size + ".bin"@
}

/// The file of a model.
pub fn model_filename(model_size: &str) -> (r: String)
    ensures
        r@ == file_of(model_size@),
{
    let head = text::concat("ggml-", model_size);
    text::concat(head.as_str(), ".bin")
}

/// Where a model comes from.
pub fn model_download_url(model_size: &str) -> (r: String)
    ensures
        r@ == home_of(model_size@),
{
    let head = text::concat(
        "https://huggingface.co/ggerganov/whisper.cpp/resolve/main/ggml-",
        model_size,
    );
    text::concat(head.as_str(), ".bin")
}

/// The engine is quick enough for captions.
pub fn supports_streaming() -> (r: bool)
    ensures
        r,
{
    true
}

/// The engine heeds a prompt.
pub fn supports_initial_prompt() -> (r: bool)
    ensures
        r,
{
    true
}

/// What has to be done before a model can be used; an error where its file is
/// not there.
pub fn load_step(file_exists: bool, loaded: Option<&str>, wanted: &str) -> (r: Result<
    Loading,
    String,
>)
    ensures
        match r {
            Ok(l) => file_exists && l == transcribe::loading(
                text::opt_str(loaded),
                wanted@,
            ),
            Err(e) => !file_exists && e@
                == "Whisper model not found. Please download a model first."@,
        },
{
    if !file_exists {
        return Err("Whisper model not found. Please download a model first.".to_owned());
    }
    Ok(transcribe::needs_loading(loaded, wanted))
}

/// What the engine is told for one transcription.
#[derive(Debug, Clone)]
pub struct WhisperPlan {
    pub threads: i32,
    /// The width of the search; none where the engine takes the best token as
    /// it goes.
    pub beam_size: Option<i32>,
    /// The language; none where the engine is to find out.
    pub language: Option<String>,
    pub initial_prompt: Option<String>,
    pub translate: bool,
    pub print_anything: bool,
    pub suppress_blank: bool,
    pub suppress_non_speech: bool,
}

/// The number of threads: as asked for, else as many as the machine has, else
/// four.
pub open spec fn threads_for(asked: Option<i32>, available: Option<usize>) -> int {
    match asked {
        Some(n) => n as int,
        None => match available {
            Some(n) => n as int,
            None => 4,
        },
    }
}

/// Whether a language setting leaves the language to the engine.
pub open spec fn detects(language: Seq<char>) -> bool {
    language.len() == 0 || language == "auto"@
}

/// What the engine is told for one transcription.
pub fn plan(opts: &TranscribeOptions, available: Option<usize>) -> (r: WhisperPlan)
    requires
        available matches Some(n) ==> n <= i32::MAX,
    ensures
        r.threads == threads_for(opts.threads, available),
        r.beam_size == (if opts.beam_size > 1 {
            Some(opts.beam_size)
        } else {
            None
        }),
        match r.language {
            Some(l) => !detects(opts.language@) && l@ == opts.language@,
            None => detects(opts.language@),
        },
        match r.initial_prompt {
            Some(p) => opts.initial_prompt@.len() > 0 && p@ == opts.initial_prompt@,
            None => opts.initial_prompt@.len() == 0,
        },
        !r.translate,
        !r.print_anything,
        r.suppress_blank,
        r.suppress_non_speech,
{
    let threads: i32 = match opts.threads {
        Some(n) => n,
        None => match available {
            Some(n) => n as i32,
            None => 4,
        },
    };
    let beam_size = if opts.beam_size > 1 {
        Some(opts.beam_size)
    } else {
        None
    };
    let language = if opts.language.as_str().is_empty() || text::same_text(
        opts.language.as_str(),
        "auto",
    ) {
        None
    } else {
        Some(opts.language.clone())
    };
    let initial_prompt = if opts.initial_prompt.as_str().is_empty() {
        None
    } else {
        Some(opts.initial_prompt.clone())
    };
    WhisperPlan {
        threads,
        beam_size,
        language,
        initial_prompt,
        translate: false,
        print_anything: false,
        suppress_blank: true,
        suppress_non_speech: true,
    }
}

/// The first of the engine's special tokens.
pub const FIRST_SPECIAL_TOKEN: i32 = 50256;

/// Whether a token says how sure the engine is: not a special one, and not one
/// without a score.
pub fn scorable(token_id: i32, has_score: bool) -> (r: bool)
    ensures
        r == (token_id < FIRST_SPECIAL_TOKEN && has_score),
{
    token_id < FIRST_SPECIAL_TOKEN && has_score
}

/// Texts one after the other.
pub open spec fn run_together(parts: Seq<Seq<char>>) -> Seq<char>
    decreases parts.len(),
{
    if parts.len() == 0 {
        Seq::empty()
    } else {
        run_together(parts.drop_last()) + parts.last()
    }
}

/// The text of a transcription, from its segments.
pub fn join_segments(segments: &[String]) -> (r: String)
    ensures
        r@ == text::trimmed(Class::WhiteSpace, run_together(text::texts(segments@))),
{
    let ghost all = text::texts(segments@);
    let mut out: Vec<char> = Vec::new();
    assert(all.take(0) =~= Seq::empty());
    let mut i: usize = 0;
    while i < segments.len()
        invariant
            i <= segments@.len(),
            all == text::texts(segments@),
            out@ == run_together(all.take(i as int)),
        decreases segments@.len() - i,
    {
        assert(all.take(i + 1).drop_last() =~= all.take(i as int));
        assert(all.take(i + 1).last() == segments@[i as int]@);
        let cs = text::to_chars(segments[i].as_str());
        text::append(&mut out, cs.as_slice());
        i += 1;
    }
    assert(all.take(i as int) =~= all);
    text::to_text(text::trim(Class::WhiteSpace, out.as_slice()))
}

} // verus!
