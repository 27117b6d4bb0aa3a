//! The optional pass over a text by a language model.
//!
//! The pass must never cost the user their text: whatever goes wrong, the text
//! stays as it was.
use vstd::prelude::*;
use crate::text;
use crate::text::Class;

verus! {

/// What the model is told to do.
pub const SYSTEM_PROMPT: &'static str = "Fix only punctuation, capitalization, and obvious dictation errors. Do not rephrase. Preserve all proper nouns and code-like tokens exactly. Return only the corrected text with no quoting or commentary.";

/// The longest answer, in tokens.
pub const MAX_TOKENS: u32 = 512;

/// Where the pass runs.
#[derive(Debug, Clone, Copy, PartialEq, Eq, Structural)]
pub enum CleanupBackend {
    Off,
    Groq,
}

impl CleanupBackend {
    /// The backend with a given name; `Off` for a name that is none.
    pub fn from_str(s: &str) -> (r: Self)
        ensures
            r == (if s@ == "groq"@ {
                CleanupBackend::Groq
            } else {
                CleanupBackend::Off
            }),
    {
        if text::same_text(s, "groq") {
            CleanupBackend::Groq
        } else {
            CleanupBackend::Off
        }
    }
}

/// The choice between a quick answer and a good one.
#[derive(Debug, Clone, Copy, PartialEq, Eq, Structural)]
pub enum CleanupModel {
    Fast,
    Quality,
}

impl CleanupModel {
    /// The choice with a given name; `Quality` for a name that is none.
    pub fn from_str(s: &str) -> (r: Self)
        ensures
            r == (if s@ == "fast"@ {
                CleanupModel::Fast
            } else {
                CleanupModel::Quality
            }),
    {
        if text::same_text(s, "fast") {
            CleanupModel::Fast
        } else {
            CleanupModel::Quality
        }
    }

    /// The service's name for the model.
    pub fn groq_model_id(self) -> (r: &'static str)
        ensures
            r@ == model_id(self),
    {
        match self {
            CleanupModel::Fast => "llama-3.1-8b-instant",
            CleanupModel::Quality => "llama-3.3-70b-versatile",
        }
    }
}

/// The service's name for a model.
pub open spec fn model_id(m: CleanupModel) -> Seq<char> {
    match m {
        CleanupModel::Fast => "llama-3.1-8b-instant"@,
        CleanupModel::Quality => "llama-3.3-70b-versatile"@,
    }
}

/// What is sent to the service.
#[derive(Debug, Clone)]
pub struct Question {
    pub model: String,
    pub system: String,
    pub user: String,
    pub temperature: u32,
    pub max_tokens: u32,
}

/// Whether the service is asked at all: the pass is on, there is a text, and
/// there is a key.
pub open spec fn asks(backend: CleanupBackend, api_key: Seq<char>, s: Seq<char>) -> bool {
    &&& text::trimmed(Class::WhiteSpace, s).len() > 0
    &&& backend == CleanupBackend::Groq
    &&& api_key.len() > 0
}

/// What is sent to the service, if it is asked.
pub fn question(backend: CleanupBackend, api_key: &str, text: &str, model: CleanupModel) -> (r:
    Option<Question>)
    ensures
        match r {
            None => !asks(backend, api_key@, text@),
            Some(q) => {
                &&& asks(backend, api_key@, text@)
                &&& q.model@ == model_id(model)
                &&& q.system@ == SYSTEM_PROMPT@
                &&& q.user@ == text@
                &&& q.temperature == 0
                &&& q.max_tokens == MAX_TOKENS
            },
        },
{
    let cs = text::to_chars(text);
    let bare = text::trim(Class::WhiteSpace, cs.as_slice());
    if bare.len() == 0 || backend != CleanupBackend::Groq || api_key.is_empty() {
        return None;
    }
    Some(
        Question {
            model: model.groq_model_id().to_owned(),
            system: SYSTEM_PROMPT.to_owned(),
            user: text.to_owned(),
            temperature: 0,
            max_tokens: MAX_TOKENS,
        },
    )
}

/// What came of asking.
pub enum Reply {
    /// The service answered with this.
    Content(String),
    /// It could not be asked, or its answer could not be read.
    Failed,
    /// It did not answer in time.
    TimedOut,
}

/// The text at `list`, `index`, `object` and `field` of a JSON text; none where
/// there is none.
pub uninterp spec fn json_text(
    body: Seq<char>,
    list: Seq<char>,
    index: int,
    object: Seq<char>,
    field: Seq<char>,
) -> Option<Seq<char>>;

/// `serde_json::from_str` into a `Value`, and its index operator and `as_str`:
/// the text that is found one step after the other, named [`json_text`], and
/// nothing where the body is not JSON, a step leads nowhere, or what is found
/// is no text.
#[verifier::external_body]
fn text_at(body: &str, list: &str, index: usize, object: &str, field: &str) -> (r: Option<String>)
    ensures
        text::opt_text(r) == json_text(body@, list@, index as int, object@, field@),
{
    let json: serde_json::Value = serde_json::from_str(body).ok()?;
    let found = json[list][index][object][field].as_str()?;
    Some(found.to_string())
}

/// The answer in the body of a response: the content of its first choice.
pub open spec fn answer_in(body: Seq<char>) -> Option<Seq<char>> {
    json_text(body, "choices"@, 0, "message"@, "content"@)
}

/// What came of asking, given the body of the response.
pub fn reply_from_body(body: &str) -> (r: Reply)
    ensures
        match r {
            Reply::Content(c) => answer_in(body@) == Some(c@),
            Reply::Failed => answer_in(body@) is None,
            Reply::TimedOut => false,
        },
{
    match text_at(body, "choices", 0, "message", "content") {
        Some(c) => Reply::Content(c),
        None => Reply::Failed,
    }
}

/// The text after the pass, given what came of asking: the answer, trimmed,
/// where the service was asked and gave one; else the text as it was.
pub open spec fn cleaned_up(
    backend: CleanupBackend,
    api_key: Seq<char>,
    s: Seq<char>,
    reply: Reply,
) -> Seq<char> {
    match reply {
        Reply::Content(c) if asks(backend, api_key, s) => text::trimmed(Class::WhiteSpace, c@),
        _ => s,
    }
}

/// The text after the pass, given what came of asking.
pub fn cleanup(backend: CleanupBackend, api_key: &str, text: &str, reply: &Reply) -> (r: String)
    ensures
        r@ == cleaned_up(backend, api_key@, text@, *reply),
{
    let cs = text::to_chars(text);
    let bare = text::trim(Class::WhiteSpace, cs.as_slice());
    if bare.len() > 0 && backend == CleanupBackend::Groq && !api_key.is_empty() {
        if let Reply::Content(c) = reply {
            let answer = text::to_chars(c.as_str());
            return text::to_text(text::trim(Class::WhiteSpace, answer.as_slice()));
        }
    }
    text.to_owned()
}

/// Unless the service answered, the text is the one that went in.
pub proof fn law_failure_keeps_the_text(
    backend: CleanupBackend,
    api_key: Seq<char>,
    s: Seq<char>,
    reply: Reply,
)
    requires
        !(reply is Content) || backend == CleanupBackend::Off || api_key.len() == 0,
    ensures
        cleaned_up(backend, api_key, s, reply) == s,
{
}

} // verus!
