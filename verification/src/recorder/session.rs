//! What a recorder is doing, and what it may do next.
use vstd::prelude::*;
use crate::settings::Settings;
use crate::streaming::StreamingConfig;
use crate::text;

verus! {

#[derive(Debug, Clone, Copy, PartialEq, Eq, Structural)]
pub enum RecordingState {
    Ready,
    Recording,
    Transcribing,
}

/// The style class of the overlay's microphone in a state.
pub open spec fn overlay_style(state: RecordingState) -> Seq<char> {
    match state {
        RecordingState::Ready => "mic"@,
        RecordingState::Recording => "mic recording"@,
        RecordingState::Transcribing => "mic transcribing"@,
    }
}

/// The style class of the overlay's microphone in a state.
pub fn overlay_class(state: RecordingState) -> (r: &'static str)
    ensures
        r@ == overlay_style(state),
{
    match state {
        RecordingState::Ready => "mic",
        RecordingState::Recording => "mic recording",
        RecordingState::Transcribing => "mic transcribing",
    }
}

/// The script that gives the overlay's microphone the class of a state.
pub fn overlay_script(state: RecordingState) -> (r: String)
    ensures
        r@ == "document.getElementById('mic').className = '"@ + overlay_style(state) + "';"@,
{
    let head = text::concat("document.getElementById('mic').className = '", overlay_class(state));
    text::concat(head.as_str(), "';")
}

/// A recorder that can be started while it is idle and stopped while it
/// records.
pub struct Session {
    state: RecordingState,
}

impl View for Session {
    type V = RecordingState;

    closed spec fn view(&self) -> RecordingState {
        self.state
    }
}

impl Session {
    pub fn new() -> (r: Self)
        ensures
            r@ == RecordingState::Ready,
    {
        Session { state: RecordingState::Ready }
    }

    pub fn get_state(&self) -> (r: RecordingState)
        ensures
            r == self@,
    {
        self.state
    }

    /// Whether a recording may start.
    pub fn may_start(&self) -> (r: Result<(), String>)
        ensures
            match r {
                Ok(()) => self@ == RecordingState::Ready,
                Err(e) => self@ != RecordingState::Ready && e@
                    == "Already recording or transcribing"@,
            },
    {
        match self.state {
            RecordingState::Ready => Ok(()),
            _ => Err("Already recording or transcribing".to_owned()),
        }
    }

    /// Starts a recording, given what came of starting the capture. Where that
    /// failed, or the recorder is busy, nothing changes.
    pub fn start(&mut self, capture: Result<(), String>) -> (r: Result<(), String>)
        ensures
            final(self)@ == next_state(old(self)@, Request::Start { captured: capture is Ok }),
            match r {
                Ok(()) => old(self)@ == RecordingState::Ready && capture is Ok,
                Err(e) => if old(self)@ == RecordingState::Ready {
                    capture == Err::<(), String>(e)
                } else {
                    e@ == "Already recording or transcribing"@
                },
            },
    {
        match self.state {
            RecordingState::Ready => {
                match capture {
                    Ok(()) => {
                        self.state = RecordingState::Recording;
                        Ok(())
                    },
                    Err(e) => Err(e),
                }
            },
            _ => Err("Already recording or transcribing".to_owned()),
        }
    }

    /// Ends the recording, so that it can be transcribed.
    pub fn stop(&mut self) -> (r: Result<(), String>)
        ensures
            final(self)@ == next_state(old(self)@, Request::Stop),
            match r {
                Ok(()) => old(self)@ == RecordingState::Recording,
                Err(e) => old(self)@ != RecordingState::Recording && e@
                    == "Not currently recording"@,
            },
    {
        match self.state {
            RecordingState::Recording => {
                self.state = RecordingState::Transcribing;
                Ok(())
            },
            _ => Err("Not currently recording".to_owned()),
        }
    }

    /// Makes the recorder ready again, once the text is where it belongs.
    pub fn finish(&mut self)
        ensures
            final(self)@ == next_state(old(self)@, Request::Finish),
    {
        self.state = RecordingState::Ready;
    }
}

/// How often partial transcriptions are made, in milliseconds.
pub const PARTIAL_INTERVAL_MS: u64 = 700;

/// Whether a recording is watched while it runs: for captions, or for silence.
pub open spec fn streams(s: Settings) -> bool {
    s.streaming_captions || s.vad_silence_ms > 0
}

/// What runs beside a recording with given settings and model file, if
/// anything does.
pub fn streaming_config(settings: &Settings, model_path: &str) -> (r: Option<StreamingConfig>)
    ensures
        match r {
            None => !streams(*settings),
            Some(c) => {
                &&& streams(*settings)
                &&& c.model_path@ == model_path@
                &&& c.initial_prompt@ == settings.initial_prompt@
                &&& c.language@ == settings.language@
                &&& c.partial_interval_ms == PARTIAL_INTERVAL_MS
                &&& c.silence_threshold_ms == settings.vad_silence_ms
                &&& c.emit_partials == settings.streaming_captions
            },
        },
{
    if !settings.streaming_captions && settings.vad_silence_ms == 0 {
        return None;
    }
    Some(
        StreamingConfig {
            model_path: model_path.to_owned(),
            initial_prompt: settings.initial_prompt.clone(),
            language: settings.language.clone(),
            partial_interval_ms: PARTIAL_INTERVAL_MS,
            silence_threshold_ms: settings.vad_silence_ms as u64,
            emit_partials: settings.streaming_captions,
        },
    )
}

/// What a session can be asked for.
pub enum Request {
    Start { captured: bool },
    Stop,
    Finish,
}

/// The state that a request leads to.
pub open spec fn next_state(s: RecordingState, q: Request) -> RecordingState {
    match q {
        Request::Start { captured } => if s == RecordingState::Ready && captured {
            RecordingState::Recording
        } else {
            s
        },
        Request::Stop => if s == RecordingState::Recording {
            RecordingState::Transcribing
        } else {
            s
        },
        Request::Finish => RecordingState::Ready,
    }
}

/// A recording starts only from rest, and is transcribed only once it was
/// made: each state but `Ready` has one way in.
pub proof fn law_states_follow_in_order(s: RecordingState, q: Request)
    ensures
        next_state(s, q) == RecordingState::Recording && s != RecordingState::Recording ==> s
            == RecordingState::Ready && q is Start,
        next_state(s, q) == RecordingState::Transcribing && s != RecordingState::Transcribing ==> s
            == RecordingState::Recording && q is Stop,
        s == RecordingState::Transcribing && next_state(s, q) != s ==> q is Finish,
{
}

} // verus!
