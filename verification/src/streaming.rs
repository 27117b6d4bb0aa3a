//! What runs beside a recording: partial transcriptions for the captions, and
//! the end of the recording after a silence.
//!
//! On each tick the buffer is looked at; the decisions between the looks are
//! made here.
use vstd::prelude::*;
use crate::text;
use crate::text::Class;

verus! {

/// How one recording is watched.
#[derive(Debug, Clone)]
pub struct StreamingConfig {
    /// The model file.
    pub model_path: String,
    pub initial_prompt: String,
    pub language: String,
    /// The time between two ticks.
    pub partial_interval_ms: u64,
    /// The silence that ends the recording; 0 turns that off.
    pub silence_threshold_ms: u64,
    /// Partial transcriptions are made, not only silence looked for.
    pub emit_partials: bool,
}

/// A partial transcription.
#[derive(Debug, Clone)]
pub struct PartialPayload {
    pub text: String,
    pub elapsed_ms: u64,
}

/// The length of a buffer of interleaved samples, in milliseconds. A rate or a
/// number of channels that is zero counts as one sample a second.
pub open spec fn buffered_ms(samples: int, sample_rate: u32, channels: u16) -> int {
    let per_second = sample_rate * channels;
    samples * 1000 / (if per_second > 0 {
        per_second
    } else {
        1
    })
}

/// What the watch over a recording remembers.
#[verifier::ext_equal]
pub struct Stream {
    /// How long the buffer was when it was last looked at.
    pub buffer_ms: int,
    /// The text that was last shown.
    pub shown: Seq<char>,
}

/// What to do with a buffer once it was made ready for the recogniser.
#[derive(Debug, Clone, Copy, PartialEq, Eq, Structural)]
pub enum Tick {
    /// The speaker has fallen silent: end the recording.
    AutoStop,
    /// Look again on the next tick.
    Wait,
    /// Transcribe what there is so far.
    Transcribe,
}

/// What to do, given whether anything was said and how long it has been quiet.
pub open spec fn tick(
    silence_threshold_ms: u64,
    emit_partials: bool,
    has_speech: bool,
    trailing_ms: u64,
) -> Tick {
    if silence_threshold_ms > 0 && has_speech && trailing_ms >= silence_threshold_ms {
        Tick::AutoStop
    } else if emit_partials {
        Tick::Transcribe
    } else {
        Tick::Wait
    }
}

/// Whether a transcription is shown: it says something, and something new.
pub open spec fn shows(s: Stream, transcription: Seq<char>) -> bool {
    let t = text::trimmed(Class::WhiteSpace, transcription);
    t.len() > 0 && t != s.shown
}

/// The watch over one recording.
pub struct StreamState {
    buffer_ms: u64,
    shown: String,
}

impl View for StreamState {
    type V = Stream;

    closed spec fn view(&self) -> Stream {
        Stream { buffer_ms: self.buffer_ms as int, shown: self.shown@ }
    }
}

impl StreamState {
    pub fn new() -> (r: Self)
        ensures
            r@ == (Stream { buffer_ms: 0, shown: Seq::empty() }),
    {
        StreamState { buffer_ms: 0, shown: String::new() }
    }

    /// Looks at the buffer. It is worth more than a look only if its length in
    /// milliseconds is another than last time.
    pub fn grown(&mut self, samples: usize, sample_rate: u32, channels: u16) -> (r: bool)
        requires
            samples * 1000 <= u64::MAX,
        ensures
            r == (old(self)@.buffer_ms != buffered_ms(samples as int, sample_rate, channels)),
            final(self)@ == (Stream {
                buffer_ms: buffered_ms(samples as int, sample_rate, channels),
                ..old(self)@
            }),
    {
        let now: u64 = elapsed_ms(samples, sample_rate, channels);
        if now == self.buffer_ms {
            return false;
        }
        self.buffer_ms = now;
        true
    }

    /// Takes in a transcription of what was said so far, and gives back what
    /// is to be shown of it.
    pub fn partial(&mut self, transcription: &str, elapsed_ms: u64) -> (r: Option<PartialPayload>)
        ensures
            match r {
                None => !shows(old(self)@, transcription@) && final(self)@ == old(self)@,
                Some(p) => {
                    &&& shows(old(self)@, transcription@)
                    &&& p.text@ == text::trimmed(Class::WhiteSpace, transcription@)
                    &&& p.elapsed_ms == elapsed_ms
                    &&& final(self)@ == (Stream { shown: p.text@, ..old(self)@ })
                },
            },
    {
        let cs = text::to_chars(transcription);
        let t = text::to_text(text::trim(Class::WhiteSpace, cs.as_slice()));
        if t.as_str().is_empty() || t == self.shown {
            return None;
        }
        self.shown = t.clone();
        Some(PartialPayload { text: t, elapsed_ms })
    }
}

/// The length of a buffer of interleaved samples, in milliseconds.
pub fn elapsed_ms(samples: usize, sample_rate: u32, channels: u16) -> (r: u64)
    requires
        samples * 1000 <= u64::MAX,
    ensures
        r == buffered_ms(samples as int, sample_rate, channels),
{
    assert(sample_rate * channels <= 0xffff_ffff * 0xffff) by (nonlinear_arith)
        requires
            sample_rate <= 0xffff_ffff,
            channels <= 0xffff,
    ;
    let per_second: u64 = sample_rate as u64 * channels as u64;
    let divisor: u64 = if per_second > 0 {
        per_second
    } else {
        1
    };
    (samples as u64 * 1000) / divisor
}

impl StreamingConfig {
    /// What to do with a buffer, given whether anything was said in it and how
    /// long it has been quiet at its end.
    pub fn tick(&self, has_speech: bool, trailing_ms: u64) -> (r: Tick)
        ensures
            r == tick(self.silence_threshold_ms, self.emit_partials, has_speech, trailing_ms),
    {
        if self.silence_threshold_ms > 0 && has_speech && trailing_ms
            >= self.silence_threshold_ms {
            Tick::AutoStop
        } else if self.emit_partials {
            Tick::Transcribe
        } else {
            Tick::Wait
        }
    }
}

/// A recording in which nothing was said is never ended by its silence, and
/// none is where that is turned off.
pub proof fn law_silence_alone_does_not_stop(
    silence_threshold_ms: u64,
    emit_partials: bool,
    has_speech: bool,
    trailing_ms: u64,
)
    requires
        !has_speech || silence_threshold_ms == 0,
    ensures
        tick(silence_threshold_ms, emit_partials, has_speech, trailing_ms) != Tick::AutoStop,
{
}

} // verus!
