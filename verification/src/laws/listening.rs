//! Recording, silence, partial results, and the keys.
use vstd::prelude::*;
use crate::audio::capture;
use crate::audio::vad;
use crate::hotkeys;
use crate::hotkeys::{HotkeyRole, KeyChange, PushToTalk};
use crate::laws;
use crate::learning::focused_text;
use crate::recorder::session;
use crate::recorder::session::Request;
use crate::recorder::RecordingState;
use crate::streaming;
use crate::streaming::{Stream, Tick};
use crate::text;
use crate::text::Class;
use crate::transcribe::whisper;
use crate::transcribe_local;

verus! {

/// The silence at the end of a recording is that behind its last sound.
pub proof fn law_quiet_end(head: Seq<bool>, tail: Seq<bool>)
    requires
        head.len() > 0 ==> !head.last(),
        forall|i: int| 0 <= i < tail.len() ==> #[trigger] tail[i],
    ensures
        vad::quiet_tail(head + tail) == tail.len(),
    decreases tail.len(),
{
    if tail.len() == 0 {
        assert(head + tail =~= head);
    } else {
        let t = tail.drop_last();
        assert(tail[tail.len() - 1]);
        assert forall|i: int| 0 <= i < t.len() implies #[trigger] t[i] by {
            assert(tail[i]);
        }
        assert((head + tail).drop_last() =~= head + t);
        law_quiet_end(head, t);
    }
}

/// The recording ends by itself where that is on, something was said, and the
/// silence since is long enough. Else a partial result is made where those are
/// on.
pub proof fn law_tick(threshold: u64, partials: bool, spoken: bool, silence: u64)
    ensures
        ({
            let over = threshold > 0 && spoken && silence >= threshold;
            &&& over ==> streaming::tick(threshold, partials, spoken, silence) == Tick::AutoStop
            &&& !over && partials ==> streaming::tick(threshold, partials, spoken, silence)
                == Tick::Transcribe
            &&& !over && !partials ==> streaming::tick(threshold, partials, spoken, silence)
                == Tick::Wait
        }),
{
}

/// A partial result is shown where it is not blank and not what is shown
/// already, white space around it aside.
pub proof fn law_partial_is_shown(s: Stream, transcription: Seq<char>)
    ensures
        laws::text::all_of(Class::WhiteSpace, transcription) ==> !streaming::shows(
            s,
            transcription,
        ),
        !laws::text::all_of(Class::WhiteSpace, transcription) ==> streaming::shows(
            s,
            transcription,
        ) == (text::trimmed(Class::WhiteSpace, transcription) != s.shown),
{
    laws::text::law_blank(Class::WhiteSpace, transcription);
}

/// How long samples last, in whole milliseconds: a thousand times as long as
/// in seconds, rounded down.
pub proof fn law_length_of_samples(samples: int, rate: u32, channels: u16)
    requires
        samples >= 0,
        rate > 0,
        channels > 0,
    ensures
        ({
            let ms = streaming::buffered_ms(samples, rate, channels);
            let per_second = rate * channels;
            &&& ms * per_second <= samples * 1000
            &&& samples * 1000 < (ms + 1) * per_second
        }),
{
    let per_second = rate * channels;
    assert(per_second > 0) by (nonlinear_arith)
        requires
            per_second == rate * channels,
            rate > 0,
            channels > 0,
    ;
    let x = samples * 1000;
    let ms = x / per_second;
    assert(ms * per_second <= x && x < (ms + 1) * per_second) by (nonlinear_arith)
        requires
            per_second > 0,
            ms == x / per_second,
    ;
}

/// A recording holds ten minutes at most. What comes in is taken up to there,
/// and what is cut off is told.
pub proof fn law_recording_is_bounded(held: int, incoming: int, max: int, rate: u32, channels: u16)
    requires
        0 <= held,
        0 <= incoming,
        0 <= max,
    ensures
        capture::cap(rate, channels) == rate * channels * 600,
        held + incoming <= max && held < max ==> capture::admitted(held, incoming, max) == (
            incoming,
            false,
        ),
        held < max && held + incoming > max ==> capture::admitted(held, incoming, max) == (
            max - held,
            true,
        ),
        held >= max ==> capture::admitted(held, incoming, max) == (0int, true),
{
}

/// The microphone that is used is the first with the name.
pub proof fn law_first_named(devices: Seq<Option<String>>, name: Seq<char>, from: int)
    requires
        0 <= from,
    ensures
        match capture::first_named(devices, name, from) {
            Some(i) => from <= i < devices.len() && text::opt_text(devices[i]) == Some(name)
                && forall|j: int|
                from <= j < i ==> text::opt_text(#[trigger] devices[j]) != Some(name),
            None => forall|j: int|
                from <= j < devices.len() ==> text::opt_text(#[trigger] devices[j]) != Some(name),
        },
    decreases devices.len() - from,
{
    if from < devices.len() {
        law_first_named(devices, name, from + 1);
    }
}

/// A recording starts only from rest, stops only while it runs, and whatever
/// happened, the end of a dictation is rest again.
pub proof fn law_session(s: RecordingState)
    ensures
        session::next_state(RecordingState::Ready, Request::Start { captured: true })
            == RecordingState::Recording,
        session::next_state(s, Request::Start { captured: false }) == s,
        s != RecordingState::Ready ==> session::next_state(s, Request::Start { captured: true })
            == s,
        session::next_state(RecordingState::Recording, Request::Stop)
            == RecordingState::Transcribing,
        s != RecordingState::Recording ==> session::next_state(s, Request::Stop) == s,
        session::next_state(s, Request::Finish) == RecordingState::Ready,
{
}

/// Push to talk starts a recording when the key goes down at rest, and stops
/// it when the key comes up; nothing happens at other times, nor while keys are
/// chosen.
pub proof fn law_push_to_talk(pressed: bool, state: RecordingState)
    ensures
        hotkeys::push_to_talk(true, pressed, state) == PushToTalk::Ignore,
        hotkeys::push_to_talk(false, true, RecordingState::Ready) == PushToTalk::Start,
        hotkeys::push_to_talk(false, false, RecordingState::Recording) == PushToTalk::Stop,
        state != RecordingState::Ready ==> hotkeys::push_to_talk(false, true, state)
            == PushToTalk::Ignore,
        state != RecordingState::Recording ==> hotkeys::push_to_talk(false, false, state)
            == PushToTalk::Ignore,
{
}

/// A key that was known is registered again under its role, or taken away, and
/// one that was not known is left alone.
pub proof fn law_key_changes(role: HotkeyRole, key: Seq<char>)
    ensures
        hotkeys::restoring(role, Some(key)) == seq![KeyChange::Register(role, key)],
        hotkeys::restoring(role, None).len() == 0,
        hotkeys::removing(Some(key)) == seq![KeyChange::Unregister(key)],
        hotkeys::removing(None).len() == 0,
{
}

/// The selection that is fixed up has no white space around it, and a blank one
/// is none.
pub proof fn law_selection(s: Seq<char>)
    ensures
        hotkeys::selected(None) is None,
        laws::text::all_of(Class::WhiteSpace, s) ==> hotkeys::selected(Some(s)) is None,
        !laws::text::all_of(Class::WhiteSpace, s) ==> hotkeys::selected(Some(s)) == Some(
            text::trimmed(Class::WhiteSpace, s),
        ),
{
    laws::text::law_blank(Class::WhiteSpace, s);
}

/// A number of days goes back that many times a day's seconds; none goes back
/// to the beginning.
pub proof fn law_days_back(days: i64, now: i64)
    ensures
        days <= 0 ==> hotkeys::since(days, now) == 0,
        0 < days && days * 86_400 <= i64::MAX && now - days * 86_400 >= i64::MIN
            ==> hotkeys::since(days, now) == now - days * 86_400,
{
}

/// Segments are run together as they are, in order.
pub proof fn law_segments(a: Seq<Seq<char>>, b: Seq<Seq<char>>, s: Seq<char>)
    ensures
        whisper::run_together(Seq::empty()) == Seq::<char>::empty(),
        whisper::run_together(seq![s]) == s,
        whisper::run_together(a + b) == whisper::run_together(a) + whisper::run_together(b),
    decreases b.len(),
{
    assert(seq![s].drop_last() =~= Seq::empty());
    assert(whisper::run_together(Seq::empty()) =~= Seq::empty());
    assert(whisper::run_together(seq![s]) =~= Seq::empty() + s);
    if b.len() == 0 {
        assert(a + b =~= a);
        assert(whisper::run_together(a) + whisper::run_together(b) =~= whisper::run_together(a));
    } else {
        law_segments(a, b.drop_last(), s);
        assert((a + b).drop_last() =~= a + b.drop_last());
        let x = whisper::run_together(a);
        let y = whisper::run_together(b.drop_last());
        assert(x + y + b.last() =~= x + (y + b.last()));
    }
}

/// What the sidecar wrote is the transcript, without the white space around
/// it, whatever its exit code; where it wrote nothing, that is an error.
pub proof fn law_sidecar(out: Seq<char>, err: Seq<char>, code: Option<i32>)
    ensures
        !laws::text::all_of(Class::WhiteSpace, out) ==> transcribe_local::outcome(out, err, code)
            == Ok::<Seq<char>, Seq<char>>(text::trimmed(Class::WhiteSpace, out)),
        laws::text::all_of(Class::WhiteSpace, out) ==> transcribe_local::outcome(
            out,
            err,
            code,
        ) is Err,
{
    laws::text::law_blank(Class::WhiteSpace, out);
}

/// The text of a field is the first answer that is not blank.
pub proof fn law_first_answer(answers: Seq<Option<String>>, from: int)
    requires
        0 <= from,
    ensures
        match focused_text::first_telling(answers, from) {
            Some(i) => from <= i < answers.len() && answers[i] is Some && !laws::text::all_of(
                Class::WhiteSpace,
                answers[i]->0@,
            ) && forall|j: int|
                from <= j < i ==> #[trigger] answers[j] is None || laws::text::all_of(
                    Class::WhiteSpace,
                    answers[j]->0@,
                ),
            None => forall|j: int|
                from <= j < answers.len() ==> #[trigger] answers[j] is None || laws::text::all_of(
                    Class::WhiteSpace,
                    answers[j]->0@,
                ),
        },
    decreases answers.len() - from,
{
    if from < answers.len() {
        law_first_answer(answers, from + 1);
        if let Some(s) = answers[from] {
            laws::text::law_blank(Class::WhiteSpace, s@);
        }
    }
}

} // verus!
