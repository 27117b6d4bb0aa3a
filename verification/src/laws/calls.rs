//! What the functions give back, said of the calls themselves.
//!
//! Where a law of another module speaks of what a text becomes, a law here says
//! that the function gives back just that.
use vstd::prelude::*;
use crate::audio::capture;
use crate::audio::capture::{CaptureState, Capturing, DeviceChoice, MicDevice, Resampling};
use crate::audio::vad;
use crate::chars;
use crate::cleanup::postprocess;
use crate::cleanup::postprocess::{CodeCase, Mode};
use crate::cleanup::scrub;
use crate::clipboard;
use crate::clipboard::{Clipboard, Poll, Restore};
use crate::commands;
use crate::commands::{CommandResult, Snippet};
use crate::context;
use crate::context::AppContext;
use crate::db;
use crate::db::corrections;
use crate::db::corrections::CorrectionWrite;
use crate::db::migrate;
use crate::db::profiles;
use crate::db::snippets;
use crate::db::snippets::SnippetWrite;
use crate::db::transcriptions;
use crate::db::{
    AppProfileRow, CorrectionRow, DayCounts, NewTranscription, RecentTranscription, SnippetRow,
};
use crate::hotkeys;
use crate::hotkeys::{
    FixupStart, HotkeyChange, HotkeyRole, KeyChange, PushToTalk, Registered, RegisteredHotkeys,
    ToggleStep,
};
use crate::laws;
use crate::learning::diff;
use crate::learning::diff::CorrectionPair;
use crate::learning::focused_text;
use crate::learning::focused_text::FocusedText;
use crate::learning::tally;
use crate::learning::tally::Written;
use crate::llm_cleanup;
use crate::llm_cleanup::{CleanupBackend, CleanupModel, Question, Reply};
use crate::recorder::autolearn;
use crate::recorder::autolearn::AutoLearnApplied;
use crate::recorder::pipeline;
use crate::recorder::pipeline::{
    Delivery, Ending, Engine, Keeping, Listening, Rewritten, Shaping, TemplateVar,
};
use crate::recorder::prompt;
use crate::recorder::replacements;
use crate::recorder::session;
use crate::recorder::session::Session;
use crate::recorder::watcher;
use crate::recorder::watcher::{CaptureStep, FocusStep, Glance, Watch, Watcher};
use crate::recorder::RecordingState;
use crate::settings;
use crate::settings::Settings;
use crate::streaming;
use crate::streaming::{PartialPayload, Stream, StreamState, StreamingConfig};
use crate::text;
use crate::text::Class;
use crate::transcribe;
use crate::transcribe::parakeet;
use crate::transcribe::whisper;
use crate::transcribe::whisper::WhisperPlan;
use crate::transcribe::{Loading, TranscribeOptions};
use crate::transcribe_local;

verus! {

/// A transcript without snippets gives the draft of its walk.
pub proof fn law_voice_commands(input: &str, r: CommandResult)
    requires
        call_ensures(commands::apply_voice_commands, (input,), r),
    ensures
        exists|expansions: Seq<Seq<char>>|
            {
                &&& expansions.len() == commands::steps(input@, Seq::empty()).len()
                &&& #[trigger] commands::result_of(
                    commands::walked(
                        text::words(input@),
                        commands::steps(input@, Seq::empty()),
                        expansions,
                    ),
                    r,
                )
            },
{
    let all = commands::steps(input@, Seq::empty());
    let none = commands::no_expansions(all);
    assert(commands::result_of(commands::walked(text::words(input@), all, none), r));
}

/// A transcript gives the draft of its walk, with each snippet as it expands.
pub proof fn law_voice_commands_with_snippets<F: Fn(&str) -> Option<String>>(
    input: &str,
    snippets: &[Snippet],
    resolve: &F,
    r: CommandResult,
)
    requires
        forall|k: &str| call_requires(*resolve, (k,)),
        call_ensures(
            commands::apply_voice_commands_with_snippets::<F>,
            (input, snippets, resolve),
            r,
        ),
    ensures
        exists|expansions: Seq<Seq<char>>| #[trigger]
            commands::expanded(
                *resolve,
                snippets@,
                commands::steps(input@, snippets@),
                expansions,
            ) && commands::result_of(
                commands::walked(
                    text::words(input@),
                    commands::steps(input@, snippets@),
                    expansions,
                ),
                r,
            ),
{
}

/// The camel-case identifier of ASCII text has its letters and digits one for
/// one, and a capital at the start of each word but the first.
pub proof fn law_camel_identifier(s: &str, r: String)
    requires
        call_ensures(postprocess::apply, (s, Mode::Code, true, CodeCase::Camel), r),
        chars::all_ascii(s@),
    ensures
        laws::identifiers::camel_of(r@, s@),
{
    laws::identifiers::law_camel_of_ascii(s@);
}

/// A mode gives what it makes of the text.
pub proof fn law_output_mode(s: &str, mode: Mode, active: bool, case: CodeCase, r: String)
    requires
        call_ensures(postprocess::apply, (s, mode, active, case), r),
    ensures
        mode == Mode::Default || mode == Mode::Markdown ==> r@ == s@,
        mode == Mode::Code && !active ==> r@ == s@,
        mode == Mode::Code && active ==> r@ == laws::identifiers::code(s@, case),
        mode == Mode::Plain ==> r@ == laws::markup::plain(s@),
{
}

/// Modes and cases are found by their names.
pub proof fn law_names_of_modes(s: &str, mode: Mode, case: CodeCase)
    requires
        call_ensures(Mode::from_str, (s,), mode),
        call_ensures(CodeCase::from_str, (s,), case),
    ensures
        mode == postprocess::mode_named(s@),
        case == postprocess::case_named(s@),
{
}

/// A line that ends in a phrase heard in silence loses it, and the white space
/// before it, however long it is.
pub proof fn law_scrubbed_line(
    s: &str,
    kept: Seq<char>,
    gap: Seq<char>,
    phrase: Seq<char>,
    tail: Seq<char>,
    r: String,
)
    requires
        call_ensures(scrub::scrub_hallucinations, (s,), r),
        s@ == kept + gap + phrase + tail,
        !s@.contains('\n'),
        kept.len() > 0,
        !chars::white_space(kept.last()),
        !laws::silence::is_phrase(text::trimmed(Class::WhiteSpace, s@)),
        laws::text::all_of(Class::WhiteSpace, gap),
        laws::text::all_of(Class::WhiteSpace, tail),
        laws::silence::is_phrase(phrase),
        forall|i: int, j: int|
            0 <= i < kept.len() + gap.len() && #[trigger] laws::silence::phrase_at(
                kept + gap + phrase,
                i,
                j,
            ) ==> j <= kept.len() + gap.len(),
    ensures
        r@ == kept,
{
    laws::silence::law_last_phrase_goes(kept, gap, phrase, tail);
    laws::silence::law_one_line(s@);
    let (h, t) = laws::text::lemma_trimmed_apart(Class::WhiteSpace, s@);
    laws::silence::law_lines_that_go(h, text::trimmed(Class::WhiteSpace, s@), t);
    laws::text::law_trimmed_end(Class::Blank, kept, Seq::empty());
    assert(kept + Seq::<char>::empty() =~= kept);
}

/// Scrubbing and collapsing give what the text becomes.
pub proof fn law_cleanup_calls(s: &str, scrubbed: String, collapsed: String)
    requires
        call_ensures(scrub::scrub_hallucinations, (s,), scrubbed),
        call_ensures(scrub::collapse_repeats, (s,), collapsed),
    ensures
        scrubbed@ == scrub::scrubbed(s@),
        collapsed@ == scrub::collapsed(s@),
{
}

/// Corrections go into a text in their order, and a word is replaced wherever
/// it is found.
pub proof fn law_correction_calls(
    s: &str,
    rows: &[CorrectionRow],
    needle: &str,
    replacement: &str,
    corrected: String,
    replaced: String,
)
    requires
        call_ensures(replacements::apply_replacements, (s, rows), corrected),
        call_ensures(
            replacements::case_insensitive_word_replace,
            (s, needle, replacement),
            replaced,
        ),
    ensures
        corrected@ == replacements::corrected(s@, rows@),
        replaced@ == replacements::words_replaced(s@, needle@, replacement@),
{
}

/// The pairs that are learned of two texts.
pub proof fn law_pairs_call(
    cleaned: &str,
    final_text: &str,
    n: usize,
    r: Vec<CorrectionPair>,
)
    requires
        diff::tokens(cleaned@).len() + diff::tokens(final_text@).len() <= u32::MAX,
        call_ensures(diff::pairs_from_diff, (cleaned, final_text, n), r),
    ensures
        diff::pair_texts(r@) == diff::diff_pairs(cleaned@, final_text@, n as int),
{
}

/// What a user wrote is taken for a name by its letters, white space around it
/// aside.
pub proof fn law_names_call(p: &CorrectionPair, r: bool)
    requires
        call_ensures(CorrectionPair::is_proper_noun_candidate, (p,), r),
    ensures
        r == diff::name_shaped(text::trimmed(Class::WhiteSpace, p.right@)),
{
}

/// A pair is written where it has a side, and counts where it was written.
pub proof fn law_tally_calls(p: &CorrectionPair, count: i64, applied: u32, worth: bool, r: Written)
    requires
        applied < u32::MAX,
        call_ensures(tally::worth_writing, (p,), worth),
        call_ensures(tally::record, (p, count, applied), r),
    ensures
        worth == (p.wrong@.len() > 0 || p.right@.len() > 0),
        count > 0 ==> r.applied == applied + 1 && r.promote == diff::name_shaped(
            text::trimmed(Class::WhiteSpace, p.right@),
        ),
        count <= 0 ==> r.applied == applied && !r.promote,
{
}

/// The calls by which edits are recognised and learned.
pub proof fn law_watching_calls(
    a: &str,
    b: &str,
    x: Option<&str>,
    y: Option<&str>,
    normal: String,
    matching: bool,
    anchored: bool,
    found: Option<String>,
    learned: Option<(String, Vec<CorrectionPair>)>,
)
    requires
        call_ensures(autolearn::normalize_for_match, (a,), normal),
        call_ensures(autolearn::window_titles_match, (x, y), matching),
        call_ensures(autolearn::has_shared_anchor, (a, b), anchored),
        call_ensures(autolearn::candidate_edited_text, (a, b), found),
        call_ensures(autolearn::auto_learn_pairs, (a, b), learned),
    ensures
        normal@ == autolearn::normal_form(a@),
        matching == autolearn::titles_match(text::opt_str(x), text::opt_str(y)),
        anchored == autolearn::shares_anchor(a@, b@),
        text::opt_text(found) == autolearn::edited(a@, b@),
        match learned {
            Some((t, pairs)) => autolearn::learnable(a@, b@) == Some(
                (t@, diff::pair_texts(pairs@)),
            ),
            None => autolearn::learnable(a@, b@) is None,
        },
{
}

/// The best of the scores, and whether pairs are believed.
pub proof fn law_scoring_calls(
    scores: &Vec<Option<u32>>,
    pairs: &Vec<CorrectionPair>,
    s: &str,
    best: Option<usize>,
    believed: bool,
)
    requires
        call_ensures(autolearn::best_score, (scores,), best),
        call_ensures(autolearn::plausible_pairs, (pairs, s), believed),
    ensures
        match best {
            Some(i) => autolearn::last_best(scores@) == Some(i as int),
            None => autolearn::last_best(scores@) is None,
        },
        believed == autolearn::plausible(diff::pair_texts(pairs@), s@),
{
}

/// The user is told how many corrections were learned, and shown one of them;
/// nothing is told where none was.
pub proof fn law_toast(
    pairs: &Vec<CorrectionPair>,
    applied: u32,
    app: &str,
    r: Option<AutoLearnApplied>,
)
    requires
        call_ensures(autolearn::auto_learn_toast, (pairs, applied, app), r),
    ensures
        r is None <==> applied == 0 || pairs@.len() == 0,
        r matches Some(t) ==> t.count == applied && t.app@ == app@ && t.sample_wrong@
            == diff::pair_texts(pairs@)[autolearn::sample(diff::pair_texts(pairs@))].wrong
            && t.sample_right@ == diff::pair_texts(pairs@)[autolearn::sample(
            diff::pair_texts(pairs@),
        )].right,
{
}

/// The length of a recording in milliseconds: sixteen samples each.
pub proof fn law_clip_length(samples: usize, r: i64)
    requires
        samples * 1000 <= i64::MAX,
        call_ensures(pipeline::clip_duration_ms, (samples,), r),
    ensures
        r == samples / 16,
{
}

/// What a profile and the settings come to.
pub proof fn law_profile_calls(
    profile: &Option<AppProfileRow>,
    model: &str,
    disabled: bool,
    chosen: String,
    applies: bool,
    modes: (Mode, CodeCase),
)
    requires
        call_ensures(pipeline::app_disabled, (profile,), disabled),
        call_ensures(pipeline::effective_model, (profile, model), chosen),
        call_ensures(pipeline::applies_replacements, (profile,), applies),
        call_ensures(pipeline::output_modes, (profile,), modes),
    ensures
        disabled == (*profile is Some && !profile->0.enabled),
        chosen@ == pipeline::model_for(*profile, model@),
        applies == !(laws::dictation::counts(*profile) && !profile->0.auto_apply_replacements),
        modes.0 == pipeline::mode_of(*profile),
        modes.1 == pipeline::case_of(*profile),
{
}

/// The prompts that the calls give.
pub proof fn law_prompt_calls(
    template: Option<&str>,
    own: &str,
    extras: &[String],
    budget: usize,
    merged: String,
    joined: String,
)
    requires
        call_ensures(prompt::merge_prompt, (template, own), merged),
        call_ensures(prompt::budgeted_join, (own, extras, budget), joined),
    ensures
        merged@ == prompt::merged(text::opt_str(template), own@),
        ({
            let bare = text::trimmed(Class::WhiteSpace, own@);
            joined@ == prompt::prompt_with(
                bare,
                prompt::added(bare, text::texts(extras@), budget as int).terms,
            )
        }),
{
}

/// The prompt of a dictation.
pub proof fn law_dictation_prompt(
    profile: &Option<AppProfileRow>,
    own: &str,
    app_terms: &[String],
    common: &[String],
    corrections: &[String],
    r: String,
)
    requires
        call_ensures(
            pipeline::dictation_prompt,
            (profile, own, app_terms, common, corrections),
            r,
        ),
    ensures
        r@ == pipeline::prompt_for(
            *profile,
            own@,
            text::texts(app_terms@) + text::texts(common@) + text::non_blank(
                text::texts(corrections@),
            ),
        ),
{
}

/// An engine goes by its name.
pub proof fn law_engine_names(name: &str, r: Result<Engine, String>)
    requires
        call_ensures(Engine::from_name, (name,), r),
    ensures
        name@ == "local"@ ==> r == Ok::<Engine, String>(Engine::Local),
        name@ == "cloud"@ ==> r == Ok::<Engine, String>(Engine::Cloud),
        name@ != "local"@ && name@ != "cloud"@ ==> (r matches Err(e) && e@ == "Unknown engine: "@
            + name@),
{
    reveal_strlit("local");
    reveal_strlit("cloud");
    assert("local"@[0] != "cloud"@[0]);
}

/// The label under which a transcription is stored.
pub proof fn law_model_label(model: &str, local: String, cloud: String)
    requires
        call_ensures(Engine::model_label, (Engine::Local, model), local),
        call_ensures(Engine::model_label, (Engine::Cloud, model), cloud),
    ensures
        local@ == model@,
        cloud@ == "groq-whisper-large-v3-turbo"@,
{
}

/// The selection is asked for where any snippet needs it, wherever it stands in
/// the list.
pub proof fn law_selection_call(all: &[Snippet], i: int, r: bool)
    requires
        call_ensures(pipeline::needs_selection, (all,), r),
    ensures
        0 <= i < all@.len() && pipeline::asks_for_selection(all@[i]) ==> r,
        (forall|j: int| 0 <= j < all@.len() ==> !pipeline::asks_for_selection(#[trigger] all@[j]))
            ==> !r,
{
    assert(r == pipeline::any_asks_for_selection(all@));
}

/// A transcript is rewritten as a whole.
pub proof fn law_rewrite_call<F: Fn(&str) -> Option<String>>(
    cleaned: &str,
    rows: &[CorrectionRow],
    all: &[Snippet],
    resolve: &F,
    mode: Mode,
    case: CodeCase,
    r: Rewritten,
)
    requires
        forall|k: &str| call_requires(*resolve, (k,)),
        call_ensures(pipeline::rewrite::<F>, (cleaned, rows, all, resolve, mode, case), r),
    ensures
        pipeline::rewritten(*resolve, cleaned@, rows@, all@, mode, case, r),
{
}

/// A text goes where it was asked to go, and nowhere where there is none.
pub proof fn law_delivery(s: &str, clipboard_only: bool, r: Delivery)
    requires
        call_ensures(pipeline::delivery, (s, clipboard_only), r),
    ensures
        s@.len() == 0 ==> r == Delivery::Nothing,
        s@.len() > 0 && clipboard_only ==> r == Delivery::Clipboard,
        s@.len() > 0 && !clipboard_only ==> r == Delivery::Paste,
{
}

/// A text is stored, or its recording removed, or nothing is done.
pub proof fn law_keeping(set: &Settings, s: &str, disabled: bool, clip: bool, r: Keeping)
    requires
        call_ensures(pipeline::keeping, (set, s, disabled, clip), r),
    ensures
        ({
            let stored = set.save_transcriptions && s@.len() > 0 && !disabled;
            &&& stored ==> r == Keeping::Store
            &&& !stored && clip ==> r == Keeping::DropClip
            &&& !stored && !clip ==> r == Keeping::Nothing
        }),
{
}

/// The end of a dictation: where the text goes, whether it is kept, and that
/// edits are watched where it is pasted and kept.
pub proof fn law_ending(
    set: &Settings,
    profile: &Option<AppProfileRow>,
    s: &str,
    clipboard_only: bool,
    clip: bool,
    r: Ending,
    watches: bool,
)
    requires
        call_ensures(pipeline::ending, (set, profile, s, clipboard_only, clip), r),
        call_ensures(pipeline::watches_edits, (clip, clipboard_only), watches),
    ensures
        ({
            let off = *profile is Some && !profile->0.enabled;
            let stored = set.save_transcriptions && s@.len() > 0 && !off;
            &&& s@.len() == 0 ==> r.delivery == Delivery::Nothing
            &&& s@.len() > 0 && clipboard_only ==> r.delivery == Delivery::Clipboard
            &&& s@.len() > 0 && !clipboard_only ==> r.delivery == Delivery::Paste
            &&& stored ==> r.keeping == Keeping::Store
            &&& !stored && clip ==> r.keeping == Keeping::DropClip
            &&& !stored && !clip ==> r.keeping == Keeping::Nothing
            &&& r.watch == (stored && !clipboard_only)
        }),
        watches == (clip && !clipboard_only),
{
}

/// What shapes a text: the app whose corrections go in, and the output mode.
pub proof fn law_shaping(
    app: &Option<AppContext>,
    profile: &Option<AppProfileRow>,
    cleaned: &str,
    r: Shaping,
)
    requires
        call_ensures(pipeline::shaping, (app, profile, cleaned), r),
    ensures
        text::opt_text(r.corrections_of) == pipeline::corrections_of(*app, *profile, cleaned@),
        r.mode == pipeline::mode_of(*profile),
        r.case == pipeline::case_of(*profile),
{
}

/// A recording is kept in a directory of its own, under the time at which it
/// was made.
pub proof fn law_clip_path(dir: &str, separator: char, ms: u64, r: String)
    requires
        call_ensures(pipeline::clip_path, (dir, separator, ms), r),
    ensures
        r@ == settings::in_directory(
            settings::in_directory(dir@, separator, "audio"@),
            separator,
            text::decimal(ms as nat) + ".wav"@,
        ),
{
}

/// A transcription is stored as it was made, with the app it went into.
pub proof fn law_transcription_row(
    created_at: i64,
    audio_path: Option<&'static str>,
    raw: &'static str,
    cleaned: &'static str,
    app: &'static Option<AppContext>,
    model: &'static str,
    duration: i64,
    latency: i64,
    source: &'static str,
    r: NewTranscription<'static>,
)
    requires
        call_ensures(
            pipeline::transcription_row,
            (created_at, audio_path, raw, cleaned, app, model, duration, latency, source),
            r,
        ),
    ensures
        r.created_at == created_at && r.audio_path == audio_path && r.raw_text == raw,
        r.cleaned_text == cleaned && r.model == model && r.source == source,
        r.duration_ms == duration && r.latency_ms == latency,
        *app is None ==> r.app_bundle_id is None && r.app_title is None,
        *app matches Some(a) ==> text::opt_str(r.app_bundle_id) == Some(a.bundle_id@)
            && text::opt_str(r.app_title) == text::opt_text(a.window_title),
{
}

/// The clipboard while a selection is copied: a text other than the mark is
/// the selection, and after four tenths of a second there is none.
pub proof fn law_clipboard(
    found: &Clipboard,
    mark: &str,
    ms: u64,
    nanos: u64,
    prior: Option<String>,
    poll: Poll,
    back: Restore,
    made: String,
)
    requires
        call_ensures(clipboard::poll, (found, mark, ms), poll),
        call_ensures(clipboard::restore, (prior,), back),
        call_ensures(clipboard::sentinel, (nanos,), made),
    ensures
        *found is Closed ==> poll is Again,
        *found matches Clipboard::Text(t) ==> (t@ != mark@ ==> (poll matches Poll::Captured(c) && c@
            == t@)),
        *found matches Clipboard::Text(t) ==> (t@ == mark@ && ms >= 400 ==> poll is GiveUp),
        *found matches Clipboard::Text(t) ==> (t@ == mark@ && ms < 400 ==> poll is Again),
        *found is NoText && ms >= 400 ==> poll is GiveUp,
        *found is NoText && ms < 400 ==> poll is Again,
        prior is None ==> back is Clear,
        prior matches Some(p) ==> back == Restore::PutBack(p),
        made@ == "__typwrtr_fixup_sentinel_"@ + text::decimal(nanos as nat) + "__"@,
{
}

/// Apps are told apart by their keys, and shown by their names.
pub proof fn law_app_calls(
    macos: bool,
    path: &str,
    name: &str,
    title: &str,
    key: String,
    mac_key: String,
    app: Option<AppContext>,
)
    requires
        call_ensures(context::derive_bundle_id, (path, name), key),
        call_ensures(context::derive_bundle_id_macos, (name,), mac_key),
        call_ensures(context::context_from_window, (macos, path, name, title), app),
    ensures
        key@ == context::bundle_id(path@, name@),
        mac_key@ == context::bundle_id_macos(name@),
        app is None <==> path@.len() == 0 && name@.len() == 0,
        app matches Some(a) ==> a.bundle_id@ == context::window_bundle_id(macos, path@, name@),
        app matches Some(a) ==> a.display_name@ == (if name@.len() > 0 {
            name@
        } else {
            a.bundle_id@
        }),
        app matches Some(a) ==> text::opt_text(a.window_title) == (if title@.len() > 0 {
            Some(title@)
        } else {
            None
        }),
{
}

/// The microphones are listed as they are, and the default one is marked.
pub proof fn law_microphones(names: &[String], default_name: &str, r: Vec<MicDevice>, i: int)
    requires
        call_ensures(capture::mic_devices, (names, default_name), r),
        0 <= i < names@.len(),
    ensures
        r@.len() == names@.len(),
        r@[i].name@ == names@[i]@,
        r@[i].is_default == (default_name@.len() > 0 && names@[i]@ == default_name@),
{
}

/// The microphone that is used: the default one where that is asked for, else
/// the first with the name.
pub proof fn law_chosen_microphone(
    name: &str,
    has_default: bool,
    devices: Result<Vec<Option<String>>, String>,
    r: Result<DeviceChoice, String>,
)
    requires
        call_ensures(capture::choose_device, (name, has_default, devices), r),
    ensures
        name@ == "default"@ && has_default ==> r == Ok::<DeviceChoice, String>(
            DeviceChoice::Default,
        ),
        name@ == "default"@ && !has_default ==> r is Err,
        name@ != "default"@ ==> (devices matches Err(e) ==> r == Err::<DeviceChoice, String>(e)),
        name@ != "default"@ ==> (devices matches Ok(ds) ==> match capture::first_named(
            ds@,
            name@,
            0,
        ) {
            Some(i) => r matches Ok(DeviceChoice::Device(k)) && k == i,
            None => r matches Err(e) && e@ == "Microphone '"@ + name@ + "' not found"@,
        }),
{
    if let Ok(ds) = devices {
        laws::listening::law_first_named(ds@, name@, 0);
    }
}

/// How much a recording holds, and how long that lasts.
pub proof fn law_capture_calls(
    held: u64,
    rate: u32,
    channels: u16,
    most: u64,
    peek: bool,
    ms: u64,
    samples: usize,
    from: u32,
    to: u32,
    plan: Resampling,
)
    requires
        held * 1000 <= u64::MAX,
        call_ensures(capture::max_samples, (rate, channels), most),
        call_ensures(capture::can_peek, (held, rate, channels), peek),
        call_ensures(capture::buffer_ms, (held, rate, channels), ms),
        call_ensures(capture::resampling, (samples, from, to), plan),
    ensures
        most == rate * channels * 600,
        peek == (held >= (rate / 2) * channels),
        rate * channels == 0 ==> ms == 0,
        rate * channels != 0 ==> ms == held * 1000 / (rate * channels),
        from == to ==> plan == Resampling::AsIs,
        from != to ==> (plan matches Resampling::Chunks { full, rest } && full * 1024 + rest
            == samples && rest < 1024),
{
}

/// Silence is counted from the last sound, and speech is any sound.
pub proof fn law_silence_calls(
    quiet: &[bool],
    frame_ms: u32,
    silence: u64,
    speech: bool,
    i: int,
)
    requires
        quiet@.len() * frame_ms <= u64::MAX,
        call_ensures(vad::trailing_silence_ms, (quiet, frame_ms), silence),
        call_ensures(vad::has_speech, (quiet,), speech),
    ensures
        silence == vad::quiet_tail(quiet@) * frame_ms,
        0 <= i < quiet@.len() && !quiet@[i] ==> speech,
        (forall|j: int| 0 <= j < quiet@.len() ==> #[trigger] quiet@[j]) ==> !speech,
{
    assert(speech == vad::any_loud(quiet@));
}

/// A recording is streamed where captions are on or silence ends it.
pub proof fn law_streaming(set: &Settings, path: &str, r: Option<StreamingConfig>)
    requires
        call_ensures(session::streaming_config, (set, path), r),
    ensures
        r is Some <==> set.streaming_captions || set.vad_silence_ms > 0,
        r matches Some(c) ==> c.model_path@ == path@ && c.initial_prompt@ == set.initial_prompt@
            && c.language@ == set.language@ && c.partial_interval_ms == 700
            && c.silence_threshold_ms == set.vad_silence_ms && c.emit_partials
            == set.streaming_captions,
{
}

/// What is played back to the user of a recording's state.
pub proof fn law_overlay(state: RecordingState, class: &'static str, script: String)
    requires
        call_ensures(session::overlay_class, (state,), class),
        call_ensures(session::overlay_script, (state,), script),
    ensures
        class@ == (match state {
            RecordingState::Ready => "mic"@,
            RecordingState::Recording => "mic recording"@,
            RecordingState::Transcribing => "mic transcribing"@,
        }),
        script@ == "document.getElementById('mic').className = '"@ + class@ + "';"@,
{
}

/// The three keys are different, or they are refused.
pub proof fn law_hotkeys(set: &Settings, r: Result<(), String>)
    requires
        call_ensures(hotkeys::check_hotkeys, (set,), r),
    ensures
        r is Ok <==> set.toggle_hotkey@ != set.push_to_talk_hotkey@ && set.toggle_hotkey@
            != set.fixup_hotkey@ && set.push_to_talk_hotkey@ != set.fixup_hotkey@,
{
}

/// What the keys do.
pub proof fn law_key_calls(
    state: RecordingState,
    choosing: bool,
    pressed: bool,
    toggle: Result<ToggleStep, String>,
    fires: bool,
    talk: PushToTalk,
)
    requires
        call_ensures(hotkeys::toggle_step, (state,), toggle),
        call_ensures(hotkeys::fires, (choosing, pressed), fires),
        call_ensures(hotkeys::push_to_talk_step, (choosing, pressed, state), talk),
    ensures
        state == RecordingState::Ready ==> toggle == Ok::<ToggleStep, String>(ToggleStep::Start),
        state == RecordingState::Recording ==> toggle == Ok::<ToggleStep, String>(
            ToggleStep::Stop,
        ),
        state == RecordingState::Transcribing ==> toggle is Err,
        fires == (!choosing && pressed),
        talk == hotkeys::push_to_talk(choosing, pressed, state),
{
}

/// What is registered with the system, and how it is undone.
pub proof fn law_registering(
    set: &Settings,
    fixed: bool,
    old: &RegisteredHotkeys,
    toggle: &str,
    wants: bool,
    now: RegisteredHotkeys,
    cleared: Vec<HotkeyChange>,
    first: (RegisteredHotkeys, Vec<HotkeyChange>),
    second: (RegisteredHotkeys, Vec<HotkeyChange>),
)
    requires
        call_ensures(hotkeys::wants_fixup, (set,), wants),
        call_ensures(hotkeys::registered_hotkeys, (set, fixed), now),
        call_ensures(hotkeys::clear_hotkeys, (old,), cleared),
        call_ensures(hotkeys::after_toggle_failed, (old,), first),
        call_ensures(hotkeys::after_push_to_talk_failed, (old, toggle), second),
    ensures
        wants == (set.fixup_hotkey@.len() > 0),
        now@.toggle == Some(set.toggle_hotkey@),
        now@.push_to_talk == Some(set.push_to_talk_hotkey@),
        now@.fixup == (if fixed && set.fixup_hotkey@.len() > 0 {
            Some(set.fixup_hotkey@)
        } else {
            None
        }),
        hotkeys::change_texts(cleared@) == hotkeys::removing(old@.toggle) + hotkeys::removing(
            old@.push_to_talk,
        ) + hotkeys::removing(old@.fixup),
        first.0@ == (Registered { fixup: None, ..old@ }),
        hotkeys::change_texts(first.1@) == hotkeys::restoring(HotkeyRole::Toggle, old@.toggle)
            + hotkeys::restoring(HotkeyRole::PushToTalk, old@.push_to_talk),
        second.0@ == old@,
        hotkeys::change_texts(second.1@) == seq![KeyChange::Unregister(toggle@)]
            + hotkeys::restoring(HotkeyRole::Toggle, old@.toggle) + hotkeys::restoring(
            HotkeyRole::PushToTalk,
            old@.push_to_talk,
        ) + hotkeys::restoring(HotkeyRole::Fixup, old@.fixup),
{
}

/// A fix-up starts with the selection and the text it was made of.
pub proof fn law_fixup(
    captured: Option<&str>,
    now: i64,
    selection: Option<String>,
    found: Option<RecentTranscription>,
    picked: Option<String>,
    cutoff: i64,
    start: FixupStart,
)
    requires
        now >= 0,
        call_ensures(hotkeys::fixup_selection, (captured,), picked),
        call_ensures(hotkeys::fixup_cutoff, (now,), cutoff),
        call_ensures(hotkeys::fixup_start, (selection, found), start),
    ensures
        text::opt_text(picked) == hotkeys::selected(text::opt_str(captured)),
        cutoff == now - 1800,
        selection is None ==> start is NoSelection,
        selection matches Some(s) ==> (found matches Some(t) ==> start == (FixupStart::Match {
            transcription: t,
            selection: s,
        })),
        selection matches Some(s) ==> (found is None ==> start == (FixupStart::NoMatch {
            selection: s,
        })),
{
}

/// How far back usage is counted.
pub proof fn law_since(days: i64, now: i64, r: i64)
    requires
        call_ensures(hotkeys::since_unix_secs, (days, now), r),
    ensures
        r == hotkeys::since(days, now),
{
}

/// A language model is asked for the text with fixed words around it, and its
/// answer is read where it stands.
pub proof fn law_model_calls(
    backend: CleanupBackend,
    key: &str,
    s: &str,
    model: CleanupModel,
    reply: &Reply,
    q: Option<Question>,
    r: String,
)
    requires
        call_ensures(llm_cleanup::question, (backend, key, s, model), q),
        call_ensures(llm_cleanup::cleanup, (backend, key, s, reply), r),
    ensures
        q is Some <==> llm_cleanup::asks(backend, key@, s@),
        q matches Some(x) ==> x.user@ == s@ && x.system@ == llm_cleanup::SYSTEM_PROMPT@ && x.model@
            == (match model {
            CleanupModel::Fast => "llama-3.1-8b-instant"@,
            CleanupModel::Quality => "llama-3.3-70b-versatile"@,
        }) && x.temperature == 0 && x.max_tokens == 512,
        r@ == llm_cleanup::cleaned_up(backend, key@, s@, *reply),
{
}

/// The services and models go by their names.
pub proof fn law_service_names(s: &str, backend: CleanupBackend, model: CleanupModel)
    requires
        call_ensures(CleanupBackend::from_str, (s,), backend),
        call_ensures(CleanupModel::from_str, (s,), model),
    ensures
        backend == CleanupBackend::Groq <==> s@ == "groq"@,
        model == CleanupModel::Fast <==> s@ == "fast"@,
{
}

/// What the sidecar is started with, and what is made of what it wrote.
pub proof fn law_sidecar_calls(
    available: Option<usize>,
    model: &str,
    audio: &str,
    out: &str,
    err: &str,
    code: Option<i32>,
    args: Vec<String>,
    r: Result<String, String>,
)
    requires
        call_ensures(transcribe_local::sidecar_args, (available, model, audio), args),
        call_ensures(transcribe_local::transcript, (out, err, code), r),
    ensures
        ({
            let threads = match available {
                Some(n) => n as nat,
                None => 4,
            };
            text::texts(args@) == seq![
                "-t"@,
                text::decimal(threads),
                "-m"@,
                model@,
                "-f"@,
                audio@,
                "--no-timestamps"@,
                "--no-prints"@,
                "-l"@,
                "en"@,
            ]
        }),
        match r {
            Ok(t) => transcribe_local::outcome(out@, err@, code) == Ok::<Seq<char>, Seq<char>>(t@),
            Err(e) => transcribe_local::outcome(out@, err@, code) == Err::<Seq<char>, Seq<char>>(
                e@,
            ),
        },
{
}

/// The files of models, and where they come from.
pub proof fn law_model_files(
    id: &str,
    loaded: Option<&str>,
    file: String,
    url: String,
    load: Loading,
)
    requires
        call_ensures(transcribe::model_filename, (id,), file),
        call_ensures(transcribe::model_download_url, (id,), url),
        call_ensures(transcribe::needs_loading, (loaded, id), load),
    ensures
        settings::engine_of(id@) == "parakeet"@ ==> file@ == id@ && url@
            == "https://huggingface.co/istupakov/"@ + id@ + "-onnx"@,
        settings::engine_of(id@) != "parakeet"@ ==> file@ == "ggml-"@ + id@ + ".bin"@ && url@
            == "https://huggingface.co/ggerganov/whisper.cpp/resolve/main/ggml-"@ + id@ + ".bin"@,
        load == Loading::Done <==> text::opt_str(loaded) == Some(id@),
{
}

/// How the recogniser is run.
pub proof fn law_whisper_plan(opts: &TranscribeOptions, available: Option<usize>, r: WhisperPlan)
    requires
        available matches Some(n) ==> n <= i32::MAX,
        call_ensures(whisper::plan, (opts, available), r),
    ensures
        opts.threads matches Some(n) ==> r.threads == n,
        opts.threads is None ==> (available matches Some(n) ==> r.threads == n),
        opts.threads is None && available is None ==> r.threads == 4,
        r.beam_size == (if opts.beam_size > 1 {
            Some(opts.beam_size)
        } else {
            None
        }),
        text::opt_text(r.language) == (if opts.language@.len() == 0 || opts.language@
            == "auto"@ {
            None
        } else {
            Some(opts.language@)
        }),
        text::opt_text(r.initial_prompt) == (if opts.initial_prompt@.len() == 0 {
            None
        } else {
            Some(opts.initial_prompt@)
        }),
        !r.translate && !r.print_anything && r.suppress_blank && r.suppress_non_speech,
{
}

/// What the recogniser heard, segment after segment; and which of its tokens
/// have a score that counts.
pub proof fn law_segments_call(segments: &[String], id: i32, scored: bool, r: String, counts: bool)
    requires
        call_ensures(whisper::join_segments, (segments,), r),
        call_ensures(whisper::scorable, (id, scored), counts),
    ensures
        r@ == text::trimmed(Class::WhiteSpace, whisper::run_together(text::texts(segments@))),
        counts == (id < 50256 && scored),
{
}

/// The files that a model of the other engine is made of.
pub proof fn law_parakeet_files(
    id: &str,
    there: bool,
    present: &[String],
    files: Vec<(String, String)>,
    complete: bool,
)
    requires
        call_ensures(parakeet::required_files, (id,), files),
        call_ensures(parakeet::all_files_present, (there, present), complete),
    ensures
        files@.len() == 3,
        files@[0].0@ == "encoder-model.int8.onnx"@,
        files@[1].0@ == "decoder_joint-model.int8.onnx"@,
        files@[2].0@ == "vocab.txt"@,
        forall|i: int|
            0 <= i < 3 ==> (#[trigger] files@[i]).1@ == "https://huggingface.co/istupakov/"@ + id@
                + "-onnx"@ + "/resolve/main"@ + "/"@ + files@[i].0@,
        complete == (there && parakeet::there(present@, "encoder-model.int8.onnx"@)
            && parakeet::there(present@, "decoder_joint-model.int8.onnx"@) && parakeet::there(
            present@,
            "vocab.txt"@,
        )),
{
    let names = parakeet::FILE_NAMES@;
    assert(names[0]@ == "encoder-model.int8.onnx"@);
    assert(names[1]@ == "decoder_joint-model.int8.onnx"@);
    assert(names[2]@ == "vocab.txt"@);
}

/// A recogniser is loaded where its model is there.
pub proof fn law_loading(
    there: bool,
    built_in: bool,
    loaded: Option<&str>,
    wanted: &str,
    w: Result<Loading, String>,
    p: Result<Loading, String>,
)
    requires
        call_ensures(whisper::load_step, (there, loaded, wanted), w),
        call_ensures(parakeet::load_step, (built_in, there, loaded, wanted), p),
    ensures
        w is Ok <==> there,
        p is Ok <==> there && built_in,
        w matches Ok(l) ==> (l == Loading::Done <==> text::opt_str(loaded) == Some(wanted@)),
        p matches Ok(l) ==> (l == Loading::Done <==> text::opt_str(loaded) == Some(wanted@)),
{
}

/// What is written of a correction that was seen.
pub proof fn law_correction_write(
    tombstones: i64,
    existing: Option<(i64, i64)>,
    w: CorrectionWrite,
    count: i64,
    app: Option<&str>,
    key: String,
)
    requires
        existing matches Some((_, n)) ==> n < i64::MAX,
        call_ensures(corrections::upsert_correction, (tombstones, existing), w),
        call_ensures(CorrectionWrite::new_count, (w,), count),
        call_ensures(corrections::app_key, (app,), key),
    ensures
        tombstones > 0 ==> w == CorrectionWrite::Nothing && count == 0,
        tombstones <= 0 && existing is None ==> w == CorrectionWrite::Insert && count == 1,
        tombstones <= 0 ==> (existing matches Some((id, n)) ==> count == n + 1 && (w matches
            CorrectionWrite::Recount { id: x, count: y } && x == id && y == n + 1)),
        app is None ==> key@.len() == 0,
        app matches Some(a) ==> key@ == a@,
{
}

/// What the store still needs, and what it is asked.
pub proof fn law_store_calls(
    current: i32,
    table: &str,
    days: i64,
    steps: Vec<i32>,
    query: Result<String, String>,
    span: Option<String>,
    wipe: String,
)
    requires
        call_ensures(migrate::pending_migrations, (current,), steps),
        call_ensures(db::count_query, (table,), query),
        call_ensures(db::days_back, (days,), span),
        call_ensures(db::wipe_script, (), wipe),
    ensures
        0 <= current <= 6 ==> steps@.len() == 6 - current,
        forall|i: int|
            0 <= i < steps@.len() && 0 <= current ==> #[trigger] steps@[i] == current + 1 + i,
        query is Ok <==> db::listed(db::TABLES@, table@),
        query matches Ok(q) ==> q@ == "SELECT COUNT(*) FROM "@ + table@,
        span is Some <==> days > 0,
        span matches Some(m) ==> m@ == "-"@ + text::decimal(days as nat) + " days"@,
        wipe@ == "BEGIN;"@ + db::deletions(db::LEARNED_TABLES@) + " COMMIT;"@,
{
    let all = migrate::pending_from(current as int);
    let mapped = steps@.map_values(|v: i32| v as int);
    laws::store::law_migrations(current as int);
    assert(mapped.len() == steps@.len());
    assert forall|i: int| 0 <= i < steps@.len() && 0 <= current implies #[trigger] steps@[i]
        == current + 1 + i by {
        assert(mapped[i] == all[i]);
    }
}

/// Each day has a row, in order, and no other has.
pub proof fn law_days(days: &[String], found: &[DayCounts], r: Vec<DayCounts>, i: int)
    requires
        call_ensures(db::filled_days, (days, found), r),
        0 <= i < days@.len(),
    ensures
        r@.len() == days@.len(),
        r@[i].date@ == days@[i]@,
        (r@[i].words, r@[i].dictations, r@[i].edited) == db::counts_of_day(found@, days@[i]@),
{
    assert(r[i] == r@[i]);
}

/// What is stored of profiles and snippets, and what is refused.
pub proof fn law_stored_rows(
    p: &AppProfileRow,
    s: &SnippetRow,
    taken: bool,
    profile: Result<(), String>,
    snippet: Result<SnippetWrite, String>,
)
    requires
        call_ensures(profiles::check_profile, (p,), profile),
        call_ensures(snippets::snippet_write, (s, taken), snippet),
    ensures
        profile is Ok <==> profiles::profile_error(*p) is None,
        profile matches Err(e) ==> profiles::profile_error(*p) == Some(e@),
        snippet is Ok <==> snippets::snippet_error(*s, taken) is None,
        snippet matches Err(e) ==> snippets::snippet_error(*s, taken) == Some(e@),
        snippet matches Ok(w) ==> match w {
            SnippetWrite::Insert { trigger } => s.id <= 0 && trigger@ == snippets::stored_trigger(
                s.trigger@,
            ),
            SnippetWrite::Update { id, trigger } => s.id > 0 && id == s.id && trigger@
                == snippets::stored_trigger(s.trigger@),
        },
{
}

/// The recent text that is most like a selection.
pub proof fn law_recent_match(
    selection: &str,
    rows: &[RecentTranscription],
    least: u32,
    r: Option<usize>,
)
    requires
        call_ensures(transcriptions::find_recent_match, (selection, rows, least), r),
    ensures
        match r {
            Some(i) => transcriptions::first_best(
                transcriptions::ratios(selection@, rows@),
                least,
            ) == Some(i as int),
            None => transcriptions::first_best(
                transcriptions::ratios(selection@, rows@),
                least,
            ) is None,
        },
{
}

/// The text of a field, from the answers that were given.
pub proof fn law_field_text(answers: &[Option<String>], r: Option<FocusedText>)
    requires
        call_ensures(focused_text::first_text, (answers,), r),
    ensures
        match focused_text::first_telling(answers@, 0) {
            Some(i) => r matches Some(t) && t.text@ == answers@[i]->0@,
            None => r is None,
        },
{
}

/// Where settings are kept, which engine they choose, and when they are written
/// again.
pub proof fn law_settings_calls(
    set: &Settings,
    dir: &str,
    separator: char,
    name: &str,
    keys: &[String],
    i: int,
    path: String,
    config: String,
    engine: &'static str,
    storage: String,
    old: bool,
)
    requires
        call_ensures(settings::join_path, (dir, separator, name), path),
        call_ensures(Settings::config_path, (dir, separator), config),
        call_ensures(Settings::engine, (set,), engine),
        call_ensures(Settings::model_storage_dir, (set, dir), storage),
        call_ensures(settings::has_legacy_keys, (keys,), old),
    ensures
        path@ == settings::in_directory(dir@, separator, name@),
        config@ == settings::in_directory(dir@, separator, "config.json"@),
        engine@ == settings::engine_of(set.whisper_model@),
        storage@ == settings::directory_or(set.model_dir@, dir@),
        0 <= i < keys@.len() && settings::legacy(keys@[i]@) ==> old,
        (forall|j: int| 0 <= j < keys@.len() ==> !settings::legacy((#[trigger] keys@[j])@)) ==> !old,
{
    assert(old == settings::any_legacy(keys@));
}

/// Settings that could be read are used as they are, and the defaults where
/// none could.
pub proof fn law_loaded_settings(
    parsed: Option<Settings>,
    raw: Option<&str>,
    r: (Settings, bool),
)
    requires
        call_ensures(Settings::loaded_from, (parsed, raw), r),
    ensures
        parsed matches Some(s) ==> r.0 == s,
        parsed is None ==> settings::is_default(r.0),
        raw is None ==> !r.1,
        raw matches Some(s) ==> r.1 == settings::outdated(settings::json_keys(s@)),
{
}

/// Every setting but the silence that ends a recording is kept while a key is
/// held.
pub proof fn law_push_to_talk_settings(set: &Settings, r: Settings)
    requires
        call_ensures(hotkeys::push_to_talk_settings, (set,), r),
    ensures
        r.vad_silence_ms == 0,
        r.microphone@ == set.microphone@ && r.whisper_model@ == set.whisper_model@,
        r.model_dir@ == set.model_dir@ && r.language@ == set.language@,
        r.toggle_hotkey@ == set.toggle_hotkey@ && r.fixup_hotkey@ == set.fixup_hotkey@,
        r.push_to_talk_hotkey@ == set.push_to_talk_hotkey@,
        r.initial_prompt@ == set.initial_prompt@,
        r.save_transcriptions == set.save_transcriptions,
        r.keep_audio_clips == set.keep_audio_clips,
        r.streaming_captions == set.streaming_captions,
{
}

/// What a dictation is recognised with.
pub proof fn law_listening(
    name: &str,
    set: &Settings,
    app: &Option<AppContext>,
    profile: &Option<AppProfileRow>,
    app_terms: &[String],
    common: &[String],
    corrections: &[String],
    r: Result<Listening, String>,
)
    requires
        call_ensures(
            pipeline::listening,
            (name, set, app, profile, app_terms, common, corrections),
            r,
        ),
    ensures
        r is Ok <==> name@ == "local"@ || name@ == "cloud"@,
        r matches Ok(l) ==> l.model@ == pipeline::model_for(*profile, set.whisper_model@),
        r matches Ok(l) ==> l.prompt@ == pipeline::prompt_for(
            *profile,
            set.initial_prompt@,
            if *app is Some {
                text::texts(app_terms@) + text::texts(common@) + text::non_blank(
                    text::texts(corrections@),
                )
            } else {
                Seq::empty()
            },
        ),
{
}

/// A paste is watched where the text is of four bytes or more, white space
/// around it aside, and the profile of the app is not turned off; for a minute
/// at most.
pub proof fn law_watch_starts(
    cleaned: &str,
    target: &str,
    enabled: Option<bool>,
    ms: u64,
    r: Option<Watcher>,
    over: bool,
)
    requires
        call_ensures(Watcher::start, (cleaned, target, enabled), r),
        call_ensures(Watcher::expired, (ms,), over),
    ensures
        r is Some <==> text::byte_len(text::trimmed(Class::WhiteSpace, cleaned@)) >= 4 && enabled
            != Some(false),
        r matches Some(w) ==> w@ == (Watch {
            cleaned: cleaned@,
            target: target@,
            last: None,
            idle: 0,
            rejects: 0,
        }),
        over == (ms >= 60_000),
{
}

/// A glance at the focus gives what it was decided to be.
pub proof fn law_watch_glances(w: &Watcher, focus: Option<&str>, r: FocusStep)
    requires
        call_ensures(Watcher::focus, (w, focus), r),
    ensures
        match watcher::glanced(w@, text::opt_str(focus)) {
            Glance::Capture => r is Capture,
            Glance::Wait => r is Wait,
            Glance::Finalize(s) => r matches FocusStep::Finalize(t) && t@ == s,
        },
{
}

/// The answer of a language model stands in the first of its choices.
pub proof fn law_answer_call(body: &str, r: Reply)
    requires
        call_ensures(llm_cleanup::reply_from_body, (body,), r),
    ensures
        match llm_cleanup::json_text(body@, "choices"@, 0, "message"@, "content"@) {
            Some(t) => r matches Reply::Content(c) && c@ == t,
            None => r is Failed,
        },
{
}

/// The variables of templates that the clock answers.
pub proof fn law_variable_calls(
    key: &str,
    var: TemplateVar,
    named: Option<TemplateVar>,
    format: Option<&'static str>,
)
    requires
        call_ensures(TemplateVar::from_key, (key,), named),
        call_ensures(TemplateVar::time_format, (var,), format),
    ensures
        named == pipeline::var_named(key@),
        text::opt_str(format) == (match var {
            TemplateVar::Date => Some("%Y-%m-%d"@),
            TemplateVar::Time => Some("%H:%M"@),
            TemplateVar::Day => Some("%A"@),
            _ => None,
        }),
{
}

/// What is said of a trigger that the store refused.
pub proof fn law_refused_trigger(trigger: &str, message: &str, r: String)
    requires
        call_ensures(snippets::insert_error, (trigger, message), r),
    ensures
        laws::watching::is_part("UNIQUE"@, message@) ==> r@ == "A snippet with trigger '"@
            + trigger@ + "' already exists"@,
        !laws::watching::is_part("UNIQUE"@, message@) ==> r@ == message@,
{
    laws::watching::law_stands_in("UNIQUE"@, message@);
}

/// The limits that the parts of a dictation keep to.
pub proof fn law_limits()
    ensures
        prompt::PROMPT_APP_TERMS == 20,
        prompt::PROMPT_COMMON_TERMS == 10,
        prompt::PROMPT_CORRECTIONS == 10,
        prompt::PROMPT_BUDGET_CHARS == 800,
        replacements::MIN_COUNT == 3,
        replacements::MAX_CORRECTIONS == 200,
        hotkeys::FIXUP_CANDIDATES == 50,
        hotkeys::FIXUP_MIN_RATIO == 0x3f19_999au32,
        watcher::AUTO_LEARN_TICK_MS == 1_500,
        clipboard::POLL_INTERVAL_MS == 20,
        clipboard::RESTORE_DELAY_MS == 120,
{
}

/// A look into the field goes as it was decided.
pub proof fn law_watch_looks()
    ensures
        forall|w: &mut Watcher, s: Option<&str>, r: CaptureStep|
            watcher::watching((*w)@) && #[trigger] call_ensures(Watcher::capture, (w, s), r) ==> {
                let (next, look) = watcher::looked((*w)@, text::opt_str(s));
                &&& (*final(w))@ == next
                &&& watcher::same_look(r, look)
            },
{
}

/// A session goes from state to state as it was asked, and says so where it was
/// not in a state to.
pub proof fn law_session_calls()
    ensures
        forall|s: &mut Session, c: Result<(), String>, r: Result<(), String>| #[trigger]
            call_ensures(Session::start, (s, c), r) ==> {
                &&& (*s)@ == RecordingState::Ready && c is Ok ==> r is Ok && (*final(s))@
                    == RecordingState::Recording
                &&& (*s)@ == RecordingState::Ready && c is Err ==> r == c && (*final(s))@ == (*s)@
                &&& (*s)@ != RecordingState::Ready ==> r is Err && (*final(s))@ == (*s)@
            },
        forall|s: &mut Session, r: Result<(), String>| #[trigger]
            call_ensures(Session::stop, (s,), r) ==> {
                &&& (*s)@ == RecordingState::Recording ==> r is Ok && (*final(s))@
                    == RecordingState::Transcribing
                &&& (*s)@ != RecordingState::Recording ==> r is Err && (*final(s))@ == (*s)@
            },
        forall|s: &mut Session, r: ()| #[trigger]
            call_ensures(Session::finish, (s,), r) ==> (*final(s))@ == RecordingState::Ready,
{
}

/// A recorder runs from its start to its stop, and tells whether it was full.
pub proof fn law_recorder_calls()
    ensures
        forall|s: &mut CaptureState, d: Result<(u32, u16), String>, r: Result<(), String>|
         #[trigger]
            call_ensures(CaptureState::start, (s, d), r) ==> {
                &&& (*s)@.running ==> r is Err && (*final(s))@ == (*s)@
                &&& !(*s)@.running && d is Err ==> r is Err && !(*final(s))@.running
                &&& !(*s)@.running ==> (d matches Ok((rate, channels)) ==> r is Ok && (*final(s))@
                    == (Capturing { running: true, sample_rate: rate, channels, hit_cap: false }))
            },
        forall|s: &mut CaptureState, r: ()| #[trigger]
            call_ensures(CaptureState::reached_cap, (s,), r) ==> (*final(s))@ == (Capturing {
                hit_cap: true,
                ..(*s)@
            }),
        forall|s: &mut CaptureState, held: u64, r: Result<bool, String>| #[trigger]
            call_ensures(CaptureState::stop, (s, held), r) ==> {
                &&& !(*s)@.running ==> r is Err && (*final(s))@ == (*s)@
                &&& (*s)@.running && held == 0 ==> r is Err && !(*final(s))@.running
                &&& (*s)@.running && held > 0 ==> r == Ok::<bool, String>((*s)@.hit_cap)
                    && (*final(s))@ == (Capturing { running: false, hit_cap: false, ..(*s)@ })
            },
{
}

/// A stream tells whether there is more to hear, and shows each new result
/// once.
pub proof fn law_stream_calls()
    ensures
        forall|s: &mut StreamState, n: usize, rate: u32, channels: u16, r: bool|
            n * 1000 <= u64::MAX && #[trigger] call_ensures(
                StreamState::grown,
                (s, n, rate, channels),
                r,
            ) ==> {
                let ms = streaming::buffered_ms(n as int, rate, channels);
                r == ((*s)@.buffer_ms != ms) && (*final(s))@ == (Stream { buffer_ms: ms, ..(*s)@ })
            },
        forall|s: &mut StreamState, heard: &str, ms: u64, r: Option<PartialPayload>| #[trigger]
            call_ensures(StreamState::partial, (s, heard, ms), r) ==> {
                &&& r is Some <==> streaming::shows((*s)@, heard@)
                &&& r is None ==> (*final(s))@ == (*s)@
                &&& r matches Some(p) ==> p.elapsed_ms == ms && p.text@ == text::trimmed(
                    Class::WhiteSpace,
                    heard@,
                ) && (*final(s))@ == (Stream { shown: p.text@, ..(*s)@ })
            },
{
}

} // verus!
