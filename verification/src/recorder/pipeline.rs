//! What happens to a transcript on its way to the user's app, and what is
//! decided along it.
use vstd::prelude::*;
use crate::cleanup::postprocess;
use crate::cleanup::postprocess::{CodeCase, Mode};
use crate::cleanup::scrub;
use crate::commands;
use crate::commands::Snippet;
use crate::context::AppContext;
use crate::db::{AppProfileRow, CorrectionRow, NewTranscription};
use crate::recorder::prompt;
use crate::recorder::replacements;
use crate::settings;
use crate::settings::Settings;
use crate::text;
use crate::text::Class;

verus! {

/// The rate at which the recogniser takes samples.
pub const WHISPER_SAMPLE_RATE: u32 = 16000;

/// The length of a recording at the recogniser's rate, in milliseconds.
pub fn clip_duration_ms(samples: usize) -> (r: i64)
    requires
        samples <= i64::MAX,
    ensures
        r == (if samples * 1000 > i64::MAX {
            i64::MAX as int
        } else {
            samples * 1000
        }) / 16000,
{
    let n: i64 = samples as i64;
    let scaled: i64 = if n > i64::MAX / 1000 {
        i64::MAX
    } else {
        n * 1000
    };
    scaled / 16000
}

/// Whether the user has turned learning off for an app.
pub open spec fn disabled(profile: Option<AppProfileRow>) -> bool {
    profile matches Some(p) && !p.enabled
}

/// The profile that is in force: one that was turned off is not.
pub open spec fn in_force(profile: Option<AppProfileRow>) -> Option<AppProfileRow> {
    match profile {
        Some(p) if p.enabled => Some(p),
        _ => None,
    }
}

/// Whether the user has turned learning off for an app.
pub fn app_disabled(profile: &Option<AppProfileRow>) -> (r: bool)
    ensures
        r == disabled(*profile),
{
    match profile {
        Some(p) => !p.enabled,
        None => false,
    }
}

/// The model that a dictation uses: the profile's, unless that is blank, else
/// the one in the settings.
pub open spec fn model_for(profile: Option<AppProfileRow>, settings_model: Seq<char>) -> Seq<char> {
    match in_force(profile) {
        Some(p) => match p.preferred_model {
            Some(m) if text::trimmed(Class::WhiteSpace, m@).len() > 0 => m@,
            _ => settings_model,
        },
        None => settings_model,
    }
}

/// The model that a dictation uses.
pub fn effective_model(profile: &Option<AppProfileRow>, settings_model: &str) -> (r: String)
    ensures
        r@ == model_for(*profile, settings_model@),
{
    if let Some(p) = profile {
        if p.enabled {
            if let Some(m) = &p.preferred_model {
                let cs = text::to_chars(m.as_str());
                let bare = text::trim(Class::WhiteSpace, cs.as_slice());
                if bare.len() > 0 {
                    return m.clone();
                }
            }
        }
    }
    settings_model.to_owned()
}

/// The template of the profile in force.
pub open spec fn template_for(profile: Option<AppProfileRow>) -> Option<Seq<char>> {
    match in_force(profile) {
        Some(p) => match p.prompt_template {
            Some(t) => Some(t@),
            None => None,
        },
        None => None,
    }
}

/// The terms that are offered to the prompt: the app's vocabulary, the common
/// one, and what corrections put in, blank ones aside.
pub open spec fn offered_terms(
    app_terms: Seq<Seq<char>>,
    common_terms: Seq<Seq<char>>,
    corrections: Seq<Seq<char>>,
) -> Seq<Seq<char>> {
    app_terms + common_terms + text::non_blank(corrections)
}

/// The prompt of a dictation.
pub open spec fn prompt_for(
    profile: Option<AppProfileRow>,
    initial_prompt: Seq<char>,
    terms: Seq<Seq<char>>,
) -> Seq<char> {
    let base = prompt::merged(template_for(profile), initial_prompt);
    if terms.len() == 0 {
        base
    } else {
        let b = text::trimmed(Class::WhiteSpace, base);
        prompt::prompt_with(
            b,
            prompt::added(b, terms, prompt::PROMPT_BUDGET_CHARS as int).terms,
        )
    }
}

fn push_texts(out: &mut Vec<String>, ts: &[String])
    ensures
        text::texts(final(out)@) == text::texts(old(out)@) + text::texts(ts@),
{
    let ghost start = text::texts(out@);
    let ghost all = text::texts(ts@);
    assert(start + all.take(0) =~= start);
    let mut i: usize = 0;
    while i < ts.len()
        invariant
            i <= ts.len(),
            all == text::texts(ts@),
            text::texts(out@) == start + all.take(i as int),
        decreases ts.len() - i,
    {
        let t = ts[i].clone();
        let ghost before = out@;
        out.push(t);
        assert(text::texts(out@) =~= text::texts(before).push(t@));
        assert(all.take(i + 1) =~= all.take(i as int).push(all[i as int]));
        assert(start + all.take(i as int).push(t@) =~= (start + all.take(i as int)).push(t@));
        i += 1;
    }
    assert(all.take(i as int) =~= all);
}

fn push_non_blank(out: &mut Vec<String>, ts: &[String])
    ensures
        text::texts(final(out)@) == text::texts(old(out)@) + text::non_blank(text::texts(ts@)),
{
    let ghost start = text::texts(out@);
    let ghost all = text::texts(ts@);
    assert(all.take(0) =~= Seq::empty());
    assert(start + text::non_blank(all.take(0)) =~= start);
    let mut i: usize = 0;
    while i < ts.len()
        invariant
            i <= ts.len(),
            all == text::texts(ts@),
            text::texts(out@) == start + text::non_blank(all.take(i as int)),
        decreases ts.len() - i,
    {
        assert(all.take(i + 1).drop_last() =~= all.take(i as int));
        assert(all.take(i + 1).last() == ts@[i as int]@);
        let cs = text::to_chars(ts[i].as_str());
        let bare = text::trim(Class::WhiteSpace, cs.as_slice());
        if bare.len() > 0 {
            let t = text::to_text(bare);
            let ghost before = out@;
            out.push(t);
            assert(text::texts(out@) =~= text::texts(before).push(t@));
            assert(start + text::non_blank(all.take(i as int)).push(t@) =~= (start + text::non_blank(
                all.take(i as int),
            )).push(t@));
        }
        i += 1;
    }
    assert(all.take(i as int) =~= all);
}

/// The prompt of a dictation: the template of the profile in force, the user's
/// own prompt, and learned terms as far as they fit.
pub fn dictation_prompt(
    profile: &Option<AppProfileRow>,
    initial_prompt: &str,
    app_terms: &[String],
    common_terms: &[String],
    corrections: &[String],
) -> (r: String)
    ensures
        r@ == prompt_for(
            *profile,
            initial_prompt@,
            offered_terms(
                text::texts(app_terms@),
                text::texts(common_terms@),
                text::texts(corrections@),
            ),
        ),
{
    let template: Option<&str> = match profile {
        Some(p) => if p.enabled {
            match &p.prompt_template {
                Some(t) => Some(t.as_str()),
                None => None,
            }
        } else {
            None
        },
        None => None,
    };
    let base = prompt::merge_prompt(template, initial_prompt);
    let mut terms: Vec<String> = Vec::new();
    push_texts(&mut terms, app_terms);
    assert(text::texts(terms@) =~= text::texts(app_terms@));
    push_texts(&mut terms, common_terms);
    push_non_blank(&mut terms, corrections);
    assert(text::texts(terms@).len() == terms@.len());
    if terms.len() == 0 {
        return base;
    }
    prompt::budgeted_join(base.as_str(), terms.as_slice(), prompt::PROMPT_BUDGET_CHARS)
}

/// Where a recording is transcribed.
#[derive(Debug, Clone, Copy, PartialEq, Eq, Structural)]
pub enum Engine {
    Local,
    Cloud,
}

/// The label of the cloud model.
pub open spec fn cloud_label() -> Seq<char> {
    "groq-whisper-large-v3-turbo"@
}

impl Engine {
    /// The engine with a given name.
    pub fn from_name(name: &str) -> (r: Result<Engine, String>)
        ensures
            match r {
                Ok(e) => e == Engine::Local && name@ == "local"@ || e == Engine::Cloud && name@
                    == "cloud"@,
                Err(m) => name@ != "local"@ && name@ != "cloud"@ && m@ == "Unknown engine: "@
                    + name@,
            },
    {
        if text::same_text(name, "local") {
            Ok(Engine::Local)
        } else if text::same_text(name, "cloud") {
            Ok(Engine::Cloud)
        } else {
            Err(text::concat("Unknown engine: ", name))
        }
    }

    /// The name under which a transcription's model is kept.
    pub fn model_label(self, effective_model: &str) -> (r: String)
        ensures
            r@ == (match self {
                Engine::Local => effective_model@,
                Engine::Cloud => cloud_label(),
            }),
    {
        match self {
            Engine::Local => effective_model.to_owned(),
            Engine::Cloud => "groq-whisper-large-v3-turbo".to_owned(),
        }
    }
}

/// Whether learned corrections are put into the text: unless the profile in
/// force says otherwise.
pub fn applies_replacements(profile: &Option<AppProfileRow>) -> (r: bool)
    ensures
        r == (in_force(*profile) matches Some(p) ==> p.auto_apply_replacements),
{
    match profile {
        Some(p) => !p.enabled || p.auto_apply_replacements,
        None => true,
    }
}

/// The output mode of the profile in force, and its identifier convention.
pub fn output_modes(profile: &Option<AppProfileRow>) -> (r: (Mode, CodeCase))
    ensures
        r.0 == mode_of(*profile),
        r.1 == case_of(*profile),
{
    match profile {
        Some(p) => if p.enabled {
            (Mode::from_str(p.postprocess_mode.as_str()), CodeCase::from_str(p.code_case.as_str()))
        } else {
            (Mode::Default, CodeCase::Snake)
        },
        None => (Mode::Default, CodeCase::Snake),
    }
}

/// The output mode of the profile in force.
pub open spec fn mode_of(profile: Option<AppProfileRow>) -> Mode {
    match in_force(profile) {
        Some(p) => postprocess::mode_named(p.postprocess_mode@),
        None => Mode::Default,
    }
}

/// The identifier convention of the profile in force.
pub open spec fn case_of(profile: Option<AppProfileRow>) -> CodeCase {
    match in_force(profile) {
        Some(p) => postprocess::case_named(p.code_case@),
        None => CodeCase::Snake,
    }
}

/// The variables that snippets can hold.
#[derive(Debug, Clone, Copy, PartialEq, Eq, Structural)]
pub enum TemplateVar {
    Date,
    Time,
    Day,
    Clipboard,
    Selection,
}

/// The variable with a given name.
pub open spec fn var_named(key: Seq<char>) -> Option<TemplateVar> {
    if key == "date"@ {
        Some(TemplateVar::Date)
    } else if key == "time"@ {
        Some(TemplateVar::Time)
    } else if key == "day"@ {
        Some(TemplateVar::Day)
    } else if key == "clipboard"@ {
        Some(TemplateVar::Clipboard)
    } else if key == "selection"@ {
        Some(TemplateVar::Selection)
    } else {
        None
    }
}

impl TemplateVar {
    /// The variable with a given name.
    pub fn from_key(key: &str) -> (r: Option<TemplateVar>)
        ensures
            r == var_named(key@),
    {
        if text::same_text(key, "date") {
            Some(TemplateVar::Date)
        } else if text::same_text(key, "time") {
            Some(TemplateVar::Time)
        } else if text::same_text(key, "day") {
            Some(TemplateVar::Day)
        } else if text::same_text(key, "clipboard") {
            Some(TemplateVar::Clipboard)
        } else if text::same_text(key, "selection") {
            Some(TemplateVar::Selection)
        } else {
            None
        }
    }

    /// The format in which a variable shows the present time, if it does.
    pub fn time_format(self) -> (r: Option<&'static str>)
        ensures
            match r {
                Some(f) => f@ == (match self {
                    TemplateVar::Date => "%Y-%m-%d"@,
                    TemplateVar::Time => "%H:%M"@,
                    _ => "%A"@,
                }) && (self == TemplateVar::Date || self == TemplateVar::Time || self
                    == TemplateVar::Day),
                None => self == TemplateVar::Clipboard || self == TemplateVar::Selection,
            },
    {
        match self {
            TemplateVar::Date => Some("%Y-%m-%d"),
            TemplateVar::Time => Some("%H:%M"),
            TemplateVar::Day => Some("%A"),
            TemplateVar::Clipboard => None,
            TemplateVar::Selection => None,
        }
    }
}

/// Whether a snippet asks for the selected text.
pub open spec fn asks_for_selection(s: Snippet) -> bool {
    s.is_dynamic && text::first_of(s.expansion@, "{{selection}}"@) is Some
}

/// Whether any snippet asks for the selected text.
pub open spec fn any_asks_for_selection(snippets: Seq<Snippet>) -> bool {
    exists|i: int| 0 <= i < snippets.len() && asks_for_selection(#[trigger] snippets[i])
}

/// Whether any snippet asks for the selected text, so that it is to be fetched
/// beforehand.
pub fn needs_selection(snippets: &[Snippet]) -> (r: bool)
    ensures
        r == exists|i: int| 0 <= i < snippets@.len() && asks_for_selection(#[trigger] snippets@[i]),
        r == any_asks_for_selection(snippets@),
{
    let mark = text::to_chars("{{selection}}");
    let mut i: usize = 0;
    while i < snippets.len()
        invariant
            i <= snippets.len(),
            mark@ == "{{selection}}"@,
            forall|j: int| 0 <= j < i ==> !asks_for_selection(#[trigger] snippets@[j]),
        decreases snippets.len() - i,
    {
        if snippets[i].is_dynamic {
            let e = text::to_chars(snippets[i].expansion.as_str());
            if text::find(e.as_slice(), mark.as_slice()).is_some() {
                assert(asks_for_selection(snippets@[i as int]));
                return true;
            }
        }
        i += 1;
    }
    false
}

/// A transcript as it goes to the user.
#[derive(Debug, Clone)]
pub struct Rewritten {
    pub text: String,
    /// The text goes to the clipboard and is not pasted.
    pub clipboard_only: bool,
    pub code_mode: bool,
}

/// What becomes of a draft: its output mode is applied, and what the
/// recogniser added of its own is removed.
pub open spec fn polished(d: commands::Draft, mode: Mode, case: CodeCase) -> Seq<char> {
    scrub::scrubbed(
        scrub::collapsed(
            postprocess::postprocessed(
                text::trimmed_end(Class::WhiteSpace, d.out),
                mode,
                d.code_mode,
                case,
            ),
        ),
    )
}

/// Whether `r` is what can become of a transcript: corrections are put in,
/// commands carried out and snippets expanded, and the draft is polished.
pub open spec fn rewritten<F: Fn(&str) -> Option<String>>(
    resolve: F,
    cleaned: Seq<char>,
    rows: Seq<CorrectionRow>,
    snippets: Seq<Snippet>,
    mode: Mode,
    case: CodeCase,
    r: Rewritten,
) -> bool {
    let c = replacements::corrected(cleaned, rows);
    let steps = commands::steps(c, snippets);
    exists|expansions: Seq<Seq<char>>| #[trigger]
        commands::expanded(resolve, snippets, steps, expansions) && {
            let d = commands::walked(text::words(c), steps, expansions);
            &&& r.text@ == polished(d, mode, case)
            &&& r.clipboard_only == d.clipboard_only
            &&& r.code_mode == d.code_mode
        }
}

/// Rewrites a transcript: learned corrections are put in, then commands are
/// carried out and snippets expanded, then the output mode is applied, and
/// last go words said twice and phrases heard in silence.
pub fn rewrite<F: Fn(&str) -> Option<String>>(
    cleaned: &str,
    rows: &[CorrectionRow],
    snippets: &[Snippet],
    resolve_var: &F,
    mode: Mode,
    case: CodeCase,
) -> (r: Rewritten)
    requires
        forall|k: &str| call_requires(*resolve_var, (k,)),
    ensures
        rewritten(*resolve_var, cleaned@, rows@, snippets@, mode, case, r),
{
    let corrected = replacements::apply_replacements(cleaned, rows);
    let said = commands::apply_voice_commands_with_snippets(
        corrected.as_str(),
        snippets,
        resolve_var,
    );
    let shaped = postprocess::apply(said.text.as_str(), mode, said.code_mode, case);
    let once = scrub::collapse_repeats(shaped.as_str());
    let text = scrub::scrub_hallucinations(once.as_str());
    Rewritten { text, clipboard_only: said.clipboard_only, code_mode: said.code_mode }
}

/// What is done with the text.
#[derive(Debug, Clone, Copy, PartialEq, Eq, Structural)]
pub enum Delivery {
    Nothing,
    Clipboard,
    Paste,
}

/// What is done with the text: none is left alone, one that was asked for on
/// the clipboard goes there, any other is pasted.
pub fn delivery(text: &str, clipboard_only: bool) -> (r: Delivery)
    ensures
        r == (if text@.len() == 0 {
            Delivery::Nothing
        } else if clipboard_only {
            Delivery::Clipboard
        } else {
            Delivery::Paste
        }),
{
    if text.is_empty() {
        Delivery::Nothing
    } else if clipboard_only {
        Delivery::Clipboard
    } else {
        Delivery::Paste
    }
}

/// What is kept of a dictation.
#[derive(Debug, Clone, Copy, PartialEq, Eq, Structural)]
pub enum Keeping {
    /// The transcription is stored, and the recording with it if there is one.
    Store,
    /// Nothing is stored, and a recording on disk is removed.
    DropClip,
    /// Nothing is stored, and there is nothing to remove.
    Nothing,
}

/// Whether a dictation is stored: where the user wants that, there is a text,
/// and learning is not off for the app.
pub open spec fn stores(save_transcriptions: bool, text: Seq<char>, app_disabled: bool) -> bool {
    save_transcriptions && text.len() > 0 && !app_disabled
}

/// What is kept of a dictation. A recording that no row would point at goes.
pub fn keeping(settings: &Settings, text: &str, app_disabled: bool, has_clip: bool) -> (r: Keeping)
    ensures
        r == (if stores(settings.save_transcriptions, text@, app_disabled) {
            Keeping::Store
        } else if has_clip {
            Keeping::DropClip
        } else {
            Keeping::Nothing
        }),
{
    if settings.save_transcriptions && !text.is_empty() && !app_disabled {
        Keeping::Store
    } else if has_clip {
        Keeping::DropClip
    } else {
        Keeping::Nothing
    }
}

/// Whether the user's edits of a text are watched: where it was stored, and
/// pasted rather than left on the clipboard.
pub fn watches_edits(stored: bool, clipboard_only: bool) -> (r: bool)
    ensures
        r == (stored && !clipboard_only),
{
    stored && !clipboard_only
}

/// With saving off, or learning off for the app, nothing is ever stored.
pub proof fn law_nothing_stored_against_the_users_will(
    save_transcriptions: bool,
    text: Seq<char>,
    app_disabled: bool,
)
    requires
        !save_transcriptions || app_disabled,
    ensures
        !stores(save_transcriptions, text, app_disabled),
{
}

/// A profile that was turned off has no say in a dictation: prompt, model and
/// output are those of an app without a profile.
pub proof fn law_disabled_profile_has_no_say(
    p: AppProfileRow,
    initial_prompt: Seq<char>,
    terms: Seq<Seq<char>>,
    settings_model: Seq<char>,
)
    requires
        !p.enabled,
    ensures
        prompt_for(Some(p), initial_prompt, terms) == prompt_for(None, initial_prompt, terms),
        model_for(Some(p), settings_model) == model_for(None, settings_model),
        mode_of(Some(p)) == mode_of(None),
        case_of(Some(p)) == case_of(None),
{
}

/// What a recording is transcribed with.
#[derive(Debug, Clone)]
pub struct Listening {
    pub engine: Engine,
    pub model: String,
    pub prompt: String,
}

/// The terms that are offered, where the app is known; else none.
pub open spec fn terms_for(
    app: Option<AppContext>,
    app_terms: Seq<Seq<char>>,
    common_terms: Seq<Seq<char>>,
    corrections: Seq<Seq<char>>,
) -> Seq<Seq<char>> {
    if app is Some {
        offered_terms(app_terms, common_terms, corrections)
    } else {
        Seq::empty()
    }
}

/// What a recording is transcribed with, for the app that has the focus and
/// its profile, if it has one. An engine that is not known is an error.
pub fn listening(
    engine_name: &str,
    settings: &Settings,
    app: &Option<AppContext>,
    profile: &Option<AppProfileRow>,
    app_terms: &[String],
    common_terms: &[String],
    corrections: &[String],
) -> (r: Result<Listening, String>)
    ensures
        match r {
            Ok(l) => {
                &&& l.engine == Engine::Local && engine_name@ == "local"@ || l.engine
                    == Engine::Cloud && engine_name@ == "cloud"@
                &&& l.model@ == model_for(*profile, settings.whisper_model@)
                &&& l.prompt@ == prompt_for(
                    *profile,
                    settings.initial_prompt@,
                    terms_for(
                        *app,
                        text::texts(app_terms@),
                        text::texts(common_terms@),
                        text::texts(corrections@),
                    ),
                )
            },
            Err(e) => engine_name@ != "local"@ && engine_name@ != "cloud"@ && e@
                == "Unknown engine: "@ + engine_name@,
        },
{
    let engine = match Engine::from_name(engine_name) {
        Ok(e) => e,
        Err(m) => {
            return Err(m);
        },
    };
    let model = effective_model(profile, settings.whisper_model.as_str());
    let prompt = if app.is_some() {
        dictation_prompt(
            profile,
            settings.initial_prompt.as_str(),
            app_terms,
            common_terms,
            corrections,
        )
    } else {
        let none: Vec<String> = Vec::new();
        assert(offered_terms(text::texts(none@), text::texts(none@), text::texts(none@))
            =~= Seq::empty());
        dictation_prompt(
            profile,
            settings.initial_prompt.as_str(),
            none.as_slice(),
            none.as_slice(),
            none.as_slice(),
        )
    };
    Ok(Listening { engine, model, prompt })
}

/// How a transcript is shaped.
#[derive(Debug, Clone)]
pub struct Shaping {
    /// The app whose corrections are put in; none where none are.
    pub corrections_of: Option<String>,
    pub mode: Mode,
    pub case: CodeCase,
}

/// The app whose corrections are put into a text.
pub open spec fn corrections_of(
    app: Option<AppContext>,
    profile: Option<AppProfileRow>,
    cleaned: Seq<char>,
) -> Option<Seq<char>> {
    match app {
        Some(a) => if (in_force(profile) matches Some(p) ==> p.auto_apply_replacements)
            && cleaned.len() > 0 {
            Some(a.bundle_id@)
        } else {
            None
        },
        None => None,
    }
}

/// How a transcript is shaped for the app that has the focus.
pub fn shaping(app: &Option<AppContext>, profile: &Option<AppProfileRow>, cleaned: &str) -> (r:
    Shaping)
    ensures
        text::opt_text(r.corrections_of) == corrections_of(*app, *profile, cleaned@),
        r.mode == mode_of(*profile),
        r.case == case_of(*profile),
{
    let (mode, case) = output_modes(profile);
    let corrections_of = match app {
        Some(a) => if applies_replacements(profile) && !cleaned.is_empty() {
            Some(a.bundle_id.clone())
        } else {
            None
        },
        None => None,
    };
    Shaping { corrections_of, mode, case }
}

/// How a dictation ends.
#[derive(Debug, Clone, Copy, PartialEq, Eq, Structural)]
pub struct Ending {
    pub delivery: Delivery,
    pub keeping: Keeping,
    /// The user's edits are watched, once the transcription is stored.
    pub watch: bool,
}

/// How a dictation ends: where the text goes, what is kept, and whether the
/// user's edits of it are watched.
pub fn ending(
    settings: &Settings,
    profile: &Option<AppProfileRow>,
    text: &str,
    clipboard_only: bool,
    has_clip: bool,
) -> (r: Ending)
    ensures
        r.delivery == (if text@.len() == 0 {
            Delivery::Nothing
        } else if clipboard_only {
            Delivery::Clipboard
        } else {
            Delivery::Paste
        }),
        r.keeping == (if stores(settings.save_transcriptions, text@, disabled(*profile)) {
            Keeping::Store
        } else if has_clip {
            Keeping::DropClip
        } else {
            Keeping::Nothing
        }),
        r.watch == (r.keeping == Keeping::Store && r.delivery == Delivery::Paste),
{
    let delivery = delivery(text, clipboard_only);
    let keeping = keeping(settings, text, app_disabled(profile), has_clip);
    let watch = watches_edits(keeping == Keeping::Store, clipboard_only);
    Ending { delivery, keeping, watch }
}

/// Where a recording is kept: under the time it was made, in a directory of
/// its own.
pub fn clip_path(app_dir: &str, separator: char, unix_ms: u64) -> (r: String)
    ensures
        r@ == settings::in_directory(
            settings::in_directory(app_dir@, separator, "audio"@),
            separator,
            text::decimal(unix_ms as nat) + ".wav"@,
        ),
{
    let dir = settings::join_path(app_dir, separator, "audio");
    let name = text::concat(text::decimal_text(unix_ms).as_str(), ".wav");
    settings::join_path(dir.as_str(), separator, name.as_str())
}

/// The row of a dictation.
pub fn transcription_row<'a>(
    created_at: i64,
    audio_path: Option<&'a str>,
    raw_text: &'a str,
    cleaned_text: &'a str,
    app: &'a Option<AppContext>,
    model: &'a str,
    duration_ms: i64,
    latency_ms: i64,
    source: &'a str,
) -> (r: NewTranscription<'a>)
    ensures
        r.created_at == created_at,
        r.audio_path == audio_path,
        r.raw_text == raw_text,
        r.cleaned_text == cleaned_text,
        text::opt_str(r.app_bundle_id) == (match *app {
            Some(a) => Some(a.bundle_id@),
            None => None,
        }),
        text::opt_str(r.app_title) == (match *app {
            Some(a) => text::opt_text(a.window_title),
            None => None,
        }),
        r.model == model,
        r.duration_ms == duration_ms,
        r.latency_ms == latency_ms,
        r.source == source,
{
    let app_bundle_id = match app {
        Some(a) => Some(a.bundle_id.as_str()),
        None => None,
    };
    let app_title = match app {
        Some(a) => match &a.window_title {
            Some(t) => Some(t.as_str()),
            None => None,
        },
        None => None,
    };
    NewTranscription {
        created_at,
        audio_path,
        raw_text,
        cleaned_text,
        app_bundle_id,
        app_title,
        model,
        duration_ms,
        latency_ms,
        source,
    }
}

proof fn lemma_joined_words_are_one_line(words: Seq<Seq<char>>)
    requires
        forall|j: int, i: int|
            0 <= j < words.len() && 0 <= i < words[j].len() ==> !Class::WhiteSpace.has(
                #[trigger] words[j][i],
            ),
    ensures
        forall|i: int|
            0 <= i < text::joined(words, seq![' ']).len() ==> #[trigger] text::joined(
                words,
                seq![' '],
            )[i] != '\n',
    decreases words.len(),
{
    let t = text::joined(words, seq![' ']);
    if words.len() > 1 {
        let d = words.drop_last();
        assert forall|j: int, i: int| 0 <= j < d.len() && 0 <= i < d[j].len() implies !Class::WhiteSpace.has(
            #[trigger] d[j][i],
        ) by {
            assert(words[j][i] == d[j][i]);
        }
        lemma_joined_words_are_one_line(d);
        let before = text::joined(d, seq![' ']);
        let n = words.len() - 1;
        assert forall|i: int| 0 <= i < t.len() implies #[trigger] t[i] != '\n' by {
            if i < before.len() {
                assert(t[i] == before[i]);
            } else if i > before.len() {
                assert(t[i] == words[n][i - before.len() - 1]);
            }
        }
    } else if words.len() == 1 {
        assert forall|i: int| 0 <= i < t.len() implies #[trigger] t[i] != '\n' by {
            assert(t[i] == words[0][i]);
        }
    }
}

/// Plain speech comes out as it was heard: without commands, snippets,
/// corrections, repeated words and phrases heard in silence, the words are
/// written with one space between each two, and pasted.
pub proof fn law_plain_dictation_passes_through<F: Fn(&str) -> Option<String>>(
    resolve: F,
    cleaned: Seq<char>,
    rows: Seq<CorrectionRow>,
    snippets: Seq<Snippet>,
    case: CodeCase,
    r: Rewritten,
)
    requires
        rewritten(resolve, cleaned, rows, snippets, Mode::Default, case, r),
        replacements::corrected(cleaned, rows) == cleaned,
        commands::plain_speech(cleaned, snippets),
        scrub::without_repeats(scrub::chunks(text::joined(text::words(cleaned), seq![' ']))),
        !scrub::ends_in_hallucination(text::joined(text::words(cleaned), seq![' '])),
    ensures
        r.text@ == text::joined(text::words(cleaned), seq![' ']),
        !r.clipboard_only,
        !r.code_mode,
{
    let steps = commands::steps(cleaned, snippets);
    let expansions = choose|expansions: Seq<Seq<char>>| #[trigger]
        commands::expanded(resolve, snippets, steps, expansions) && {
            let d = commands::walked(text::words(cleaned), steps, expansions);
            &&& r.text@ == polished(d, Mode::Default, case)
            &&& r.clipboard_only == d.clipboard_only
            &&& r.code_mode == d.code_mode
        };
    commands::lemma_plain_draft(cleaned, snippets, expansions);
    let t = text::joined(text::words(cleaned), seq![' ']);
    scrub::law_collapse_keeps_text_without_repeats(t);
    text::lemma_fields(Class::WhiteSpace, cleaned);
    lemma_joined_words_are_one_line(text::words(cleaned));
    scrub::law_one_line_stays(t);
}

/// Once its commands were carried out a dictation only loses characters,
/// unless it becomes an identifier: nothing is written that was not there.
pub proof fn law_polish_only_removes(d: commands::Draft, mode: Mode, case: CodeCase)
    requires
        mode != Mode::Code || !d.code_mode,
    ensures
        text::left_of(polished(d, mode, case), d.out),
{
    let out = text::trimmed_end(Class::WhiteSpace, d.out);
    let shaped = postprocess::postprocessed(out, mode, d.code_mode, case);
    text::lemma_trimmed_end(Class::WhiteSpace, d.out);
    text::lemma_left_of_prefix(out, d.out);
    if mode == Mode::Plain {
        postprocess::law_plain_only_removes(out, d.code_mode, case);
    } else {
        text::lemma_left_of_itself(out);
    }
    text::lemma_left_of_left(shaped, out, d.out);
    scrub::law_collapse_only_removes(shaped);
    text::lemma_left_of_left(scrub::collapsed(shaped), shaped, d.out);
    scrub::law_scrub_only_removes(scrub::collapsed(shaped));
    text::lemma_left_of_left(polished(d, mode, case), scrub::collapsed(shaped), d.out);
}

} // verus!
