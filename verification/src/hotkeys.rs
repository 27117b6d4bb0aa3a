//! Global hotkeys: which may be set, what pressing one does, and how a set of
//! them is put in place of another.
use vstd::prelude::*;
use crate::db::RecentTranscription;
use crate::recorder::RecordingState;
use crate::settings::Settings;
use crate::text;
use crate::text::Class;

verus! {

/// Whether the three hotkeys are different from one another.
pub open spec fn all_different(s: Settings) -> bool {
    &&& s.toggle_hotkey@ != s.push_to_talk_hotkey@
    &&& s.toggle_hotkey@ != s.fixup_hotkey@
    &&& s.push_to_talk_hotkey@ != s.fixup_hotkey@
}

/// Whether the hotkeys in settings can be told apart.
pub fn check_hotkeys(settings: &Settings) -> (r: Result<(), String>)
    ensures
        match r {
            Ok(()) => all_different(*settings),
            Err(e) => !all_different(*settings) && e@
                == "Toggle, push-to-talk, and fix-up hotkeys must all be different"@,
        },
{
    if settings.toggle_hotkey == settings.push_to_talk_hotkey || settings.toggle_hotkey
        == settings.fixup_hotkey || settings.push_to_talk_hotkey == settings.fixup_hotkey {
        return Err("Toggle, push-to-talk, and fix-up hotkeys must all be different".to_owned());
    }
    Ok(())
}

/// What pressing the toggle key does.
#[derive(Debug, Clone, Copy, PartialEq, Eq, Structural)]
pub enum ToggleStep {
    Start,
    Stop,
}

/// What pressing the toggle key does in a state of the recorder.
pub fn toggle_step(state: RecordingState) -> (r: Result<ToggleStep, String>)
    ensures
        match r {
            Ok(s) => (s == ToggleStep::Start && state == RecordingState::Ready) || (s
                == ToggleStep::Stop && state == RecordingState::Recording),
            Err(e) => state == RecordingState::Transcribing && e@
                == "Currently transcribing, please wait"@,
        },
{
    match state {
        RecordingState::Ready => Ok(ToggleStep::Start),
        RecordingState::Recording => Ok(ToggleStep::Stop),
        RecordingState::Transcribing => Err("Currently transcribing, please wait".to_owned()),
    }
}

/// Whether a key event is acted upon by a hotkey that fires when pressed: not
/// while the user is choosing hotkeys.
pub fn fires(choosing_hotkeys: bool, pressed: bool) -> (r: bool)
    ensures
        r == (!choosing_hotkeys && pressed),
{
    !choosing_hotkeys && pressed
}

/// What a push-to-talk event does.
#[derive(Debug, Clone, Copy, PartialEq, Eq, Structural)]
pub enum PushToTalk {
    Ignore,
    Start,
    Stop,
}

/// What a push-to-talk event does in a state of the recorder.
pub open spec fn push_to_talk(choosing: bool, pressed: bool, state: RecordingState) -> PushToTalk {
    if choosing {
        PushToTalk::Ignore
    } else if pressed && state == RecordingState::Ready {
        PushToTalk::Start
    } else if !pressed && state == RecordingState::Recording {
        PushToTalk::Stop
    } else {
        PushToTalk::Ignore
    }
}

/// What a push-to-talk event does: the key starts a recording when it is
/// pressed and ends it when it is let go.
pub fn push_to_talk_step(choosing_hotkeys: bool, pressed: bool, state: RecordingState) -> (r:
    PushToTalk)
    ensures
        r == push_to_talk(choosing_hotkeys, pressed, state),
{
    if choosing_hotkeys {
        return PushToTalk::Ignore;
    }
    match state {
        RecordingState::Ready => if pressed {
            PushToTalk::Start
        } else {
            PushToTalk::Ignore
        },
        RecordingState::Recording => if pressed {
            PushToTalk::Ignore
        } else {
            PushToTalk::Stop
        },
        RecordingState::Transcribing => PushToTalk::Ignore,
    }
}

/// Whether two settings are the same but for the silence that ends a
/// recording.
pub open spec fn same_but_silence(a: Settings, b: Settings) -> bool {
    &&& a.microphone@ == b.microphone@
    &&& a.whisper_model@ == b.whisper_model@
    &&& a.model_dir@ == b.model_dir@
    &&& a.toggle_hotkey@ == b.toggle_hotkey@
    &&& a.push_to_talk_hotkey@ == b.push_to_talk_hotkey@
    &&& a.language@ == b.language@
    &&& a.initial_prompt@ == b.initial_prompt@
    &&& a.save_transcriptions == b.save_transcriptions
    &&& a.keep_audio_clips == b.keep_audio_clips
    &&& a.fixup_hotkey@ == b.fixup_hotkey@
    &&& a.streaming_captions == b.streaming_captions
}

/// The settings of a push-to-talk recording, which silence does not end.
pub fn push_to_talk_settings(settings: &Settings) -> (r: Settings)
    ensures
        same_but_silence(r, *settings),
        r.vad_silence_ms == 0,
{
    Settings {
        microphone: settings.microphone.clone(),
        whisper_model: settings.whisper_model.clone(),
        model_dir: settings.model_dir.clone(),
        toggle_hotkey: settings.toggle_hotkey.clone(),
        push_to_talk_hotkey: settings.push_to_talk_hotkey.clone(),
        language: settings.language.clone(),
        initial_prompt: settings.initial_prompt.clone(),
        save_transcriptions: settings.save_transcriptions,
        keep_audio_clips: settings.keep_audio_clips,
        fixup_hotkey: settings.fixup_hotkey.clone(),
        streaming_captions: settings.streaming_captions,
        vad_silence_ms: 0,
    }
}

/// The hotkeys that are in place.
#[derive(Debug, Clone, Default)]
pub struct RegisteredHotkeys {
    pub toggle_hotkey: Option<String>,
    pub push_to_talk_hotkey: Option<String>,
    pub fixup_hotkey: Option<String>,
}

/// The hotkeys that are in place, as texts.
#[verifier::ext_equal]
pub struct Registered {
    pub toggle: Option<Seq<char>>,
    pub push_to_talk: Option<Seq<char>>,
    pub fixup: Option<Seq<char>>,
}

impl View for RegisteredHotkeys {
    type V = Registered;

    open spec fn view(&self) -> Registered {
        Registered {
            toggle: text::opt_text(self.toggle_hotkey),
            push_to_talk: text::opt_text(self.push_to_talk_hotkey),
            fixup: text::opt_text(self.fixup_hotkey),
        }
    }
}

/// What a hotkey is for.
#[derive(Debug, Clone, Copy, PartialEq, Eq, Structural)]
pub enum HotkeyRole {
    Toggle,
    PushToTalk,
    Fixup,
}

/// One change to the hotkeys that the system knows.
#[derive(Debug, Clone)]
pub enum HotkeyChange {
    Register(HotkeyRole, String),
    Unregister(String),
}

/// One change to the hotkeys that the system knows, as texts.
pub enum KeyChange {
    Register(HotkeyRole, Seq<char>),
    Unregister(Seq<char>),
}

pub open spec fn change_text(c: HotkeyChange) -> KeyChange {
    match c {
        HotkeyChange::Register(role, k) => KeyChange::Register(role, k@),
        HotkeyChange::Unregister(k) => KeyChange::Unregister(k@),
    }
}

pub open spec fn change_texts(cs: Seq<HotkeyChange>) -> Seq<KeyChange> {
    cs.map_values(|c: HotkeyChange| change_text(c))
}

/// The change that puts a key back, if there was one.
pub open spec fn restoring(role: HotkeyRole, key: Option<Seq<char>>) -> Seq<KeyChange> {
    match key {
        Some(k) => seq![KeyChange::Register(role, k)],
        None => Seq::empty(),
    }
}

/// The change that takes a key away, if there is one.
pub open spec fn removing(key: Option<Seq<char>>) -> Seq<KeyChange> {
    match key {
        Some(k) => seq![KeyChange::Unregister(k)],
        None => Seq::empty(),
    }
}

fn clone_key(k: &Option<String>) -> (r: Option<String>)
    ensures
        text::opt_text(r) == text::opt_text(*k),
{
    match k {
        Some(s) => Some(s.clone()),
        None => None,
    }
}

fn push_change(out: &mut Vec<HotkeyChange>, c: HotkeyChange)
    ensures
        change_texts(final(out)@) == change_texts(old(out)@).push(change_text(c)),
{
    let ghost before = out@;
    out.push(c);
    assert(change_texts(out@) =~= change_texts(before).push(change_text(c)));
}

fn push_restore(out: &mut Vec<HotkeyChange>, role: HotkeyRole, key: &Option<String>)
    ensures
        change_texts(final(out)@) == change_texts(old(out)@) + restoring(role, text::opt_text(*key)),
{
    let ghost before = change_texts(out@);
    if let Some(k) = key {
        push_change(out, HotkeyChange::Register(role, k.clone()));
        assert(change_texts(out@) =~= before + seq![KeyChange::Register(role, k@)]);
    } else {
        assert(before + Seq::<KeyChange>::empty() =~= before);
    }
}

fn push_removal(out: &mut Vec<HotkeyChange>, key: &Option<String>)
    ensures
        change_texts(final(out)@) == change_texts(old(out)@) + removing(text::opt_text(*key)),
{
    let ghost before = change_texts(out@);
    if let Some(k) = key {
        push_change(out, HotkeyChange::Unregister(k.clone()));
        assert(change_texts(out@) =~= before + seq![KeyChange::Unregister(k@)]);
    } else {
        assert(before + Seq::<KeyChange>::empty() =~= before);
    }
}

/// What comes first: the hotkeys that are in place are taken away.
pub fn clear_hotkeys(old: &RegisteredHotkeys) -> (r: Vec<HotkeyChange>)
    ensures
        change_texts(r@) == removing(old@.toggle) + removing(old@.push_to_talk) + removing(
            old@.fixup,
        ),
{
    let mut out: Vec<HotkeyChange> = Vec::new();
    assert(change_texts(out@) =~= Seq::empty());
    push_removal(&mut out, &old.toggle_hotkey);
    assert(change_texts(out@) =~= removing(old@.toggle));
    push_removal(&mut out, &old.push_to_talk_hotkey);
    push_removal(&mut out, &old.fixup_hotkey);
    out
}

/// What follows where the new toggle key could not be registered: the old
/// toggle and push-to-talk keys come back. The fix-up key stays away.
pub fn after_toggle_failed(old: &RegisteredHotkeys) -> (r: (RegisteredHotkeys, Vec<HotkeyChange>))
    ensures
        r.0@ == (Registered { fixup: None, ..old@ }),
        change_texts(r.1@) == restoring(HotkeyRole::Toggle, old@.toggle) + restoring(
            HotkeyRole::PushToTalk,
            old@.push_to_talk,
        ),
{
    let mut out: Vec<HotkeyChange> = Vec::new();
    assert(change_texts(out@) =~= Seq::empty());
    push_restore(&mut out, HotkeyRole::Toggle, &old.toggle_hotkey);
    assert(change_texts(out@) =~= restoring(HotkeyRole::Toggle, old@.toggle));
    push_restore(&mut out, HotkeyRole::PushToTalk, &old.push_to_talk_hotkey);
    (
        RegisteredHotkeys {
            toggle_hotkey: clone_key(&old.toggle_hotkey),
            push_to_talk_hotkey: clone_key(&old.push_to_talk_hotkey),
            fixup_hotkey: None,
        },
        out,
    )
}

/// What follows where the new push-to-talk key could not be registered: the
/// new toggle key goes, and the old keys come back.
pub fn after_push_to_talk_failed(old: &RegisteredHotkeys, new_toggle: &str) -> (r: (
    RegisteredHotkeys,
    Vec<HotkeyChange>,
))
    ensures
        r.0@ == old@,
        change_texts(r.1@) == seq![KeyChange::Unregister(new_toggle@)] + restoring(
            HotkeyRole::Toggle,
            old@.toggle,
        ) + restoring(HotkeyRole::PushToTalk, old@.push_to_talk) + restoring(
            HotkeyRole::Fixup,
            old@.fixup,
        ),
{
    let mut out: Vec<HotkeyChange> = Vec::new();
    assert(change_texts(out@) =~= Seq::empty());
    push_change(&mut out, HotkeyChange::Unregister(new_toggle.to_owned()));
    assert(change_texts(out@) =~= seq![KeyChange::Unregister(new_toggle@)]);
    push_restore(&mut out, HotkeyRole::Toggle, &old.toggle_hotkey);
    push_restore(&mut out, HotkeyRole::PushToTalk, &old.push_to_talk_hotkey);
    push_restore(&mut out, HotkeyRole::Fixup, &old.fixup_hotkey);
    (
        RegisteredHotkeys {
            toggle_hotkey: clone_key(&old.toggle_hotkey),
            push_to_talk_hotkey: clone_key(&old.push_to_talk_hotkey),
            fixup_hotkey: clone_key(&old.fixup_hotkey),
        },
        out,
    )
}

/// Whether settings have a fix-up key to register.
pub fn wants_fixup(settings: &Settings) -> (r: bool)
    ensures
        r == (settings.fixup_hotkey@.len() > 0),
{
    !settings.fixup_hotkey.as_str().is_empty()
}

/// The hotkeys that are in place once the toggle and push-to-talk keys of the
/// settings are registered. A fix-up key that could not be is done without.
pub fn registered_hotkeys(settings: &Settings, fixup_registered: bool) -> (r: RegisteredHotkeys)
    ensures
        r@ == (Registered {
            toggle: Some(settings.toggle_hotkey@),
            push_to_talk: Some(settings.push_to_talk_hotkey@),
            fixup: if fixup_registered && settings.fixup_hotkey@.len() > 0 {
                Some(settings.fixup_hotkey@)
            } else {
                None
            },
        }),
{
    let fixup_hotkey = if fixup_registered && wants_fixup(settings) {
        Some(settings.fixup_hotkey.clone())
    } else {
        None
    };
    RegisteredHotkeys {
        toggle_hotkey: Some(settings.toggle_hotkey.clone()),
        push_to_talk_hotkey: Some(settings.push_to_talk_hotkey.clone()),
        fixup_hotkey,
    }
}

/// The keys that the system knows after changes that all go through.
pub open spec fn known_after(known: Set<Seq<char>>, changes: Seq<KeyChange>) -> Set<Seq<char>>
    decreases changes.len(),
{
    if changes.len() == 0 {
        known
    } else {
        let before = known_after(known, changes.drop_last());
        match changes.last() {
            KeyChange::Register(_, k) => before.insert(k),
            KeyChange::Unregister(k) => before.remove(k),
        }
    }
}

pub open spec fn key_set(k: Option<Seq<char>>) -> Set<Seq<char>> {
    match k {
        Some(k) => set![k],
        None => Set::empty(),
    }
}

/// The keys of a set of hotkeys.
pub open spec fn keys_of(r: Registered) -> Set<Seq<char>> {
    key_set(r.toggle).union(key_set(r.push_to_talk)).union(key_set(r.fixup))
}

proof fn lemma_known_after_append(known: Set<Seq<char>>, a: Seq<KeyChange>, b: Seq<KeyChange>)
    ensures
        known_after(known, a + b) == known_after(known_after(known, a), b),
    decreases b.len(),
{
    if b.len() == 0 {
        assert(a + b =~= a);
    } else {
        assert((a + b).drop_last() =~= a + b.drop_last());
        lemma_known_after_append(known, a, b.drop_last());
    }
}

proof fn lemma_known_after_restoring(known: Set<Seq<char>>, role: HotkeyRole, k: Option<Seq<char>>)
    ensures
        known_after(known, restoring(role, k)) == known.union(key_set(k)),
{
    reveal_with_fuel(known_after, 2);
    match k {
        Some(k) => {
            assert(restoring(role, Some(k)).drop_last() =~= Seq::empty());
            assert(known.insert(k) =~= known.union(set![k]));
        },
        None => {
            assert(known =~= known.union(Set::empty()));
        },
    }
}

/// Where the push-to-talk key could not be registered, the system knows the
/// old keys again and no other, and they are the ones that are noted.
pub proof fn law_failed_push_to_talk_restores(old: Registered, new_toggle: Seq<char>)
    ensures
        known_after(
            set![new_toggle],
            seq![KeyChange::Unregister(new_toggle)] + restoring(HotkeyRole::Toggle, old.toggle)
                + restoring(HotkeyRole::PushToTalk, old.push_to_talk) + restoring(
                HotkeyRole::Fixup,
                old.fixup,
            ),
        ) == keys_of(old),
{
    let none = Set::<Seq<char>>::empty();
    let a = seq![KeyChange::Unregister(new_toggle)];
    let b = restoring(HotkeyRole::Toggle, old.toggle);
    let c = restoring(HotkeyRole::PushToTalk, old.push_to_talk);
    let d = restoring(HotkeyRole::Fixup, old.fixup);
    let start = set![new_toggle];
    reveal_with_fuel(known_after, 2);
    assert(a.drop_last() =~= Seq::empty());
    assert(known_after(start, a) =~= none);
    lemma_known_after_append(start, a + b + c, d);
    lemma_known_after_append(start, a + b, c);
    lemma_known_after_append(start, a, b);
    lemma_known_after_restoring(none, HotkeyRole::Toggle, old.toggle);
    let k1 = known_after(start, a + b);
    lemma_known_after_restoring(k1, HotkeyRole::PushToTalk, old.push_to_talk);
    let k2 = known_after(start, a + b + c);
    lemma_known_after_restoring(k2, HotkeyRole::Fixup, old.fixup);
    assert(none.union(key_set(old.toggle)) =~= key_set(old.toggle));
}

/// Where the toggle key could not be registered, the system knows the keys
/// that are noted and no other.
pub proof fn law_failed_toggle_restores(old: Registered)
    ensures
        known_after(
            Set::empty(),
            restoring(HotkeyRole::Toggle, old.toggle) + restoring(
                HotkeyRole::PushToTalk,
                old.push_to_talk,
            ),
        ) == keys_of(Registered { fixup: None, ..old }),
{
    let none = Set::<Seq<char>>::empty();
    let a = restoring(HotkeyRole::Toggle, old.toggle);
    let b = restoring(HotkeyRole::PushToTalk, old.push_to_talk);
    lemma_known_after_append(none, a, b);
    lemma_known_after_restoring(none, HotkeyRole::Toggle, old.toggle);
    lemma_known_after_restoring(
        known_after(none, a),
        HotkeyRole::PushToTalk,
        old.push_to_talk,
    );
    assert(none.union(key_set(old.toggle)) =~= key_set(old.toggle));
    assert(keys_of(Registered { fixup: None, ..old }) =~= key_set(old.toggle).union(
        key_set(old.push_to_talk),
    ));
}

/// The text that the fix-up key is used on, if any is selected.
pub open spec fn selected(captured: Option<Seq<char>>) -> Option<Seq<char>> {
    match captured {
        Some(s) => if text::trimmed(Class::WhiteSpace, s).len() > 0 {
            Some(text::trimmed(Class::WhiteSpace, s))
        } else {
            None
        },
        None => None,
    }
}

/// The text that the fix-up key is used on: the selection, trimmed, unless it
/// is blank.
pub fn fixup_selection(captured: Option<&str>) -> (r: Option<String>)
    ensures
        text::opt_text(r) == selected(text::opt_str(captured)),
{
    match captured {
        Some(s) => {
            let cs = text::to_chars(s);
            let bare = text::trim(Class::WhiteSpace, cs.as_slice());
            if bare.len() > 0 {
                Some(text::to_text(bare))
            } else {
                None
            }
        },
        None => None,
    }
}

/// How far back a transcription may lie to be corrected: half an hour.
pub const FIXUP_WINDOW_SECS: i64 = 1800;

/// How many transcriptions are compared with a selection at most.
pub const FIXUP_CANDIDATES: i64 = 50;

/// The least ratio at which a selection belongs to a transcription: the
/// smallest single that is not below 0.6.
pub const FIXUP_MIN_RATIO: u32 = 0x3f19_999a;

/// The time from which on transcriptions can be corrected.
pub fn fixup_cutoff(now_unix: i64) -> (r: i64)
    requires
        now_unix >= 0,
    ensures
        r == now_unix - FIXUP_WINDOW_SECS,
{
    now_unix - FIXUP_WINDOW_SECS
}

/// What the fix-up window is opened with.
#[derive(Debug, Clone)]
pub enum FixupStart {
    Match { transcription: RecentTranscription, selection: String },
    NoSelection,
    NoMatch { selection: String },
}

/// What the fix-up window is opened with, given the selection and the
/// transcription that it belongs to.
pub fn fixup_start(selection: Option<String>, found: Option<RecentTranscription>) -> (r: FixupStart)
    ensures
        match selection {
            None => r is NoSelection,
            Some(s) => match found {
                Some(t) => r == (FixupStart::Match { transcription: t, selection: s }),
                None => r == (FixupStart::NoMatch { selection: s }),
            },
        },
{
    match selection {
        None => FixupStart::NoSelection,
        Some(selection) => match found {
            Some(transcription) => FixupStart::Match { transcription, selection },
            None => FixupStart::NoMatch { selection },
        },
    }
}

/// The time from which on usage is counted, for a number of days back. None,
/// or fewer, is from the beginning.
pub fn since_unix_secs(since_days: i64, now_unix: i64) -> (r: i64)
    ensures
        r == since(since_days, now_unix),
{
    if since_days <= 0 {
        return 0;
    }
    let span: i64 = if since_days > i64::MAX / 86_400 {
        i64::MAX
    } else {
        since_days * 86_400
    };
    if now_unix < i64::MIN + span {
        i64::MIN
    } else {
        now_unix - span
    }
}

/// The smaller of two numbers.
pub open spec fn at_most(x: int, most: int) -> int {
    if x > most {
        most
    } else {
        x
    }
}

/// The time from which on usage is counted, within the range of the clock.
pub open spec fn since(since_days: i64, now_unix: i64) -> int {
    if since_days <= 0 {
        0
    } else {
        let t = now_unix - at_most(since_days * 86_400, i64::MAX as int);
        if t < i64::MIN {
            i64::MIN as int
        } else {
            t
        }
    }
}

} // verus!
