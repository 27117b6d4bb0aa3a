//! The user's settings.
use vstd::prelude::*;
use crate::chars;
use crate::text;

verus! {

#[derive(Debug, Clone, PartialEq)]
pub struct Settings {
    pub microphone: String,
    pub whisper_model: String,
    /// Where models are kept; the app's own directory where this is blank.
    pub model_dir: String,
    pub toggle_hotkey: String,
    pub push_to_talk_hotkey: String,
    /// An ISO-639-1 code, or `auto`.
    pub language: String,
    /// Text that biases the recogniser towards the words in it.
    pub initial_prompt: String,
    /// Transcriptions are kept, to learn from.
    pub save_transcriptions: bool,
    /// Recordings are kept beside them.
    pub keep_audio_clips: bool,
    /// With text selected, this key teaches a correction.
    pub fixup_hotkey: String,
    /// Partial transcriptions are shown while the user speaks.
    pub streaming_captions: bool,
    /// After this much silence a recording ends by itself; 0 turns that off.
    pub vad_silence_ms: u32,
}

/// The silence that ends a recording, unless set otherwise.
pub fn default_vad_silence_ms() -> (r: u32)
    ensures
        r == 800,
{
    800
}

/// Whether settings are those that a new user has.
pub open spec fn is_default(s: Settings) -> bool {
    &&& s.microphone@ == "default"@
    &&& s.whisper_model@ == "medium.en"@
    &&& s.model_dir@ == Seq::<char>::empty()
    &&& s.toggle_hotkey@ == "CmdOrCtrl+Shift+Space"@
    &&& s.push_to_talk_hotkey@ == "CmdOrCtrl+Shift+Enter"@
    &&& s.language@ == "en"@
    &&& s.initial_prompt@ == Seq::<char>::empty()
    &&& s.save_transcriptions
    &&& !s.keep_audio_clips
    &&& s.fixup_hotkey@ == "CmdOrCtrl+Shift+Semicolon"@
    &&& !s.streaming_captions
    &&& s.vad_silence_ms == 800
}

impl Default for Settings {
    fn default() -> (r: Self)
        ensures
            is_default(r),
    {
        Settings {
            microphone: "default".to_owned(),
            whisper_model: "medium.en".to_owned(),
            model_dir: String::new(),
            toggle_hotkey: "CmdOrCtrl+Shift+Space".to_owned(),
            push_to_talk_hotkey: "CmdOrCtrl+Shift+Enter".to_owned(),
            language: "en".to_owned(),
            initial_prompt: String::new(),
            save_transcriptions: true,
            keep_audio_clips: false,
            fixup_hotkey: "CmdOrCtrl+Shift+Semicolon".to_owned(),
            streaming_captions: false,
            vad_silence_ms: default_vad_silence_ms(),
        }
    }
}

/// Whether a directory is a drive and nothing more, where paths have drives.
pub open spec fn bare_drive(dir: Seq<char>, separator: char) -> bool {
    separator == '\\' && dir.len() == 2 && chars::ascii_letter(dir[0]) && dir[1] == ':'
}

/// A name in a directory. Where the directory is not empty, does not end in a
/// separator and is no bare drive, a separator is put between them.
pub open spec fn in_directory(dir: Seq<char>, separator: char, name: Seq<char>) -> Seq<char> {
    if dir.len() == 0 || dir.last() == '/' || dir.last() == separator || bare_drive(
        dir,
        separator,
    ) {
        dir + name
    } else {
        dir.push(separator) + name
    }
}

pub fn join_path(dir: &str, separator: char, name: &str) -> (r: String)
    ensures
        r@ == in_directory(dir@, separator, name@),
{
    let mut out = text::to_chars(dir);
    let n = text::to_chars(name);
    let drive = separator == '\\' && out.len() == 2 && (('a' <= out[0] && out[0] <= 'z') || ('A'
        <= out[0] && out[0] <= 'Z')) && out[1] == ':';
    if out.len() > 0 && out[out.len() - 1] != '/' && out[out.len() - 1] != separator && !drive {
        out.push(separator);
    }
    text::append(&mut out, n.as_slice());
    text::to_text(out.as_slice())
}

/// The engine that a model belongs to.
pub open spec fn engine_of(model_id: Seq<char>) -> Seq<char> {
    if "parakeet"@.is_prefix_of(model_id) {
        "parakeet"@
    } else {
        "whisper"@
    }
}

/// The engine that a model belongs to: `parakeet` by its name, else `whisper`.
pub fn engine_for_model(model_id: &str) -> (r: &'static str)
    ensures
        r@ == engine_of(model_id@),
{
    let id = text::to_chars(model_id);
    let name = text::to_chars("parakeet");
    if text::starts_with(id.as_slice(), name.as_slice()) {
        "parakeet"
    } else {
        "whisper"
    }
}

/// Keys of the configuration file that nothing reads any more.
pub const LEGACY_KEYS: [&'static str; 8] = [
    "engine",
    "groqApiKey",
    "llmCleanup",
    "ollamaUrl",
    "ollamaModel",
    "ollamaTimeoutMs",
    "grammarCorrection",
    "grammarSkipAboveLogprob",
];

/// The keys under which settings are written.
pub const SETTINGS_KEYS: [&'static str; 12] = [
    "microphone",
    "whisperModel",
    "modelDir",
    "toggleHotkey",
    "pushToTalkHotkey",
    "language",
    "initialPrompt",
    "saveTranscriptions",
    "keepAudioClips",
    "fixupHotkey",
    "streamingCaptions",
    "vadSilenceMs",
];

/// Whether a key of the configuration file is one that nothing reads.
pub open spec fn legacy(key: Seq<char>) -> bool {
    exists|i: int| 0 <= i < LEGACY_KEYS@.len() && (#[trigger] LEGACY_KEYS@[i])@ == key
}

fn is_legacy(key: &str) -> (r: bool)
    ensures
        r == legacy(key@),
{
    let list = LEGACY_KEYS;
    let mut i: usize = 0;
    while i < list.len()
        invariant
            i <= list.len(),
            list == LEGACY_KEYS,
            forall|j: int| 0 <= j < i ==> (#[trigger] LEGACY_KEYS@[j])@ != key@,
        decreases list.len() - i,
    {
        assert(LEGACY_KEYS@[i as int] == list@[i as int]);
        if text::same_text(list[i], key) {
            return true;
        }
        i += 1;
    }
    false
}

/// Whether any of the keys is one that nothing reads.
pub open spec fn any_legacy(keys: Seq<String>) -> bool {
    exists|i: int| 0 <= i < keys.len() && legacy((#[trigger] keys[i])@)
}

/// Whether any of the keys of a configuration file is one that nothing reads.
pub fn has_legacy_keys(keys: &[String]) -> (r: bool)
    ensures
        r == exists|i: int| 0 <= i < keys@.len() && legacy((#[trigger] keys@[i])@),
        r == any_legacy(keys@),
{
    let mut i: usize = 0;
    while i < keys.len()
        invariant
            i <= keys.len(),
            forall|j: int| 0 <= j < i ==> !legacy((#[trigger] keys@[j])@),
        decreases keys.len() - i,
    {
        if is_legacy(keys[i].as_str()) {
            return true;
        }
        i += 1;
    }
    false
}

/// The keys of the object that a JSON text holds; none where it is not JSON or
/// holds something else.
pub uninterp spec fn json_keys(raw: Seq<char>) -> Option<Set<Seq<char>>>;

/// `serde_json::from_str` into a `Value`, and the `keys` of `as_object`: the
/// keys of the object that the text holds, named [`json_keys`], and nothing
/// where the text is not JSON or holds no object. The order of the keys is
/// left open.
#[verifier::external_body]
fn object_keys(raw: &str) -> (r: Option<Vec<String>>)
    ensures
        match r {
            Some(ks) => json_keys(raw@) == Some(text::texts(ks@).to_set()),
            None => json_keys(raw@) is None,
        },
{
    let value: serde_json::Value = serde_json::from_str(raw).ok()?;
    let object = value.as_object()?;
    Some(object.keys().cloned().collect())
}

/// Whether a configuration file with given keys is to be written again.
pub open spec fn outdated(keys: Option<Set<Seq<char>>>) -> bool {
    match keys {
        Some(ks) => exists|i: int|
            0 <= i < LEGACY_KEYS@.len() && ks.contains((#[trigger] LEGACY_KEYS@[i])@),
        None => false,
    }
}

/// A directory setting, or another directory where it is blank.
pub open spec fn directory_or(setting: Seq<char>, other: Seq<char>) -> Seq<char> {
    let t = text::trimmed(text::Class::WhiteSpace, setting);
    if t.len() == 0 {
        other
    } else {
        t
    }
}

impl Settings {
    /// Where the configuration file is.
    pub fn config_path(app_dir: &str, separator: char) -> (r: String)
        ensures
            r@ == in_directory(app_dir@, separator, "config.json"@),
    {
        join_path(app_dir, separator, "config.json")
    }

    /// The engine of the chosen model.
    pub fn engine(&self) -> (r: &'static str)
        ensures
            r@ == engine_of(self.whisper_model@),
    {
        engine_for_model(self.whisper_model.as_str())
    }

    /// The settings to use, given what the configuration file held: those that
    /// could be read from it, else those of a new user. The flag says that the
    /// file is to be written again, to rid it of keys that nothing reads.
    pub fn loaded(parsed: Option<Settings>, keys: Option<Vec<String>>) -> (r: (Settings, bool))
        ensures
            match parsed {
                Some(s) => r.0 == s,
                None => is_default(r.0),
            },
            r.1 == match keys {
                Some(ks) => exists|i: int| 0 <= i < ks@.len() && legacy((#[trigger] ks@[i])@),
                None => false,
            },
    {
        let rewrite = match &keys {
            Some(ks) => has_legacy_keys(ks.as_slice()),
            None => false,
        };
        match parsed {
            Some(s) => (s, rewrite),
            None => (Settings::default(), rewrite),
        }
    }

    /// The settings to use, given the text of the configuration file and the
    /// settings that could be read from it. The flag says that the file is to
    /// be written again.
    pub fn loaded_from(parsed: Option<Settings>, raw: Option<&str>) -> (r: (Settings, bool))
        ensures
            match parsed {
                Some(s) => r.0 == s,
                None => is_default(r.0),
            },
            r.1 == match raw {
                Some(s) => outdated(json_keys(s@)),
                None => false,
            },
    {
        let keys = match raw {
            Some(s) => object_keys(s),
            None => None,
        };
        proof {
            if keys is Some {
                lemma_outdated(keys->Some_0@);
            }
        }
        Settings::loaded(parsed, keys)
    }

    /// Where models are kept.
    pub fn model_storage_dir(&self, app_dir: &str) -> (r: String)
        ensures
            r@ == directory_or(self.model_dir@, app_dir@),
    {
        let dir = text::to_chars(self.model_dir.as_str());
        let t = text::trim(text::Class::WhiteSpace, dir.as_slice());
        if t.len() == 0 {
            app_dir.to_owned()
        } else {
            text::to_text(t)
        }
    }
}

/// Keys are those of an outdated file where one of them is a key that nothing
/// reads.
proof fn lemma_outdated(keys: Seq<String>)
    ensures
        outdated(Some(text::texts(keys).to_set())) == exists|i: int|
            0 <= i < keys.len() && legacy((#[trigger] keys[i])@),
{
    let all = text::texts(keys);
    if outdated(Some(all.to_set())) {
        let j = choose|j: int|
            0 <= j < LEGACY_KEYS@.len() && all.to_set().contains((#[trigger] LEGACY_KEYS@[j])@);
        let i = choose|i: int| 0 <= i < all.len() && all[i] == LEGACY_KEYS@[j]@;
        assert(legacy(keys[i]@));
    }
    if exists|i: int| 0 <= i < keys.len() && legacy((#[trigger] keys[i])@) {
        let i = choose|i: int| 0 <= i < keys.len() && legacy((#[trigger] keys[i])@);
        let j = choose|j: int|
            0 <= j < LEGACY_KEYS@.len() && (#[trigger] LEGACY_KEYS@[j])@ == keys[i]@;
        assert(all[i] == LEGACY_KEYS@[j]@);
        assert(all.to_set().contains(LEGACY_KEYS@[j]@));
    }
}

/// No key under which settings are written is one that nothing reads.
proof fn lemma_settings_key_is_read(i: int)
    requires
        0 <= i < SETTINGS_KEYS@.len(),
    ensures
        !legacy(SETTINGS_KEYS@[i]@),
{
    reveal_strlit("engine");
    reveal_strlit("groqApiKey");
    reveal_strlit("llmCleanup");
    reveal_strlit("ollamaUrl");
    reveal_strlit("ollamaModel");
    reveal_strlit("ollamaTimeoutMs");
    reveal_strlit("grammarCorrection");
    reveal_strlit("grammarSkipAboveLogprob");
    reveal_strlit("microphone");
    reveal_strlit("whisperModel");
    reveal_strlit("modelDir");
    reveal_strlit("toggleHotkey");
    reveal_strlit("pushToTalkHotkey");
    reveal_strlit("language");
    reveal_strlit("initialPrompt");
    reveal_strlit("saveTranscriptions");
    reveal_strlit("keepAudioClips");
    reveal_strlit("fixupHotkey");
    reveal_strlit("streamingCaptions");
    reveal_strlit("vadSilenceMs");
    let key = SETTINGS_KEYS@[i]@;
    assert forall|j: int| 0 <= j < LEGACY_KEYS@.len() implies (#[trigger] LEGACY_KEYS@[j])@
        != key by {
        let old = LEGACY_KEYS@[j]@;
        assert(old.len() != key.len() || old[0] != key[0] || old[1] != key[1]);
    }
}

/// The keys of a configuration file that was written from settings.
pub open spec fn written_keys() -> Set<Seq<char>> {
    SETTINGS_KEYS@.map_values(|k: &str| k@).to_set()
}

/// A file that was written from settings is not outdated, nor is one that
/// holds only some of their keys: loading it does not write it again.
pub proof fn law_rewritten_settings_stay(keys: Set<Seq<char>>)
    requires
        keys.subset_of(written_keys()),
    ensures
        !outdated(Some(keys)),
{
    let all = SETTINGS_KEYS@.map_values(|k: &str| k@);
    assert forall|j: int| 0 <= j < LEGACY_KEYS@.len() implies !keys.contains(
        (#[trigger] LEGACY_KEYS@[j])@,
    ) by {
        let key = LEGACY_KEYS@[j]@;
        if keys.contains(key) {
            assert(all.to_set().contains(key));
            let i = choose|i: int| 0 <= i < all.len() && all[i] == key;
            lemma_settings_key_is_read(i);
            assert(legacy(SETTINGS_KEYS@[i]@));
        }
    }
}

/// A configuration file: the settings that can be read from it, and its keys.
/// Either is missing where it holds none.
#[verifier::ext_equal]
pub struct ConfigFile {
    pub settings: Option<Settings>,
    pub keys: Option<Set<Seq<char>>>,
}

/// The file that settings are written to.
pub open spec fn written(s: Settings) -> ConfigFile {
    ConfigFile { settings: Some(s), keys: Some(written_keys()) }
}

/// The settings that come of loading a file, those of a new user being `fresh`.
pub open spec fn settings_from(f: ConfigFile, fresh: Settings) -> Settings {
    match f.settings {
        Some(s) => s,
        None => fresh,
    }
}

/// The file after it was loaded: written again where it is outdated.
pub open spec fn after_loading(f: ConfigFile, fresh: Settings) -> ConfigFile {
    if outdated(f.keys) {
        written(settings_from(f, fresh))
    } else {
        f
    }
}

/// Loading keeps the settings that a file holds and rids it of the keys that
/// nothing reads. To load it a second time gives the same settings and leaves
/// the file as it is.
pub proof fn law_a_second_load_changes_nothing(f: ConfigFile, fresh: Settings)
    ensures
        f.settings matches Some(s) ==> settings_from(f, fresh) == s,
        !outdated(after_loading(f, fresh).keys),
        settings_from(after_loading(f, fresh), fresh) == settings_from(f, fresh),
        after_loading(after_loading(f, fresh), fresh) == after_loading(f, fresh),
{
    law_rewritten_settings_stay(written_keys());
}

} // verus!
