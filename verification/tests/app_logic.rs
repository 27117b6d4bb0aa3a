use typwrtr::audio::capture::{
    buffer_ms, can_peek, choose_device, max_samples, mic_devices, resampling, take_in, CaptureState,
    DeviceChoice, Resampling,
};
use typwrtr::audio::vad::{has_speech, trailing_silence_ms};
use typwrtr::context::{context_from_window, derive_bundle_id, derive_bundle_id_macos};
use typwrtr::db::RecentTranscription;
use typwrtr::hotkeys::{
    after_push_to_talk_failed, after_toggle_failed, check_hotkeys, clear_hotkeys, fires,
    fixup_cutoff, fixup_selection, fixup_start, push_to_talk_settings, push_to_talk_step,
    registered_hotkeys, since_unix_secs, toggle_step, FixupStart, HotkeyChange, HotkeyRole,
    PushToTalk, RegisteredHotkeys, ToggleStep,
};
use typwrtr::llm_cleanup::{
    cleanup, question, reply_from_body, CleanupBackend, CleanupModel, Reply,
};
use typwrtr::recorder::RecordingState;
use typwrtr::settings::{engine_for_model, has_legacy_keys, join_path, Settings, SETTINGS_KEYS};
use typwrtr::streaming::{elapsed_ms, StreamState, StreamingConfig, Tick};
use typwrtr::transcribe;
use typwrtr::transcribe::parakeet;
use typwrtr::transcribe::whisper;
use typwrtr::transcribe::{Loading, TranscribeOptions};
use typwrtr::transcribe_local;

#[test]
fn windows_bundle_id_strips_extension_and_lowercases() {
    assert_eq!(
        derive_bundle_id(r"C:\Program Files\Microsoft VS Code\Code.exe", "Visual Studio Code"),
        "code"
    );
}

#[test]
fn windows_bundle_id_falls_back_to_app_name_on_empty_path() {
    assert_eq!(derive_bundle_id("", "Slack"), "slack");
}

#[test]
fn windows_bundle_id_emits_unknown_when_nothing_known() {
    assert_eq!(derive_bundle_id("", ""), "unknown");
}

#[test]
fn programs_on_other_paths() {
    assert_eq!(derive_bundle_id("/usr/bin/Firefox", "x"), "firefox");
    assert_eq!(derive_bundle_id("/opt/app.v2/run.tar.gz", "x"), "run.tar");
    assert_eq!(derive_bundle_id("/home/u/.hidden", "x"), ".hidden");
    assert_eq!(derive_bundle_id("/usr/bin/firefox/.", "x"), "firefox");
    assert_eq!(derive_bundle_id("/usr/..", "App"), "app");
    assert_eq!(derive_bundle_id("///", "App"), "app");
    assert_eq!(derive_bundle_id("C:\\", "App"), "app");
    assert_eq!(derive_bundle_id("C:Code.exe", "x"), "code");
    assert_eq!(derive_bundle_id("d:/tools/Vim.exe", "x"), "vim");
    assert_eq!(derive_bundle_id("1:x", "App"), "1:x");
    assert_eq!(derive_bundle_id(r"/usr/bin/a\b", "x"), r"a\b");
    assert_eq!(derive_bundle_id(r"\\server\share\tools\Vim.exe", "x"), "vim");
    assert_eq!(derive_bundle_id(r"\\server\share", "App"), "app");
    assert_eq!(derive_bundle_id(r"\\server\share\", "App"), "app");
    assert_eq!(derive_bundle_id(r"\\server", "App"), "server");
    assert_eq!(derive_bundle_id(r"\\?\C:\tools\Vim.exe", "x"), "vim");
    assert_eq!(derive_bundle_id(r"\\?\C:", "App"), "app");
    assert_eq!(derive_bundle_id(r"\\?\UNC\server\share\Vim.exe", "x"), "vim");
    assert_eq!(derive_bundle_id(r"\\?\UNC\server\share", "App"), "app");
    assert_eq!(derive_bundle_id_macos("com.apple.Notes"), "com.apple.Notes");
    assert_eq!(derive_bundle_id_macos(""), "unknown");
}

#[test]
fn the_app_of_a_window() {
    let c = context_from_window(false, "/usr/bin/code.exe", "Code", "a.rs").unwrap();
    assert_eq!(c.bundle_id, "code");
    assert_eq!(c.display_name, "Code");
    assert_eq!(c.window_title.as_deref(), Some("a.rs"));
    let n = context_from_window(false, "", "Slack", "").unwrap();
    assert_eq!(n.bundle_id, "slack");
    assert!(n.window_title.is_none());
    let p = context_from_window(false, "/bin/vim", "", "").unwrap();
    assert_eq!(p.display_name, "vim");
    let m = context_from_window(true, "/Apps/Notes", "com.apple.Notes", "").unwrap();
    assert_eq!(m.bundle_id, "com.apple.Notes");
    assert!(context_from_window(false, "", "", "title").is_none());
}

#[test]
fn test_default_settings() {
    let settings = Settings::default();
    assert_eq!(settings.microphone, "default");
    assert_eq!(settings.whisper_model, "medium.en");
    assert_eq!(settings.model_dir, "");
    assert_eq!(settings.toggle_hotkey, "CmdOrCtrl+Shift+Space");
    assert_eq!(settings.push_to_talk_hotkey, "CmdOrCtrl+Shift+Enter");
    assert_eq!(settings.language, "en");
    assert_eq!(settings.initial_prompt, "");
    assert!(settings.save_transcriptions);
    assert!(!settings.keep_audio_clips);
    assert_eq!(settings.fixup_hotkey, "CmdOrCtrl+Shift+Semicolon");
    assert!(!settings.streaming_captions);
    assert_eq!(settings.vad_silence_ms, 800);
}

#[test]
fn settings_from_a_file_that_is_missing_or_broken() {
    let (s, rewrite) = Settings::loaded(None, None);
    assert_eq!(s, Settings::default());
    assert!(!rewrite);
}

#[test]
fn settings_from_an_old_file_are_written_again() {
    let mut mine = Settings::default();
    mine.whisper_model = "small.en".to_string();
    let keys = vec!["whisperModel".to_string(), "grammarCorrection".to_string()];
    let (s, rewrite) = Settings::loaded(Some(mine.clone()), Some(keys));
    assert_eq!(s, mine);
    assert!(rewrite);
    let clean = vec!["whisperModel".to_string(), "language".to_string()];
    assert!(!Settings::loaded(Some(mine), Some(clean)).1);
    for key in [
        "engine",
        "groqApiKey",
        "llmCleanup",
        "ollamaUrl",
        "ollamaModel",
        "ollamaTimeoutMs",
        "grammarCorrection",
        "grammarSkipAboveLogprob",
    ] {
        assert!(has_legacy_keys(&[key.to_string()]));
    }
    assert!(!has_legacy_keys(&["Engine".to_string()]));
}

#[test]
fn paths_of_files() {
    assert_eq!(Settings::config_path("/home/u/app", '/'), "/home/u/app/config.json");
    assert_eq!(Settings::config_path("/home/u/app/", '/'), "/home/u/app/config.json");
    assert_eq!(Settings::config_path(r"C:\app", '\\'), r"C:\app\config.json");
    assert_eq!(join_path("", '/', "x"), "x");
    assert_eq!(join_path("C:", '\\', "x"), "C:x");
    assert_eq!(join_path(r"C:\", '\\', "x"), r"C:\x");
    assert_eq!(join_path("C:", '/', "x"), "C:/x");
    assert_eq!(join_path(r"C:\a:", '\\', "x"), r"C:\a:\x");
    let mut s = Settings::default();
    assert_eq!(s.model_storage_dir("/app"), "/app");
    s.model_dir = "  /models ".to_string();
    assert_eq!(s.model_storage_dir("/app"), "/models");
}

#[test]
fn engines_of_models() {
    assert_eq!(engine_for_model("parakeet-tdt-0.6b-v2"), "parakeet");
    assert_eq!(engine_for_model("medium.en"), "whisper");
    assert_eq!(engine_for_model("my-parakeet"), "whisper");
    assert_eq!(Settings::default().engine(), "whisper");
}

#[test]
fn model_filename_passthrough() {
    assert_eq!(
        parakeet::model_filename("parakeet-tdt-0.6b-v2"),
        "parakeet-tdt-0.6b-v2"
    );
}

#[test]
fn whisper_test_model_filename() {
    assert_eq!(whisper::model_filename("small"), "ggml-small.bin");
    assert_eq!(whisper::model_filename("medium"), "ggml-medium.bin");
}

#[test]
fn whisper_test_model_download_url() {
    assert_eq!(
        whisper::model_download_url("small"),
        "https://huggingface.co/ggerganov/whisper.cpp/resolve/main/ggml-small.bin"
    );
}

#[test]
fn transcribe_local_test_model_filename() {
    assert_eq!(transcribe_local::model_filename("small"), "ggml-small.bin");
    assert_eq!(transcribe_local::model_filename("medium"), "ggml-medium.bin");
}

#[test]
fn transcribe_local_test_model_download_url() {
    assert_eq!(
        transcribe_local::model_download_url("small"),
        "https://huggingface.co/ggerganov/whisper.cpp/resolve/main/ggml-small.bin"
    );
}

#[test]
fn test_sidecar_error_message_mentions_sidecar() {
    let err = transcribe_local::format_sidecar_error("boom".to_string());
    assert!(err.contains("whisper.cpp sidecar"));
    assert!(err.contains("src-tauri/binaries"));
    assert!(err.ends_with("Original error: boom"));
}

#[test]
fn models_of_either_engine() {
    assert_eq!(transcribe::model_filename("small"), "ggml-small.bin");
    assert_eq!(transcribe::model_filename("parakeet-x"), "parakeet-x");
    assert_eq!(
        transcribe::model_download_url("parakeet-x"),
        "https://huggingface.co/istupakov/parakeet-x-onnx"
    );
    assert_eq!(
        transcribe::model_download_url("small"),
        "https://huggingface.co/ggerganov/whisper.cpp/resolve/main/ggml-small.bin"
    );
}

#[test]
fn ensure_loaded_errors_on_missing_path() {
    let err = parakeet::load_step(true, false, None, "/nonexistent/parakeet").unwrap_err();
    assert!(!err.is_empty());
    assert!(parakeet::load_step(false, true, None, "/p").unwrap_err().contains("not enabled"));
    assert_eq!(parakeet::load_step(true, true, Some("/p"), "/p").unwrap(), Loading::Done);
    assert_eq!(parakeet::load_step(true, true, Some("/q"), "/p").unwrap(), Loading::Load);
}

#[test]
fn stub_does_not_claim_capabilities() {
    assert!(!parakeet::supports_streaming());
    assert!(!parakeet::supports_initial_prompt());
    assert!(whisper::supports_streaming());
    assert!(whisper::supports_initial_prompt());
}

#[test]
fn test_ensure_loaded_missing_model() {
    let err = whisper::load_step(false, None, "/nonexistent/model.bin").unwrap_err();
    assert!(err.contains("model not found"));
    assert_eq!(whisper::load_step(true, None, "/m").unwrap(), Loading::Load);
    assert_eq!(whisper::load_step(true, Some("/m"), "/m").unwrap(), Loading::Done);
}

#[test]
fn files_of_a_model() {
    let files = parakeet::required_files("parakeet-x");
    assert_eq!(files.len(), 3);
    assert_eq!(files[0].0, "encoder-model.int8.onnx");
    assert_eq!(
        files[0].1,
        "https://huggingface.co/istupakov/parakeet-x-onnx/resolve/main/encoder-model.int8.onnx"
    );
    assert_eq!(files[1].0, "decoder_joint-model.int8.onnx");
    assert_eq!(files[2].0, "vocab.txt");
    let all: Vec<String> = files.iter().map(|f| f.0.clone()).collect();
    assert!(parakeet::all_files_present(true, &all));
    assert!(!parakeet::all_files_present(false, &all));
    assert!(!parakeet::all_files_present(true, &all[1..]));
}

#[test]
fn what_whisper_is_told() {
    let mut opts = TranscribeOptions::default();
    let p = whisper::plan(&opts, Some(8));
    assert_eq!(p.threads, 8);
    assert_eq!(p.beam_size, Some(5));
    assert_eq!(p.language.as_deref(), Some("en"));
    assert!(p.initial_prompt.is_none());
    assert!(p.suppress_blank && p.suppress_non_speech && !p.translate && !p.print_anything);
    opts.threads = Some(2);
    opts.beam_size = 1;
    opts.language = "auto".to_string();
    opts.initial_prompt = "Tauri".to_string();
    let q = whisper::plan(&opts, None);
    assert_eq!(q.threads, 2);
    assert_eq!(q.beam_size, None);
    assert!(q.language.is_none());
    assert_eq!(q.initial_prompt.as_deref(), Some("Tauri"));
    opts.threads = None;
    opts.language = String::new();
    assert_eq!(whisper::plan(&opts, None).threads, 4);
    assert!(whisper::plan(&opts, None).language.is_none());
}

#[test]
fn segments_and_tokens() {
    let segments = vec![" Hello".to_string(), " world. ".to_string()];
    assert_eq!(whisper::join_segments(&segments), "Hello world.");
    assert_eq!(whisper::join_segments(&[]), "");
    assert!(whisper::scorable(50_255, true));
    assert!(!whisper::scorable(50_256, true));
    assert!(!whisper::scorable(1, false));
}

#[test]
fn a_run_of_the_sidecar() {
    assert_eq!(
        transcribe_local::sidecar_args(Some(12), "/m.bin", "/a.wav"),
        vec!["-t", "12", "-m", "/m.bin", "-f", "/a.wav", "--no-timestamps", "--no-prints", "-l", "en"]
    );
    assert_eq!(transcribe_local::sidecar_args(None, "/m", "/a")[1], "4");
    assert_eq!(transcribe_local::transcript(" hi \n", "", Some(1)).unwrap(), "hi");
    assert_eq!(
        transcribe_local::transcript(" ", " bad \n", Some(-1)).unwrap_err(),
        "whisper.cpp failed (exit code: Some(-1)): bad"
    );
    assert_eq!(
        transcribe_local::transcript("", "x", None).unwrap_err(),
        "whisper.cpp failed (exit code: None): x"
    );
    assert_eq!(
        transcribe_local::transcript("", "x", Some(0)).unwrap_err(),
        "whisper.cpp returned no transcript (exit code: Some(0)). stderr: x"
    );
}

#[test]
fn off_passes_through() {
    let reply = Reply::Content("changed".to_string());
    assert_eq!(cleanup(CleanupBackend::Off, "", "hello world.", &reply), "hello world.");
}

#[test]
fn empty_input_short_circuits() {
    let reply = Reply::Content("changed".to_string());
    assert_eq!(cleanup(CleanupBackend::Groq, "key", "", &reply), "");
    assert!(question(CleanupBackend::Groq, "key", "", CleanupModel::Quality).is_none());
}

#[test]
fn missing_api_key_falls_back() {
    let reply = Reply::Content("changed".to_string());
    assert_eq!(cleanup(CleanupBackend::Groq, "", "hello world", &reply), "hello world");
    assert!(question(CleanupBackend::Groq, "", "hello world", CleanupModel::Fast).is_none());
}

#[test]
fn cleanup_model_from_str_defaults_to_quality() {
    assert_eq!(CleanupModel::from_str("fast"), CleanupModel::Fast);
    assert_eq!(CleanupModel::from_str("quality"), CleanupModel::Quality);
    assert_eq!(CleanupModel::from_str(""), CleanupModel::Quality);
    assert_eq!(CleanupModel::from_str("nonsense"), CleanupModel::Quality);
}

#[test]
fn an_answer_counts_and_a_failure_does_not() {
    let g = CleanupBackend::from_str("groq");
    assert_eq!(g, CleanupBackend::Groq);
    assert_eq!(CleanupBackend::from_str("x"), CleanupBackend::Off);
    assert_eq!(cleanup(g, "key", "hello", &Reply::Content(" Hello. ".to_string())), "Hello.");
    assert_eq!(cleanup(g, "key", "hello", &Reply::Failed), "hello");
    assert_eq!(cleanup(g, "key", "hello", &Reply::TimedOut), "hello");
    let q = question(g, "key", "hello", CleanupModel::Fast).unwrap();
    assert_eq!(q.model, "llama-3.1-8b-instant");
    assert_eq!(q.user, "hello");
    assert!(q.system.starts_with("Fix only punctuation"));
    assert_eq!(q.temperature, 0);
    assert_eq!(q.max_tokens, 512);
    assert_eq!(CleanupModel::Quality.groq_model_id(), "llama-3.3-70b-versatile");
}

fn frames(samples: &[f32], threshold: f32) -> Vec<bool> {
    samples
        .chunks(480)
        .map(|f| {
            let sum: f32 = f.iter().map(|s| s * s).sum();
            (sum / f.len() as f32).sqrt() < threshold
        })
        .collect()
}

#[test]
fn full_silence_has_no_speech() {
    assert!(!has_speech(&frames(&vec![0.0f32; 32_000], 0.005)));
}

#[test]
fn loud_buffer_has_speech() {
    assert!(has_speech(&frames(&vec![0.5f32; 8_000], 0.005)));
}

#[test]
fn trailing_silence_after_loud_returns_silence_duration() {
    let mut buf = vec![0.5f32; 16_000];
    buf.extend(vec![0.0f32; 16_000]);
    let ms = trailing_silence_ms(&frames(&buf, 0.005), 30);
    assert!(ms >= 900 && ms <= 1020, "got {} ms", ms);
}

#[test]
fn trailing_silence_zero_when_still_loud() {
    assert_eq!(trailing_silence_ms(&frames(&vec![0.5f32; 16_000], 0.005), 30), 0);
    assert_eq!(trailing_silence_ms(&[], 30), 0);
    assert_eq!(trailing_silence_ms(&[true, false, true, true], 30), 60);
}

#[test]
fn microphones() {
    let names = vec!["Built-in".to_string(), "USB".to_string()];
    let list = mic_devices(&names, "USB");
    assert_eq!(list[0].name, "Built-in");
    assert!(!list[0].is_default && list[1].is_default);
    assert!(mic_devices(&[String::new()], "").iter().all(|d| !d.is_default));
    let devices = vec![None, Some("USB".to_string()), Some("USB".to_string())];
    assert_eq!(choose_device("default", true, Ok(vec![])).unwrap(), DeviceChoice::Default);
    assert_eq!(
        choose_device("default", false, Ok(vec![])).unwrap_err(),
        "No default input device found"
    );
    assert_eq!(choose_device("USB", false, Ok(devices.clone())).unwrap(), DeviceChoice::Device(1));
    assert_eq!(
        choose_device("Line", true, Ok(devices)).unwrap_err(),
        "Microphone 'Line' not found"
    );
    assert_eq!(choose_device("Line", true, Err("host".to_string())).unwrap_err(), "host");
}

#[test]
fn the_cap_on_a_recording() {
    assert_eq!(max_samples(48_000, 2), 57_600_000);
    assert_eq!(take_in(0, 10, 100), (10, false));
    assert_eq!(take_in(95, 10, 100), (5, true));
    assert_eq!(take_in(90, 10, 100), (10, false));
    assert_eq!(take_in(100, 10, 100), (0, true));
    assert!(can_peek(48_000, 48_000, 2));
    assert!(!can_peek(47_999, 48_000, 2));
    assert_eq!(buffer_ms(96_000, 48_000, 2), 1_000);
    assert_eq!(buffer_ms(10, 0, 2), 0);
    assert_eq!(resampling(4, 16_000, 16_000), Resampling::AsIs);
    assert_eq!(
        resampling(48_000, 48_000, 16_000),
        Resampling::Chunks { full: 46, rest: 896 }
    );
}

#[test]
fn a_capture_goes_round() {
    let mut c = CaptureState::new();
    assert_eq!(c.format(), (48_000, 1));
    assert_eq!(c.stop(5).unwrap_err(), "Recorder is not running");
    assert_eq!(c.start(Err("busy".to_string())).unwrap_err(), "busy");
    assert!(c.may_start().is_ok());
    assert!(c.start(Ok((44_100, 2))).is_ok());
    assert_eq!(c.format(), (44_100, 2));
    assert_eq!(c.may_start().unwrap_err(), "Recorder is already running");
    assert_eq!(c.start(Ok((1, 1))).unwrap_err(), "Recorder is already running");
    c.reached_cap();
    assert!(c.stop(5).unwrap());
    assert!(c.start(Ok((44_100, 2))).is_ok());
    assert_eq!(c.stop(0).unwrap_err(), "No audio captured");
    assert!(c.start(Ok((44_100, 2))).is_ok());
    assert!(!c.stop(5).unwrap());
}

#[test]
fn ticks_of_a_recording() {
    let mut s = StreamState::new();
    assert_eq!(elapsed_ms(48_000, 48_000, 1), 1_000);
    assert_eq!(elapsed_ms(3, 0, 1), 3_000);
    assert!(!s.grown(0, 48_000, 1));
    assert!(s.grown(48_000, 48_000, 1));
    assert!(!s.grown(48_001, 48_000, 1));
    assert!(s.grown(96_000, 48_000, 1));
    let config = StreamingConfig {
        model_path: String::new(),
        initial_prompt: String::new(),
        language: String::new(),
        partial_interval_ms: 700,
        silence_threshold_ms: 800,
        emit_partials: false,
    };
    assert_eq!(config.tick(true, 800), Tick::AutoStop);
    assert_eq!(config.tick(true, 799), Tick::Wait);
    assert_eq!(config.tick(false, 9_000), Tick::Wait);
    let captions = StreamingConfig { silence_threshold_ms: 0, emit_partials: true, ..config };
    assert_eq!(captions.tick(true, 9_000), Tick::Transcribe);
    let p = s.partial(" hello ", 700).unwrap();
    assert_eq!(p.text, "hello");
    assert_eq!(p.elapsed_ms, 700);
    assert!(s.partial("hello", 1_400).is_none());
    assert!(s.partial("  ", 1_400).is_none());
    assert_eq!(s.partial("hello there", 2_100).unwrap().text, "hello there");
}

#[test]
fn hotkeys_must_differ() {
    let mut s = Settings::default();
    assert!(check_hotkeys(&s).is_ok());
    s.fixup_hotkey = s.toggle_hotkey.clone();
    assert_eq!(
        check_hotkeys(&s).unwrap_err(),
        "Toggle, push-to-talk, and fix-up hotkeys must all be different"
    );
}

#[test]
fn what_keys_do() {
    assert_eq!(toggle_step(RecordingState::Ready).unwrap(), ToggleStep::Start);
    assert_eq!(toggle_step(RecordingState::Recording).unwrap(), ToggleStep::Stop);
    assert_eq!(
        toggle_step(RecordingState::Transcribing).unwrap_err(),
        "Currently transcribing, please wait"
    );
    assert!(fires(false, true));
    assert!(!fires(true, true));
    assert!(!fires(false, false));
    assert_eq!(push_to_talk_step(false, true, RecordingState::Ready), PushToTalk::Start);
    assert_eq!(push_to_talk_step(false, false, RecordingState::Recording), PushToTalk::Stop);
    assert_eq!(push_to_talk_step(false, true, RecordingState::Recording), PushToTalk::Ignore);
    assert_eq!(push_to_talk_step(true, true, RecordingState::Ready), PushToTalk::Ignore);
    let s = Settings::default();
    let p = push_to_talk_settings(&s);
    assert_eq!(p.vad_silence_ms, 0);
    assert_eq!(p.toggle_hotkey, s.toggle_hotkey);
}

fn keys(t: &str, p: &str, f: &str) -> RegisteredHotkeys {
    RegisteredHotkeys {
        toggle_hotkey: Some(t.to_string()),
        push_to_talk_hotkey: Some(p.to_string()),
        fixup_hotkey: Some(f.to_string()),
    }
}

fn shown(changes: &[HotkeyChange]) -> Vec<String> {
    changes
        .iter()
        .map(|c| match c {
            HotkeyChange::Register(HotkeyRole::Toggle, k) => format!("+t {}", k),
            HotkeyChange::Register(HotkeyRole::PushToTalk, k) => format!("+p {}", k),
            HotkeyChange::Register(HotkeyRole::Fixup, k) => format!("+f {}", k),
            HotkeyChange::Unregister(k) => format!("- {}", k),
        })
        .collect()
}

#[test]
fn hotkeys_come_back_where_new_ones_fail() {
    let old = keys("T", "P", "F");
    assert_eq!(shown(&clear_hotkeys(&old)), vec!["- T", "- P", "- F"]);
    let (r, undo) = after_toggle_failed(&old);
    assert_eq!(shown(&undo), vec!["+t T", "+p P"]);
    assert_eq!(r.toggle_hotkey.as_deref(), Some("T"));
    assert!(r.fixup_hotkey.is_none());
    let (r, undo) = after_push_to_talk_failed(&old, "N");
    assert_eq!(shown(&undo), vec!["- N", "+t T", "+p P", "+f F"]);
    assert_eq!(r.fixup_hotkey.as_deref(), Some("F"));
    let mut s = Settings::default();
    let done = registered_hotkeys(&s, true);
    assert_eq!(done.fixup_hotkey.as_deref(), Some("CmdOrCtrl+Shift+Semicolon"));
    assert!(registered_hotkeys(&s, false).fixup_hotkey.is_none());
    s.fixup_hotkey = String::new();
    assert!(registered_hotkeys(&s, true).fixup_hotkey.is_none());
    assert!(clear_hotkeys(&RegisteredHotkeys::default()).is_empty());
}

#[test]
fn what_the_fixup_window_opens_with() {
    assert_eq!(fixup_selection(Some("  text ")).as_deref(), Some("text"));
    assert!(fixup_selection(Some(" \n")).is_none());
    assert!(fixup_selection(None).is_none());
    assert_eq!(fixup_cutoff(10_000), 8_200);
    let row = RecentTranscription {
        id: 7,
        created_at: 1,
        cleaned_text: "text".to_string(),
        app_bundle_id: None,
    };
    assert!(matches!(fixup_start(None, Some(row.clone())), FixupStart::NoSelection));
    match fixup_start(Some("text".to_string()), Some(row)) {
        FixupStart::Match { transcription, selection } => {
            assert_eq!(transcription.id, 7);
            assert_eq!(selection, "text");
        }
        _ => panic!("no match"),
    }
    assert!(matches!(
        fixup_start(Some("text".to_string()), None),
        FixupStart::NoMatch { .. }
    ));
}

#[test]
fn days_back_in_time() {
    assert_eq!(since_unix_secs(0, 1_000_000), 0);
    assert_eq!(since_unix_secs(-3, 1_000_000), 0);
    assert_eq!(since_unix_secs(7, 1_000_000), 395_200);
    assert_eq!(since_unix_secs(i64::MAX, 0), -i64::MAX);
    assert_eq!(since_unix_secs(i64::MAX, -5), i64::MIN);
}

#[test]
fn keys_of_the_configuration_file_are_looked_at() {
    let old = r#"{"grammarCorrection":true,"whisperModel":"small.en"}"#;
    assert!(Settings::loaded_from(None, Some(old)).1);
    let new = r#"{"whisperModel":"engine","language":"en"}"#;
    assert!(!Settings::loaded_from(None, Some(new)).1);
    assert!(!Settings::loaded_from(None, Some(r#"["engine"]"#)).1);
    assert!(!Settings::loaded_from(None, Some("engine")).1);
    assert!(!Settings::loaded_from(None, None).1);
    let mut mine = Settings::default();
    mine.language = "de".to_string();
    assert_eq!(Settings::loaded_from(Some(mine.clone()), Some(old)), (mine, true));
}

#[test]
fn the_answer_in_a_response() {
    let body = r#"{"choices":[{"message":{"content":" Hello. "}},{"message":{"content":"No"}}]}"#;
    let reply = reply_from_body(body);
    assert_eq!(cleanup(CleanupBackend::Groq, "key", "hello", &reply), "Hello.");
    for broken in ["", "{}", r#"{"choices":[]}"#, r#"{"choices":[{"message":{"content":7}}]}"#] {
        assert!(matches!(reply_from_body(broken), Reply::Failed));
    }
}

#[test]
fn what_the_sidecar_wrote_need_not_be_utf8() {
    let run = transcribe_local::transcript_from_output;
    assert_eq!(run(b" hello\n", b"", Some(0)), Ok("hello".to_string()));
    assert_eq!(run(b"caf\xc3\xa9 \xff", b"", Some(1)), Ok("caf\u{e9} \u{fffd}".to_string()));
    assert_eq!(
        run(b"", b"no \xfe model", Some(3)),
        Err("whisper.cpp failed (exit code: Some(3)): no \u{fffd} model".to_string())
    );
}

#[test]
fn settings_that_were_written_again_stay() {
    let old = r#"{"engine":"cloud","whisperModel":"small.en"}"#;
    let mut s = Settings::default();
    s.whisper_model = "small.en".to_string();
    let (first, rewrite) = Settings::loaded_from(Some(s.clone()), Some(old));
    assert_eq!(first, s);
    assert!(rewrite);
    let keys: Vec<String> = SETTINGS_KEYS.iter().map(|k| format!("\"{k}\":0")).collect();
    let written = format!("{{{}}}", keys.join(","));
    assert_eq!(Settings::loaded_from(Some(first), Some(&written)), (s, false));
}
