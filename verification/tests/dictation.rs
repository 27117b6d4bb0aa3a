use typwrtr::cleanup::postprocess::{apply, join_words_in};
use typwrtr::cleanup::scrub::{collapse_runs, Run};
use typwrtr::cleanup::{collapse_repeats, scrub_hallucinations, CodeCase, Mode};
use typwrtr::clipboard::{poll, restore, sentinel, Clipboard, Poll, Restore};
use typwrtr::commands::{apply_voice_commands, apply_voice_commands_with_snippets, walk_words, Snippet};
use typwrtr::context::AppContext;
use typwrtr::db::{AppProfileRow, CorrectionRow};
use typwrtr::recorder::pipeline::{
    clip_path, ending, listening, rewrite, shaping, transcription_row, Delivery, Engine, Keeping,
};
use typwrtr::recorder::prompt::budgeted_join;
use typwrtr::recorder::replacements::{apply_replacements, replace_stretches};
use typwrtr::settings::Settings;

fn chars(s: &str) -> Vec<char> {
    s.chars().collect()
}

fn chars_of(words: &[&str]) -> Vec<Vec<char>> {
    words.iter().map(|w| chars(w)).collect()
}

fn app() -> Option<AppContext> {
    Some(AppContext {
        bundle_id: "slack".to_string(),
        display_name: "Slack".to_string(),
        window_title: Some("general".to_string()),
    })
}

fn profile(enabled: bool) -> Option<AppProfileRow> {
    Some(AppProfileRow {
        bundle_id: "slack".to_string(),
        display_name: "Slack".to_string(),
        prompt_template: Some("Team chat".to_string()),
        postprocess_mode: "plain".to_string(),
        preferred_model: Some("base.en".to_string()),
        enabled,
        auto_apply_replacements: true,
        phonetic_match: false,
        code_case: "kebab".to_string(),
        last_used_at: None,
        use_count: 0,
        is_persisted: true,
    })
}

fn terms(ts: &[&str]) -> Vec<String> {
    ts.iter().map(|t| t.to_string()).collect()
}

#[test]
fn what_a_recording_is_transcribed_with() {
    let mut s = Settings::default();
    s.whisper_model = "small.en".to_string();
    s.initial_prompt = "Hello.".to_string();
    let l = listening(
        "local",
        &s,
        &app(),
        &profile(true),
        &terms(&["Kubernetes"]),
        &terms(&["Rust"]),
        &terms(&["  ", "Verus"]),
    );
    let l = l.unwrap();
    assert_eq!(l.engine, Engine::Local);
    assert_eq!(l.model, "base.en");
    assert_eq!(
        l.prompt,
        budgeted_join("Team chat Hello.", &terms(&["Kubernetes", "Rust", "Verus"]), 800)
    );
    assert!(l.prompt.contains("Kubernetes Rust Verus"));
}

#[test]
fn terms_are_left_out_where_the_app_is_not_known() {
    let mut s = Settings::default();
    s.initial_prompt = "Hello.".to_string();
    let l = listening("cloud", &s, &None, &None, &terms(&["Kubernetes"]), &[], &[]).unwrap();
    assert_eq!(l.engine, Engine::Cloud);
    assert_eq!(l.model, s.whisper_model);
    assert_eq!(l.prompt, "Hello.");
}

#[test]
fn an_unknown_engine_is_an_error() {
    let s = Settings::default();
    let l = listening("abacus", &s, &app(), &None, &[], &[], &[]);
    assert_eq!(l.unwrap_err(), "Unknown engine: abacus");
}

#[test]
fn how_a_transcript_is_shaped() {
    let a = shaping(&app(), &profile(true), "hello");
    assert_eq!(a.corrections_of.as_deref(), Some("slack"));
    assert_eq!(a.mode, Mode::Plain);
    assert_eq!(a.case, CodeCase::Kebab);
    let b = shaping(&app(), &profile(false), "hello");
    assert_eq!(b.corrections_of.as_deref(), Some("slack"));
    assert_eq!(b.mode, Mode::Default);
    assert_eq!(b.case, CodeCase::Snake);
    assert!(shaping(&app(), &profile(true), "").corrections_of.is_none());
    assert!(shaping(&None, &None, "hello").corrections_of.is_none());
    let mut p = profile(true);
    p.as_mut().unwrap().auto_apply_replacements = false;
    assert!(shaping(&app(), &p, "hello").corrections_of.is_none());
}

#[test]
fn how_a_dictation_ends() {
    let mut s = Settings::default();
    let e = ending(&s, &profile(true), "hello", false, true);
    assert_eq!(e.delivery, Delivery::Paste);
    assert_eq!(e.keeping, Keeping::Store);
    assert!(e.watch);
    let e = ending(&s, &None, "hello", true, true);
    assert_eq!(e.delivery, Delivery::Clipboard);
    assert_eq!(e.keeping, Keeping::Store);
    assert!(!e.watch);
    let e = ending(&s, &profile(false), "hello", false, true);
    assert_eq!(e.delivery, Delivery::Paste);
    assert_eq!(e.keeping, Keeping::DropClip);
    assert!(!e.watch);
    let e = ending(&s, &None, "", false, false);
    assert_eq!(e.delivery, Delivery::Nothing);
    assert_eq!(e.keeping, Keeping::Nothing);
    s.save_transcriptions = false;
    let e = ending(&s, &None, "hello", false, false);
    assert_eq!(e.delivery, Delivery::Paste);
    assert_eq!(e.keeping, Keeping::Nothing);
    assert!(!e.watch);
}

#[test]
fn recordings_are_kept_under_their_time() {
    assert_eq!(
        clip_path("/home/me/.typwrtr", '/', 1_700_000_000_123),
        "/home/me/.typwrtr/audio/1700000000123.wav"
    );
}

#[test]
fn the_row_of_a_dictation() {
    let a = app();
    let r = transcription_row(7, Some("x.wav"), "raw", "clean", &a, "base.en", 1500, 300, "dictation");
    assert_eq!(r.created_at, 7);
    assert_eq!(r.audio_path, Some("x.wav"));
    assert_eq!(r.raw_text, "raw");
    assert_eq!(r.cleaned_text, "clean");
    assert_eq!(r.app_bundle_id, Some("slack"));
    assert_eq!(r.app_title, Some("general"));
    assert_eq!(r.model, "base.en");
    assert_eq!(r.duration_ms, 1500);
    assert_eq!(r.latency_ms, 300);
    assert_eq!(r.source, "dictation");
    let none = None;
    let r = transcription_row(7, None, "raw", "clean", &none, "base.en", 0, 0, "dictation");
    assert_eq!(r.app_bundle_id, None);
    assert_eq!(r.app_title, None);
}

#[test]
fn a_copy_is_waited_for() {
    let mark = sentinel(42);
    assert_eq!(mark, "__typwrtr_fixup_sentinel_42__");
    assert!(matches!(poll(&Clipboard::Text(mark.clone()), &mark, 0), Poll::Again));
    assert!(matches!(poll(&Clipboard::Text(mark.clone()), &mark, 399), Poll::Again));
    assert!(matches!(poll(&Clipboard::Text(mark.clone()), &mark, 400), Poll::GiveUp));
    assert!(matches!(poll(&Clipboard::NoText, &mark, 20), Poll::Again));
    assert!(matches!(poll(&Clipboard::NoText, &mark, 500), Poll::GiveUp));
    assert!(matches!(poll(&Clipboard::Closed, &mark, 500), Poll::Again));
    match poll(&Clipboard::Text("chosen".to_string()), &mark, 500) {
        Poll::Captured(t) => assert_eq!(t, "chosen"),
        other => panic!("{other:?}"),
    }
}

#[test]
fn the_clipboard_is_given_back() {
    match restore(Some("before".to_string())) {
        Restore::PutBack(t) => assert_eq!(t, "before"),
        other => panic!("{other:?}"),
    }
    assert!(matches!(restore(None), Restore::Clear));
}

#[test]
fn words_are_walked_as_they_were_read() {
    let snippets = vec![Snippet {
        trigger: "sig".to_string(),
        expansion: "Best".to_string(),
        is_dynamic: false,
    }];
    let resolve = |_: &str| -> Option<String> { None };
    let r = walk_words(
        &chars_of(&["Hello", "Comma", "SIG"]),
        &chars_of(&["hello", "comma", "sig"]),
        &vec![chars_of(&["sig"])],
        &snippets,
        &resolve,
    );
    assert_eq!(r.text, "Hello, Best");
    let r = walk_words(
        &chars_of(&["Hello", "Comma"]),
        &chars_of(&["hello", "karma"]),
        &vec![chars_of(&["sig"])],
        &snippets,
        &resolve,
    );
    assert_eq!(r.text, "Hello Comma");
}

#[test]
fn runs_are_told_apart_by_their_lower_case() {
    let run = |blank: bool, s: &str| Run { blank, text: chars(s) };
    let runs = vec![run(false, "No"), run(true, " "), run(false, "NO"), run(true, "\n")];
    assert_eq!(collapse_runs(&runs, &chars_of(&["no", " ", "no", "\n"])), chars("No\n"));
    assert_eq!(collapse_runs(&runs, &chars_of(&["no", " ", "on", "\n"])), chars("No NO\n"));
}

#[test]
fn words_are_joined_into_identifiers() {
    let words = chars_of(&["parse", "json", "value"]);
    assert_eq!(join_words_in(&words, CodeCase::Snake), chars("parse_json_value"));
    assert_eq!(join_words_in(&words, CodeCase::Kebab), chars("parse-json-value"));
    assert_eq!(join_words_in(&words, CodeCase::Camel), chars("parseJsonValue"));
    assert_eq!(join_words_in(&Vec::new(), CodeCase::Camel), chars(""));
}

#[test]
fn stretches_give_way() {
    let s = chars("né ab");
    let none = vec![None; 5];
    assert_eq!(replace_stretches(&s, &none, &chars("x")), s);
    let ends = vec![None, None, None, Some(5), None];
    assert_eq!(replace_stretches(&s, &ends, &chars("xyz")), chars("né xyz"));
    let odd = vec![Some(0), Some(2), None, Some(6), Some(5)];
    assert_eq!(replace_stretches(&s, &odd, &chars("-")), chars("n- a-"));
}

fn correction(wrong: &str, right: &str, count: i64) -> CorrectionRow {
    CorrectionRow {
        id: 1,
        wrong: wrong.to_string(),
        right: right.to_string(),
        context: None,
        app_bundle_id: None,
        count,
        last_seen_at: 0,
        source: "manual".to_string(),
    }
}

#[test]
fn an_absent_word_changes_nothing() {
    let rows = vec![correction("zebra", "horse", 9), correction("", "horse", 9)];
    assert_eq!(apply_replacements("Nothing of that kind.", &rows), "Nothing of that kind.");
}

#[test]
fn commands_without_words_leave_no_edges() {
    assert_eq!(apply_voice_commands("new line hello new line").text, "\nhello");
    assert_eq!(apply_voice_commands("hello new paragraph").text, "hello");
}

#[test]
fn snippets_that_are_not_asked_for_do_not_matter() {
    let snippets = vec![Snippet {
        trigger: "my address".to_string(),
        expansion: "1 Main Street".to_string(),
        is_dynamic: false,
    }];
    let resolve = |_: &str| -> Option<String> { Some("?".to_string()) };
    let said = "see you at my place period";
    assert_eq!(
        apply_voice_commands_with_snippets(said, &snippets, &resolve).text,
        apply_voice_commands(said).text
    );
}

#[test]
fn passes_only_remove() {
    let t = "so so it works\nThanks for watching!\n- **done**";
    let collapsed = collapse_repeats(t);
    let scrubbed = scrub_hallucinations(&collapsed);
    let plain = apply(&scrubbed, Mode::Plain, false, CodeCase::Snake);
    assert_eq!(collapsed, "so it works\nThanks for watching!\n- **done**");
    assert_eq!(scrubbed, "so it works\n- **done**");
    assert_eq!(plain, "so it works\ndone");
}

#[test]
fn a_dictation_from_end_to_end() {
    let resolve = |k: &str| -> Option<String> {
        if k == "day" {
            Some("Monday".to_string())
        } else {
            None
        }
    };
    let snippets = vec![Snippet {
        trigger: "stamp".to_string(),
        expansion: "[{{day}}/{{year}}]".to_string(),
        is_dynamic: true,
    }];
    let r = rewrite(
        "the the note to Kaidhar comma stamp new line Thank you for watching exclamation point",
        &[correction("kaidhar", "KD", 3)],
        &snippets,
        &resolve,
        Mode::Default,
        CodeCase::Snake,
    );
    assert_eq!(r.text, "the note to KD, [Monday/{{year}}]");
    assert!(!r.clipboard_only);
    assert!(!r.code_mode);
}

#[test]
fn code_is_dictated_by_words() {
    let resolve = |_: &str| -> Option<String> { None };
    let r = rewrite("code mode my new function", &[], &[], &resolve, Mode::Code, CodeCase::Camel);
    assert_eq!(r.text, "myNewFunction");
    assert!(r.code_mode);
    let r = rewrite("my new function", &[], &[], &resolve, Mode::Code, CodeCase::Camel);
    assert_eq!(r.text, "my new function");
    assert!(!r.code_mode);
}

#[test]
fn plain_speech_comes_out_as_it_was_heard() {
    let resolve = |_: &str| -> Option<String> { None };
    let r = rewrite(
        "  We   meet at\tnoon,\nthen. ",
        &[correction("zebra", "horse", 5)],
        &[],
        &resolve,
        Mode::Default,
        CodeCase::Snake,
    );
    assert_eq!(r.text, "We meet at noon, then.");
    assert!(!r.clipboard_only);
}

#[test]
fn the_third_sighting_counts() {
    for n in 1..5 {
        let text = apply_replacements("ask kaidhar", &[correction("Kaidhar", "KD", n)]);
        assert_eq!(text, if n < 3 { "ask kaidhar" } else { "ask KD" });
    }
    assert_eq!(apply_replacements("KAIDHAR", &[correction("Kaidhar", "KD", 3)]), "KD");
}
