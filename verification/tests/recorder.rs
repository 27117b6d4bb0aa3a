use typwrtr::cleanup::{CodeCase, Mode};
use typwrtr::commands::Snippet;
use typwrtr::db::{AppProfileRow, CorrectionRow};
use typwrtr::learning::diff::CorrectionPair;
use typwrtr::recorder::autolearn::{
    auto_learn_pairs, auto_learn_toast, best_score, candidate_edited_text, has_shared_anchor,
    normalize_for_match, plausible_pairs, window_titles_match,
};
use typwrtr::recorder::pipeline::{
    app_disabled, applies_replacements, clip_duration_ms, delivery, dictation_prompt,
    effective_model, keeping, needs_selection, output_modes, rewrite, watches_edits, Delivery,
    Engine, Keeping, TemplateVar,
};
use typwrtr::recorder::prompt::{budgeted_join, merge_prompt};
use typwrtr::recorder::replacements::{
    apply_replacements, case_insensitive_word_replace, find_whole_words,
};
use typwrtr::recorder::session::{overlay_script, streaming_config, Session};
use typwrtr::recorder::watcher::{CaptureStep, FocusStep, Watcher};
use typwrtr::recorder::RecordingState;
use typwrtr::settings::Settings;

#[test]
fn test_initial_state_is_ready() {
    let session = Session::new();
    assert_eq!(session.get_state(), RecordingState::Ready);
}

fn cr(wrong: &str, right: &str, count: i64, context: Option<&str>) -> CorrectionRow {
    CorrectionRow {
        id: 1,
        wrong: wrong.to_string(),
        right: right.to_string(),
        context: context.map(|s| s.to_string()),
        app_bundle_id: Some("code".to_string()),
        count,
        last_seen_at: 0,
        source: "manual".to_string(),
    }
}

#[test]
fn replacements_require_min_count_3() {
    let rows = vec![cr("Kaidhar", "KD", 2, None)];
    assert_eq!(
        apply_replacements("send to Kaidhar tomorrow", &rows),
        "send to Kaidhar tomorrow"
    );
}

#[test]
fn replacements_apply_case_insensitively_with_word_boundaries() {
    let rows = vec![cr("Kaidhar", "KD", 3, None)];
    assert_eq!(
        apply_replacements("send to Kaidhar tomorrow", &rows),
        "send to KD tomorrow"
    );
    assert_eq!(
        apply_replacements("Kaidhardian things", &rows),
        "Kaidhardian things"
    );
}

#[test]
fn replacements_respect_context_filter() {
    let rows = vec![cr(
        "Kaidhar",
        "KD",
        5,
        Some("send the report to KD tomorrow"),
    )];
    assert_eq!(
        apply_replacements("ship the Kaidhar plan", &rows),
        "ship the Kaidhar plan"
    );
    assert_eq!(
        apply_replacements("send the report to Kaidhar", &rows),
        "send the report to KD"
    );
}

#[test]
fn auto_learn_candidate_accepts_related_manual_edit() {
    let candidate = candidate_edited_text(
        "Please send this to John Smith tomorrow.",
        "Please send this to Jon Smyth tomorrow.",
    );
    assert_eq!(
        candidate.as_deref(),
        Some("Please send this to Jon Smyth tomorrow.")
    );
}

#[test]
fn auto_learn_candidate_ignores_unchanged_text() {
    assert!(candidate_edited_text("No changes here.", "No changes here.").is_none());
}

#[test]
fn auto_learn_candidate_ignores_unrelated_text() {
    assert!(candidate_edited_text(
        "Please send this to John Smith tomorrow.",
        "Completely unrelated text from a different field."
    )
    .is_none());
}

#[test]
fn auto_learn_window_title_allows_dirty_marker() {
    assert!(window_titles_match(
        Some("*Notes - Project"),
        Some("Notes - Project")
    ));
    assert!(!window_titles_match(Some("Other"), Some("Notes - Project")));
}

#[test]
fn shared_anchor_accepts_edited_paste() {
    assert!(has_shared_anchor(
        "Please send the report to Bob tomorrow.",
        "Please send the report to Robert tomorrow.",
    ));
}

#[test]
fn shared_anchor_rejects_unrelated_text() {
    assert!(!has_shared_anchor(
        "Please send the report to Bob tomorrow.",
        "What is the meaning of life and other questions?",
    ));
}

#[test]
fn shared_anchor_short_cleaned_uses_substring_match() {
    assert!(has_shared_anchor("hello", "say hello there"));
    assert!(!has_shared_anchor("hello", "good morning"));
}

#[test]
fn budgeted_join_dedupes_and_trims() {
    let extras = vec!["rusqlite".to_string(), "Tauri".to_string(), "rusqlite".to_string()];
    let out = budgeted_join("hello", &extras, 100);
    assert_eq!(out, "hello rusqlite Tauri");
}

#[test]
fn budgeted_join_respects_budget() {
    let extras = vec!["aaaa".to_string(), "bbbb".to_string(), "cccc".to_string()];
    let out = budgeted_join("", &extras, 9);
    assert_eq!(out, "aaaa bbbb");
}

#[test]
fn merge_prompt_combinations() {
    assert_eq!(merge_prompt(None, ""), "");
    assert_eq!(merge_prompt(Some(""), ""), "");
    assert_eq!(merge_prompt(Some("rusqlite"), ""), "rusqlite");
    assert_eq!(merge_prompt(None, "global"), "global");
    assert_eq!(merge_prompt(Some("rusqlite"), "global"), "rusqlite global");
    assert_eq!(merge_prompt(Some("   "), "global"), "global");
}

#[test]
fn budget_ends_at_the_first_term_that_does_not_fit() {
    let extras = vec!["long-term".to_string(), "b".to_string()];
    assert_eq!(budgeted_join("base", &extras, 8), "base");
    assert_eq!(budgeted_join("  base  ", &[], 2), "base");
    let wide = vec!["\u{e9}\u{e9}\u{e9}".to_string()];
    assert_eq!(budgeted_join("x", &wide, 5), "x \u{e9}\u{e9}\u{e9}");
}

#[test]
fn budget_does_not_repeat_a_word_of_the_base() {
    let extras = vec!["Tauri".to_string(), " ".to_string(), "tauri".to_string()];
    assert_eq!(budgeted_join("use Tauri", &extras, 100), "use Tauri tauri");
}

#[test]
fn replacement_leaves_parts_of_words_alone() {
    let rows = vec![cr("cat", "dog", 3, None)];
    assert_eq!(apply_replacements("Cat concat cat_x cat.", &rows), "dog concat cat_x dog.");
    assert_eq!(apply_replacements("", &rows), "");
}

#[test]
fn replacement_beyond_ascii() {
    let rows = vec![cr("\u{e9}", "e", 3, None)];
    assert_eq!(apply_replacements("\u{c9}", &rows), "e");
    let rows = vec![cr("ok", "OK!", 3, None)];
    assert_eq!(apply_replacements("caf\u{e9} ok", &rows), "caf\u{e9} OK!");
    assert_eq!(case_insensitive_word_replace("caf\u{e9}", "cat", "dog"), "caf\u{e9}");
    assert_eq!(case_insensitive_word_replace("CAF\u{c9}!", "caf\u{e9}", "tea"), "tea!");
    assert_eq!(case_insensitive_word_replace("\u{4f60}\u{597d}", "\u{597d}", "x"), "\u{4f60}x");
}

#[test]
fn replacement_where_case_changes_lengths() {
    // Lower case makes the Kelvin sign one byte long instead of three.
    let rows = vec![cr("cat", "dog", 3, None)];
    assert_eq!(apply_replacements("\u{212a} cat \u{e9}", &rows), "\u{212a} dog \u{e9}");
    assert_eq!(case_insensitive_word_replace("10 \u{212a}", "k", "kelvin"), "10 kelvin");
    // Lower case makes a capital I with a dot two characters.
    assert_eq!(case_insensitive_word_replace("\u{130} cat", "cat", "dog"), "\u{130} dog");
    assert_eq!(case_insensitive_word_replace("a \u{130}.", "i\u{307}", "i"), "a i.");
    assert_eq!(case_insensitive_word_replace("a Cat", "cAT", "dog"), "a dog");
    assert_eq!(case_insensitive_word_replace("a cat", "", "dog"), "a cat");
}

#[test]
fn replacement_where_case_depends_on_what_follows() {
    // A sigma at the end of a word has a lower case of its own.
    let odos = "\u{39f}\u{394}\u{39f}\u{3a3}";
    let longer = format!("{}\u{391}", odos);
    assert_eq!(case_insensitive_word_replace(&longer, odos, "way"), longer);
    assert_eq!(case_insensitive_word_replace(odos, odos, "way"), "way");
    let two = format!("{} x", odos);
    assert_eq!(case_insensitive_word_replace(&two, odos, "way"), "way x");
    let small = "\u{3bf}\u{3b4}\u{3bf}\u{3c2}";
    assert_eq!(case_insensitive_word_replace(&two, small, "way"), "way x");
    let medial = "\u{3bf}\u{3b4}\u{3bf}\u{3c3}";
    assert_eq!(case_insensitive_word_replace(&two, medial, "way"), two);
}

#[test]
fn whole_words_in_lowered_text() {
    let s: Vec<char> = "Xy xy".chars().collect();
    let lowered: Vec<char> = "x-y xy".chars().collect();
    let low: Vec<char> = "xy".chars().collect();
    let ends = find_whole_words(&s, &lowered, &vec![2, 1, 1, 1, 1], &low);
    assert_eq!(ends, vec![None, None, None, Some(5), None]);
    // What lies beyond the lower case is not found.
    let ends = find_whole_words(&s, &lowered, &vec![2, 1, 9, 1, 1], &low);
    assert_eq!(ends, vec![None; 5]);
}

#[test]
fn replacement_of_several_words() {
    assert_eq!(
        case_insensitive_word_replace("open A I labs, open ai labs", "open a i", "OpenAI"),
        "OpenAI labs, open ai labs"
    );
}

#[test]
fn corrections_follow_one_another() {
    let rows = vec![cr("a", "b", 3, None), cr("b", "c", 3, None), cr("x", "", 9, None)];
    assert_eq!(apply_replacements("a x", &rows), "c x");
}

#[test]
fn a_context_of_common_words_vouches_for_nothing() {
    let rows = vec![cr("cat", "dog", 3, Some("this is the one"))];
    assert_eq!(apply_replacements("this is the cat", &rows), "this is the cat");
    let blank = vec![cr("cat", "dog", 3, Some("  "))];
    assert_eq!(apply_replacements("this is the cat", &blank), "this is the dog");
}

#[test]
fn spaces_do_not_matter_to_the_match() {
    assert_eq!(normalize_for_match("  a\n b\t\tc "), "a b c");
    assert!(candidate_edited_text("No changes here.", "No  changes\nhere.").is_none());
}

#[test]
fn the_edited_line_is_found_in_a_longer_field() {
    let field = "Dear all,\nPlease send this to Jon Smyth tomorrow.\n\nKind regards and many thanks to everyone involved";
    assert_eq!(
        candidate_edited_text("Please send this to John Smith tomorrow.", field).as_deref(),
        Some("Please send this to Jon Smyth tomorrow.")
    );
}

#[test]
fn a_field_that_is_too_long_is_not_looked_at() {
    let field = "x".repeat(10_001);
    assert!(candidate_edited_text("something", &field).is_none());
    assert!(candidate_edited_text("", "something").is_none());
    assert!(candidate_edited_text("something", "  ").is_none());
}

#[test]
fn of_equal_scores_the_last_counts() {
    assert_eq!(best_score(&vec![None, Some(5), Some(7), Some(7), None, Some(6)]), Some(3));
    assert_eq!(best_score(&vec![None, None]), None);
    assert_eq!(best_score(&vec![]), None);
}

#[test]
fn titles_that_are_not_known_match() {
    assert!(window_titles_match(None, Some("x")));
    assert!(window_titles_match(Some("x"), None));
    assert!(window_titles_match(Some("  **Notes"), Some("Notes - Project")));
}

#[test]
fn a_small_edit_is_learned() {
    let (text, pairs) = auto_learn_pairs(
        "Please send this to John Smith tomorrow.",
        "Please send this to Jon Smyth tomorrow.",
    )
    .unwrap();
    assert_eq!(text, "Please send this to Jon Smyth tomorrow.");
    assert_eq!(pairs.len(), 1);
    assert_eq!(pairs[0].wrong, "John Smith");
    assert_eq!(pairs[0].right, "Jon Smyth");
    assert!(auto_learn_pairs("No changes here.", "No changes here.").is_none());
}

fn pair(w: &str, r: &str) -> CorrectionPair {
    CorrectionPair {
        wrong: w.to_string(),
        right: r.to_string(),
        context: String::new(),
    }
}

#[test]
fn many_or_long_pairs_are_no_corrections() {
    assert!(!plausible_pairs(&vec![], "text"));
    assert!(plausible_pairs(&vec![pair("a", "b")], "text"));
    assert!(!plausible_pairs(&vec![pair("a", "b"); 9], "text"));
    assert!(plausible_pairs(&vec![pair("12345678", "b")], "text"));
    assert!(!plausible_pairs(&vec![pair("123456789", "b")], "text"));
    assert!(plausible_pairs(&vec![pair("a", "123456789")], "a text of twenty chars"));
}

#[test]
fn the_toast_shows_the_longest_pair() {
    let pairs = vec![pair("a", "b"), pair("c", "long"), pair("d", "same"), pair("e", "  ")];
    let toast = auto_learn_toast(&pairs, 3, "Editor").unwrap();
    assert_eq!(toast.count, 3);
    assert_eq!(toast.app, "Editor");
    assert_eq!(toast.sample_wrong, "d");
    assert_eq!(toast.sample_right, "same");
    let blank = vec![pair("x", ""), pair("y", " ")];
    assert_eq!(auto_learn_toast(&blank, 1, "Editor").unwrap().sample_wrong, "x");
    assert!(auto_learn_toast(&pairs, 0, "Editor").is_none());
}

#[test]
fn watcher_starts_only_where_it_should() {
    assert!(Watcher::start("abcd", "code", None).is_some());
    assert!(Watcher::start("abcd", "code", Some(true)).is_some());
    assert!(Watcher::start("abcd", "code", Some(false)).is_none());
    assert!(Watcher::start(" abc ", "code", None).is_none());
    assert!(Watcher::start("\u{e9}\u{e9}", "code", None).is_some());
    assert!(!Watcher::expired(59_999));
    assert!(Watcher::expired(60_000));
}

#[test]
fn watcher_finishes_when_the_field_is_still() {
    let pasted = "Please send the report to Bob tomorrow.";
    let edited = "Please send the report to Robert tomorrow.";
    let mut w = Watcher::start(pasted, "code", None).unwrap();
    assert!(matches!(w.focus(Some("code")), FocusStep::Capture));
    assert!(matches!(w.focus(Some("slack")), FocusStep::Wait));
    assert!(matches!(w.focus(None), FocusStep::Wait));
    assert!(matches!(w.capture(Some(edited)), CaptureStep::Wait));
    assert!(matches!(w.capture(None), CaptureStep::Wait));
    assert!(matches!(w.capture(Some(edited)), CaptureStep::Wait));
    match w.capture(Some(edited)) {
        CaptureStep::Finish(Some(t)) => assert_eq!(t, edited),
        _ => panic!("not finished"),
    }
    assert_eq!(w.last_seen().as_deref(), Some(edited));
}

#[test]
fn watcher_takes_the_edit_when_the_user_leaves() {
    let pasted = "Please send the report to Bob tomorrow.";
    let edited = "Please send the report to Robert tomorrow.";
    let mut w = Watcher::start(pasted, "code", None).unwrap();
    assert!(matches!(w.capture(Some(pasted)), CaptureStep::Wait));
    assert!(matches!(w.focus(Some("slack")), FocusStep::Wait));
    assert!(matches!(w.capture(Some(edited)), CaptureStep::Wait));
    match w.focus(Some("slack")) {
        FocusStep::Finalize(t) => assert_eq!(t, edited),
        _ => panic!("not finalized"),
    }
}

#[test]
fn watcher_stops_at_an_unchanged_text() {
    let pasted = "Please send the report to Bob tomorrow.";
    let mut w = Watcher::start(pasted, "code", None).unwrap();
    assert!(matches!(w.capture(Some(pasted)), CaptureStep::Wait));
    assert!(matches!(w.capture(Some(pasted)), CaptureStep::Wait));
    assert!(matches!(w.capture(Some(pasted)), CaptureStep::Finish(None)));
}

#[test]
fn watcher_gives_up_after_five_rejects() {
    let pasted = "Please send the report to Bob tomorrow.";
    let mut w = Watcher::start(pasted, "code", None).unwrap();
    for _ in 0..4 {
        assert!(matches!(w.capture(Some("Ln 1, Col 1")), CaptureStep::Wait));
    }
    assert!(matches!(w.capture(Some(pasted)), CaptureStep::Wait));
    for _ in 0..4 {
        assert!(matches!(w.capture(Some("Ln 1, Col 1")), CaptureStep::Wait));
    }
    assert!(matches!(w.capture(Some("Ln 1, Col 1")), CaptureStep::GiveUp));
}

#[test]
fn session_goes_round() {
    let mut s = Session::new();
    assert!(s.may_start().is_ok());
    assert_eq!(s.stop().unwrap_err(), "Not currently recording");
    assert_eq!(s.start(Err("no mic".to_string())).unwrap_err(), "no mic");
    assert_eq!(s.get_state(), RecordingState::Ready);
    assert!(s.start(Ok(())).is_ok());
    assert_eq!(s.get_state(), RecordingState::Recording);
    assert_eq!(s.start(Ok(())).unwrap_err(), "Already recording or transcribing");
    assert_eq!(s.may_start().unwrap_err(), "Already recording or transcribing");
    assert!(s.stop().is_ok());
    assert_eq!(s.get_state(), RecordingState::Transcribing);
    s.finish();
    assert_eq!(s.get_state(), RecordingState::Ready);
    assert_eq!(
        overlay_script(RecordingState::Recording),
        "document.getElementById('mic').className = 'mic recording';"
    );
}

#[test]
fn streaming_follows_the_settings() {
    let mut s = Settings::default();
    let c = streaming_config(&s, "/m/ggml.bin").unwrap();
    assert_eq!(c.model_path, "/m/ggml.bin");
    assert_eq!(c.partial_interval_ms, 700);
    assert_eq!(c.silence_threshold_ms, 800);
    assert!(!c.emit_partials);
    s.vad_silence_ms = 0;
    assert!(streaming_config(&s, "/m").is_none());
    s.streaming_captions = true;
    assert!(streaming_config(&s, "/m").unwrap().emit_partials);
}

fn profile(enabled: bool) -> AppProfileRow {
    AppProfileRow {
        bundle_id: "code".to_string(),
        display_name: "VS Code".to_string(),
        prompt_template: Some("TypeScript".to_string()),
        postprocess_mode: "code".to_string(),
        preferred_model: Some("small.en".to_string()),
        enabled,
        auto_apply_replacements: false,
        phonetic_match: true,
        code_case: "camel".to_string(),
        last_used_at: None,
        use_count: 0,
        is_persisted: true,
    }
}

#[test]
fn a_profile_has_its_say_while_it_is_on() {
    let on = Some(profile(true));
    let off = Some(profile(false));
    assert!(!app_disabled(&on));
    assert!(app_disabled(&off));
    assert!(!app_disabled(&None));
    assert_eq!(effective_model(&on, "medium.en"), "small.en");
    assert_eq!(effective_model(&off, "medium.en"), "medium.en");
    assert_eq!(effective_model(&None, "medium.en"), "medium.en");
    let mut blank = profile(true);
    blank.preferred_model = Some("  ".to_string());
    assert_eq!(effective_model(&Some(blank), "medium.en"), "medium.en");
    assert!(!applies_replacements(&on));
    assert!(applies_replacements(&off));
    assert!(applies_replacements(&None));
    assert_eq!(output_modes(&on), (Mode::Code, CodeCase::Camel));
    assert_eq!(output_modes(&off), (Mode::Default, CodeCase::Snake));
}

#[test]
fn the_prompt_of_a_dictation() {
    let on = Some(profile(true));
    let terms = vec!["rusqlite".to_string()];
    let common = vec!["Tauri".to_string(), "rusqlite".to_string()];
    let rights = vec![" ".to_string(), " KD ".to_string()];
    assert_eq!(
        dictation_prompt(&on, "be brief", &terms, &common, &rights),
        "TypeScript be brief rusqlite Tauri KD"
    );
    assert_eq!(dictation_prompt(&None, " be brief ", &[], &[], &[]), "be brief");
}

#[test]
fn engines_by_name() {
    assert_eq!(Engine::from_name("local").unwrap(), Engine::Local);
    assert_eq!(Engine::from_name("cloud").unwrap(), Engine::Cloud);
    assert_eq!(Engine::from_name("moon").unwrap_err(), "Unknown engine: moon");
    assert_eq!(Engine::Local.model_label("small"), "small");
    assert_eq!(Engine::Cloud.model_label("small"), "groq-whisper-large-v3-turbo");
}

#[test]
fn durations() {
    assert_eq!(clip_duration_ms(0), 0);
    assert_eq!(clip_duration_ms(16_000), 1_000);
    assert_eq!(clip_duration_ms(8_008), 500);
}

#[test]
fn template_variables() {
    assert_eq!(TemplateVar::from_key("date"), Some(TemplateVar::Date));
    assert_eq!(TemplateVar::from_key("clipboard"), Some(TemplateVar::Clipboard));
    assert_eq!(TemplateVar::from_key("Date"), None);
    assert_eq!(TemplateVar::Day.time_format(), Some("%A"));
    assert_eq!(TemplateVar::Time.time_format(), Some("%H:%M"));
    assert_eq!(TemplateVar::Date.time_format(), Some("%Y-%m-%d"));
    assert_eq!(TemplateVar::Selection.time_format(), None);
}

fn snippet(expansion: &str, is_dynamic: bool) -> Snippet {
    Snippet {
        trigger: "quote".to_string(),
        expansion: expansion.to_string(),
        is_dynamic,
    }
}

#[test]
fn the_selection_is_fetched_only_where_it_is_asked_for() {
    assert!(needs_selection(&[snippet("x", true), snippet("> {{selection}}", true)]));
    assert!(!needs_selection(&[snippet("> {{selection}}", false)]));
    assert!(!needs_selection(&[]));
}

#[test]
fn rewriting_composes() {
    let none = |_: &str| -> Option<String> { None };
    let r = rewrite(
        "code mode my new function",
        &[],
        &[],
        &none,
        Mode::Code,
        CodeCase::Camel,
    );
    assert_eq!(r.text, "myNewFunction");
    assert!(r.code_mode);
    let rows = vec![cr("kaidhar", "KD", 3, None)];
    let s = rewrite(
        "send send it to Kaidhar period Thank you.",
        &rows,
        &[],
        &none,
        Mode::Default,
        CodeCase::Snake,
    );
    assert_eq!(s.text, "send it to KD.");
    assert!(!s.clipboard_only);
    let c = rewrite("keep this clipboard instead", &[], &[], &none, Mode::Plain, CodeCase::Snake);
    assert_eq!(c.text, "keep this");
    assert!(c.clipboard_only);
}

#[test]
fn rewriting_asks_for_the_selection() {
    let resolver = |k: &str| -> Option<String> {
        if k == "selection" {
            Some("chosen".to_string())
        } else {
            None
        }
    };
    let r = rewrite(
        "quote",
        &[],
        &[snippet("> {{selection}}", true)],
        &resolver,
        Mode::Default,
        CodeCase::Snake,
    );
    assert_eq!(r.text, "> chosen");
}

#[test]
fn where_the_text_goes() {
    assert_eq!(delivery("", true), Delivery::Nothing);
    assert_eq!(delivery("x", true), Delivery::Clipboard);
    assert_eq!(delivery("x", false), Delivery::Paste);
    let mut s = Settings::default();
    assert_eq!(keeping(&s, "x", false, true), Keeping::Store);
    assert_eq!(keeping(&s, "x", true, true), Keeping::DropClip);
    assert_eq!(keeping(&s, "", false, false), Keeping::Nothing);
    s.save_transcriptions = false;
    assert_eq!(keeping(&s, "x", false, true), Keeping::DropClip);
    assert!(watches_edits(true, false));
    assert!(!watches_edits(true, true));
    assert!(!watches_edits(false, false));
}
