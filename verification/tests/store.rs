use typwrtr::db::corrections::{app_key, upsert_correction, CorrectionWrite};
use typwrtr::db::migrate::{pending_migrations, LATEST_VERSION};
use typwrtr::db::profiles::{check_profile, default_code_case, default_true};
use typwrtr::db::snippets::{insert_error, snippet_write, SnippetWrite};
use typwrtr::db::transcriptions::{best_ratio, find_recent_match};
use typwrtr::db::vocab::writes_term;
use typwrtr::db::{
    count_query, days_back, filled_days, wipe_script, AppProfileRow, DayCounts,
    RecentTranscription, SnippetRow,
};
use typwrtr::hotkeys::FIXUP_MIN_RATIO;

#[test]
fn migrate_brings_user_version_to_latest() {
    assert_eq!(pending_migrations(0), vec![1, 2, 3, 4, 5, 6]);
    assert_eq!(*pending_migrations(0).last().unwrap(), LATEST_VERSION);
}

#[test]
fn migrate_is_idempotent() {
    assert!(pending_migrations(LATEST_VERSION).is_empty());
    assert!(pending_migrations(LATEST_VERSION + 1).is_empty());
    assert_eq!(pending_migrations(4), vec![5, 6]);
    assert_eq!(pending_migrations(-1).len(), 6);
}

fn profile(mode: &str, case: &str, bundle: &str) -> AppProfileRow {
    AppProfileRow {
        bundle_id: bundle.to_string(),
        display_name: "VS Code".to_string(),
        prompt_template: None,
        postprocess_mode: mode.to_string(),
        preferred_model: None,
        enabled: true,
        auto_apply_replacements: default_true(),
        phonetic_match: default_true(),
        code_case: case.to_string(),
        last_used_at: None,
        use_count: 0,
        is_persisted: true,
    }
}

#[test]
fn upsert_rejects_invalid_postprocess_mode() {
    let err = check_profile(&profile("weird", "snake", "code")).unwrap_err();
    assert!(err.contains("invalid postprocess_mode"));
    assert_eq!(
        err,
        "invalid postprocess_mode 'weird'; expected one of [\"default\", \"markdown\", \"plain\", \"code\"]"
    );
}

#[test]
fn profiles_are_checked() {
    assert!(check_profile(&profile("default", &default_code_case(), "code")).is_ok());
    assert_eq!(
        check_profile(&profile("plain", "pascal", "code")).unwrap_err(),
        "invalid code_case 'pascal'; expected one of [\"snake\", \"camel\", \"kebab\"]"
    );
    assert_eq!(
        check_profile(&profile("code", "kebab", "  ")).unwrap_err(),
        "bundle_id is required"
    );
}

fn snippet(id: i64, trigger: &str, expansion: &str) -> SnippetRow {
    SnippetRow {
        id,
        trigger: trigger.to_string(),
        expansion: expansion.to_string(),
        is_dynamic: false,
        created_at: 0,
    }
}

#[test]
fn upsert_snippet_normalises_trigger_and_rejects_duplicates() {
    match snippet_write(&snippet(0, "  Hello World  ", "hi there"), false).unwrap() {
        SnippetWrite::Insert { trigger } => assert_eq!(trigger, "hello world"),
        _ => panic!("not an insert"),
    }
    let second = match snippet_write(&snippet(0, "HELLO WORLD", "different expansion"), true) {
        Ok(SnippetWrite::Insert { trigger }) => trigger,
        other => panic!("{other:?}"),
    };
    assert_eq!(second, "hello world");
    let err = insert_error(&second, "UNIQUE constraint failed: snippets.trigger");
    assert!(err.contains("already exists"));
    assert_eq!(err, "A snippet with trigger 'hello world' already exists");
    assert_eq!(insert_error("x", "disk full"), "disk full");
}

#[test]
fn snippets_are_checked() {
    assert_eq!(
        snippet_write(&snippet(0, " ", "x"), false).unwrap_err(),
        "Snippet trigger cannot be empty"
    );
    assert_eq!(
        snippet_write(&snippet(0, "t", ""), false).unwrap_err(),
        "Snippet expansion cannot be empty"
    );
    assert_eq!(
        snippet_write(&snippet(3, "T", "x"), true).unwrap_err(),
        "Another snippet already uses the trigger 't'"
    );
    match snippet_write(&snippet(3, "T", "x"), false).unwrap() {
        SnippetWrite::Update { id, trigger } => {
            assert_eq!(id, 3);
            assert_eq!(trigger, "t");
        }
        _ => panic!("not an update"),
    }
}

#[test]
fn correction_upsert_increments_count_on_repeat() {
    let first = upsert_correction(0, None);
    assert_eq!(first, CorrectionWrite::Insert);
    let second = upsert_correction(0, Some((1, first.new_count())));
    assert_eq!(second, CorrectionWrite::Recount { id: 1, count: 2 });
    let third = upsert_correction(0, Some((1, second.new_count())));
    assert_eq!(
        (first.new_count(), second.new_count(), third.new_count()),
        (1, 2, 3)
    );
}

#[test]
fn forget_correction_tombstones_and_blocks_relearning() {
    let after = upsert_correction(1, None);
    assert_eq!(after, CorrectionWrite::Nothing);
    assert_eq!(after.new_count(), 0);
    assert_eq!(upsert_correction(1, Some((1, 5))).new_count(), 0);
    assert_eq!(app_key(Some("code")), "code");
    assert_eq!(app_key(None), "");
}

#[test]
fn vocab_tombstone_blocks_reupsert() {
    assert!(writes_term(0));
    assert!(!writes_term(1));
}

fn row(id: i64, text: &str) -> RecentTranscription {
    RecentTranscription {
        id,
        created_at: 100 + id,
        cleaned_text: text.to_string(),
        app_bundle_id: Some("code".to_string()),
    }
}

#[test]
fn find_recent_match_picks_best_above_threshold() {
    let rows = vec![
        row(3, "the rust SQL light handle returns"),
        row(2, "buy milk and eggs"),
        row(1, "send the report to Kaidhar tomorrow"),
    ];
    let i = find_recent_match("send the report to Kaidhar", &rows, FIXUP_MIN_RATIO)
        .expect("should match the first row");
    assert!(rows[i].cleaned_text.contains("Kaidhar"));
}

#[test]
fn find_recent_match_returns_none_below_threshold() {
    let rows = vec![row(1, "the cat sat")];
    assert!(find_recent_match("totally unrelated string", &rows, FIXUP_MIN_RATIO).is_none());
}

#[test]
fn of_equal_matches_the_latest_counts() {
    let rows = vec![row(2, "same text"), row(1, "same text")];
    assert_eq!(find_recent_match("same text", &rows, FIXUP_MIN_RATIO), Some(0));
    assert_eq!(best_ratio(&vec![5, 7, 7, 6], 6), Some(1));
    assert_eq!(best_ratio(&vec![5], 6), None);
    assert_eq!(best_ratio(&vec![6], 6), Some(0));
    assert_eq!(FIXUP_MIN_RATIO, 0.6f32.to_bits());
    assert!(f64::from(f32::from_bits(FIXUP_MIN_RATIO)) >= 0.6);
    assert!(f64::from(f32::from_bits(FIXUP_MIN_RATIO - 1)) < 0.6);
}

#[test]
fn tables_and_days() {
    assert_eq!(count_query("snippets").unwrap(), "SELECT COUNT(*) FROM snippets");
    assert_eq!(count_query("sqlite_master").unwrap_err(), "unknown table: sqlite_master");
    assert_eq!(days_back(30).as_deref(), Some("-30 days"));
    assert!(days_back(0).is_none());
}

#[test]
fn a_wipe_empties_what_was_learned_and_forgotten() {
    assert_eq!(
        wipe_script(),
        "BEGIN; DELETE FROM corrections; DELETE FROM vocabulary; DELETE FROM transcriptions; \
         DELETE FROM app_profiles; DELETE FROM snippets; DELETE FROM correction_tombstones; \
         DELETE FROM vocabulary_tombstones; COMMIT;"
    );
}

#[test]
fn days_without_dictation_have_a_row() {
    let row = |date: &str, words: i64, dictations: i64, edited: i64| DayCounts {
        date: date.to_string(),
        words,
        dictations,
        edited,
    };
    let days: Vec<String> =
        ["2026-01-01", "2026-01-02", "2026-01-03"].iter().map(|d| d.to_string()).collect();
    let found = vec![row("2026-01-01", 7, 2, 1), row("2026-01-03", 4, 1, 0)];
    let shown: Vec<String> = filled_days(&days, &found)
        .iter()
        .map(|d| format!("{} {} {} {}", d.date, d.words, d.dictations, d.edited))
        .collect();
    assert_eq!(shown, ["2026-01-01 7 2 1", "2026-01-02 0 0 0", "2026-01-03 4 1 0"]);
    assert!(filled_days(&[], &found).is_empty());
}
