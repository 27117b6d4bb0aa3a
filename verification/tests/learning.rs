use typwrtr::learning::diff::{pairs_from_changes, pairs_from_diff, Change, ChangeTag, CorrectionPair};
use typwrtr::learning::focused_text::{capture_focused_text, first_text};
use typwrtr::learning::similar_ratio;
use typwrtr::learning::tally;

fn pair(w: &str, r: &str) -> CorrectionPair {
    CorrectionPair {
        wrong: w.to_string(),
        right: r.to_string(),
        context: String::new(),
    }
}

#[test]
fn no_change_yields_no_pairs() {
    assert!(pairs_from_diff("hello world", "hello world", 4).is_empty());
    assert!(pairs_from_diff("Hello world.", "Hello world.", 4).is_empty());
}

#[test]
fn case_only_delta_is_skipped() {
    let pairs = pairs_from_diff("hello world.", "Hello World.", 4);
    assert!(pairs.is_empty(), "got pairs: {:?}", pairs);
}

#[test]
fn single_token_substitution_is_captured_with_context() {
    let pairs = pairs_from_diff(
        "send the report to Kaidhar tomorrow",
        "send the report to KD tomorrow",
        4,
    );
    assert_eq!(pairs.len(), 1);
    let p = &pairs[0];
    assert_eq!(p.wrong, "Kaidhar");
    assert_eq!(p.right, "KD");
    assert!(p.context.contains("KD"));
    assert!(p.context.contains("report"));
}

#[test]
fn adjacent_replacements_group_into_one_pair() {
    let pairs = pairs_from_diff("the rust SQL light handle", "the rusqlite handle", 4);
    assert_eq!(pairs.len(), 1);
    assert_eq!(pairs[0].wrong, "rust SQL light");
    assert_eq!(pairs[0].right, "rusqlite");
}

#[test]
fn pure_insertion_emits_pair_with_empty_wrong() {
    let pairs = pairs_from_diff("hello world", "hello new world", 4);
    assert_eq!(pairs.len(), 1);
    assert_eq!(pairs[0].wrong, "");
    assert_eq!(pairs[0].right, "new");
}

#[test]
fn pure_deletion_emits_pair_with_empty_right() {
    let pairs = pairs_from_diff("hello strange world", "hello world", 4);
    assert_eq!(pairs.len(), 1);
    assert_eq!(pairs[0].wrong, "strange");
    assert_eq!(pairs[0].right, "");
}

#[test]
fn proper_noun_candidate_heuristic() {
    assert!(pair("foo", "Kaidhar").is_proper_noun_candidate());
    assert!(pair("foo", "API").is_proper_noun_candidate());
    assert!(pair("foo", "TypeScript").is_proper_noun_candidate());
    assert!(!pair("foo", "rusqlite").is_proper_noun_candidate());
    assert!(!pair("foo", "KD").is_proper_noun_candidate());
    assert!(!pair("foo", "the").is_proper_noun_candidate());
    assert!(!pair("foo", "ab").is_proper_noun_candidate());
    assert!(!pair("foo", "regular").is_proper_noun_candidate());
    assert!(!pair("foo", "two words").is_proper_noun_candidate());
}

#[test]
fn a_stopword_in_capitals_is_no_name() {
    assert!(!pair("foo", "THE").is_proper_noun_candidate());
    assert!(pair("foo", "  Tauri ").is_proper_noun_candidate());
    assert!(!pair("foo", "").is_proper_noun_candidate());
}

#[test]
fn runs_apart_make_pairs_apart() {
    let pairs = pairs_from_diff("a x b c d e f y g", "a z b c d e f w g", 1);
    assert_eq!(pairs.len(), 2);
    assert_eq!(pairs[0].wrong, "x");
    assert_eq!(pairs[0].right, "z");
    assert_eq!(pairs[0].context, "a z b");
    assert_eq!(pairs[1].wrong, "y");
    assert_eq!(pairs[1].right, "w");
    assert_eq!(pairs[1].context, "f w g");
}

#[test]
fn punctuation_alone_is_no_word() {
    assert!(pairs_from_diff("a , b", "a b", 4).is_empty());
    assert!(pairs_from_diff("...", "", 4).is_empty());
}

fn change(tag: ChangeTag, value: &str) -> Change {
    Change { tag, value: value.to_string() }
}

#[test]
fn pairs_of_given_changes() {
    let finals: Vec<String> = vec!["one".to_string(), "two".to_string(), "three".to_string()];
    let changes = vec![
        change(ChangeTag::Insert, "one"),
        change(ChangeTag::Delete, "uno"),
        change(ChangeTag::Equal, "two"),
        change(ChangeTag::Delete, "Three"),
        change(ChangeTag::Insert, "three"),
    ];
    let pairs = pairs_from_changes(&changes, &finals, 10);
    assert_eq!(pairs.len(), 1);
    assert_eq!(pairs[0].wrong, "uno");
    assert_eq!(pairs[0].right, "one");
    assert_eq!(pairs[0].context, "one two three");
    let none = pairs_from_changes(&changes, &finals, usize::MAX);
    assert_eq!(none.len(), 1);
    assert_eq!(none[0].context, "one two three");
}

#[test]
fn ratio_bits_order_as_ratios_do() {
    assert_eq!(similar_ratio("abcd", "bcde"), 0.75f32.to_bits());
    assert_eq!(similar_ratio("same", "same"), 1.0f32.to_bits());
    assert_eq!(similar_ratio("", ""), 1.0f32.to_bits());
    assert_eq!(similar_ratio("abc", "xyz"), 0.0f32.to_bits());
    assert!(similar_ratio("hello there", "hello here") > similar_ratio("hello there", "help"));
}

#[test]
fn focused_text_where_it_cannot_be_asked_for() {
    assert!(capture_focused_text().unwrap().is_none());
}

#[test]
fn the_first_answer_that_is_not_blank_counts() {
    let answers = vec![None, Some("  ".to_string()), Some(" text ".to_string()), Some("x".to_string())];
    assert_eq!(first_text(&answers).unwrap().text, " text ");
    assert!(first_text(&[None, Some(String::new())]).is_none());
}

#[test]
fn tally_counts_what_was_written() {
    assert!(tally::worth_writing(&pair("a", "")));
    assert!(tally::worth_writing(&pair("", "b")));
    assert!(!tally::worth_writing(&pair("", "")));
    let name = tally::record(&pair("cadence", "Kadence"), 1, 2);
    assert_eq!(name.applied, 3);
    assert!(name.promote);
    let word = tally::record(&pair("their", "there"), 4, 3);
    assert_eq!(word.applied, 4);
    assert!(!word.promote);
    let forgotten = tally::record(&pair("cadence", "Kadence"), 0, 4);
    assert_eq!(forgotten.applied, 4);
    assert!(!forgotten.promote);
}

#[test]
fn pairs_account_for_every_change() {
    let pairs = pairs_from_diff(
        "one two three four five six seven",
        "zero one TWO three 4 five seven",
        1,
    );
    let sides: Vec<(&str, &str)> =
        pairs.iter().map(|p| (p.wrong.as_str(), p.right.as_str())).collect();
    assert_eq!(sides, [("", "zero"), ("four", "4"), ("six", "")]);
}
