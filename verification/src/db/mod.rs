//! The rows of the local store, and the rules by which it learns and forgets.
//!
//! The store itself is reached elsewhere. What is here decides, from the rows
//! that were read, which rows are to be written.
use vstd::prelude::*;
use crate::text;

pub mod corrections;
pub mod migrate;
pub mod profiles;
pub mod snippets;
pub mod transcriptions;
pub mod vocab;

verus! {

/// Row counts of the tables that learning writes to.
#[derive(Debug, Clone, Default)]
pub struct DbHealth {
    pub transcriptions: i64,
    pub corrections: i64,
    pub vocabulary: i64,
    pub app_profiles: i64,
    pub snippets: i64,
}

/// A past transcription that a correction may belong to.
#[derive(Debug, Clone)]
pub struct RecentTranscription {
    pub id: i64,
    pub created_at: i64,
    pub cleaned_text: String,
    pub app_bundle_id: Option<String>,
}

/// A learned correction.
#[derive(Debug, Clone)]
pub struct CorrectionRow {
    pub id: i64,
    pub wrong: String,
    pub right: String,
    pub context: Option<String>,
    pub app_bundle_id: Option<String>,
    pub count: i64,
    pub last_seen_at: i64,
    /// `manual` where the user entered it, `auto` where it was observed.
    pub source: String,
}

/// A snippet as it is stored. The id is 0 while it is new.
#[derive(Debug, Clone)]
pub struct SnippetRow {
    pub id: i64,
    pub trigger: String,
    pub expansion: String,
    pub is_dynamic: bool,
    pub created_at: i64,
}

/// The settings of one app, with what is known of its use.
#[derive(Debug, Clone)]
pub struct AppProfileRow {
    pub bundle_id: String,
    pub display_name: String,
    pub prompt_template: Option<String>,
    pub postprocess_mode: String,
    pub preferred_model: Option<String>,
    pub enabled: bool,
    /// Learned corrections are put into the text before it is pasted.
    pub auto_apply_replacements: bool,
    /// Corrections also cover words that sound alike.
    pub phonetic_match: bool,
    /// The identifier convention of the `code` mode.
    pub code_case: String,
    /// Unix seconds; none where nothing was ever dictated into the app.
    pub last_used_at: Option<i64>,
    pub use_count: i64,
    /// The profile is stored, not made up from past transcriptions.
    pub is_persisted: bool,
}

/// A finished transcription that is to be stored.
#[derive(Debug, Clone)]
pub struct NewTranscription<'a> {
    pub created_at: i64,
    pub audio_path: Option<&'a str>,
    pub raw_text: &'a str,
    pub cleaned_text: &'a str,
    pub app_bundle_id: Option<&'a str>,
    pub app_title: Option<&'a str>,
    pub model: &'a str,
    pub duration_ms: i64,
    pub latency_ms: i64,
    pub source: &'a str,
}

/// What was dictated in a span of time.
#[derive(Debug, Clone, Default)]
pub struct UsageWindow {
    pub words: i64,
    pub dictations: i64,
    pub duration_ms_total: i64,
    pub edited: i64,
    pub avg_latency_ms: i64,
}

/// What was dictated into one app.
#[derive(Debug, Clone)]
pub struct AppBreakdown {
    pub bundle_id: String,
    pub display_name: String,
    pub words: i64,
    pub dictations: i64,
}

/// The tables whose rows are counted.
pub const TABLES: [&'static str; 5] = [
    "transcriptions",
    "corrections",
    "vocabulary",
    "app_profiles",
    "snippets",
];

/// Whether a name is in a list.
pub open spec fn listed(list: Seq<&str>, name: Seq<char>) -> bool {
    exists|i: int| 0 <= i < list.len() && (#[trigger] list[i])@ == name
}

pub fn is_listed(list: &[&str], name: &str) -> (r: bool)
    ensures
        r == listed(list@, name@),
{
    let mut i: usize = 0;
    while i < list.len()
        invariant
            i <= list@.len(),
            forall|j: int| 0 <= j < i ==> (#[trigger] list@[j])@ != name@,
        decreases list@.len() - i,
    {
        if text::same_text(list[i], name) {
            return true;
        }
        i += 1;
    }
    false
}

/// The query that counts the rows of a table. A name that is not one of the
/// tables makes no query.
pub fn count_query(table: &str) -> (r: Result<String, String>)
    ensures
        match r {
            Ok(q) => listed(TABLES@, table@) && q@ == "SELECT COUNT(*) FROM "@ + table@,
            Err(e) => !listed(TABLES@, table@) && e@ == "unknown table: "@ + table@,
        },
{
    let tables = TABLES;
    if is_listed(tables.as_slice(), table) {
        Ok(text::concat("SELECT COUNT(*) FROM ", table))
    } else {
        Err(text::concat("unknown table: ", table))
    }
}

/// How far back daily counts go, as the store's clock takes it; none for no
/// days.
pub fn days_back(days: i64) -> (r: Option<String>)
    ensures
        match r {
            Some(m) => days > 0 && m@ == "-"@ + text::decimal(days as nat) + " days"@,
            None => days <= 0,
        },
{
    if days <= 0 {
        return None;
    }
    let head = text::concat("-", text::decimal_text(days as u64).as_str());
    Some(text::concat(head.as_str(), " days"))
}

/// The tables that hold what was learned: all but the settings. The marks of
/// what was forgotten are among them.
pub const LEARNED_TABLES: [&'static str; 7] = [
    "corrections",
    "vocabulary",
    "transcriptions",
    "app_profiles",
    "snippets",
    "correction_tombstones",
    "vocabulary_tombstones",
];

/// Statements that empty tables, one after the other.
pub open spec fn deletions(tables: Seq<&str>) -> Seq<char>
    decreases tables.len(),
{
    if tables.len() == 0 {
        Seq::empty()
    } else {
        deletions(tables.drop_last()) + " DELETE FROM "@ + tables.last()@ + ";"@
    }
}

/// The statements that empty every table that holds what was learned, all or
/// none of them.
pub fn wipe_script() -> (r: String)
    ensures
        r@ == "BEGIN;"@ + deletions(LEARNED_TABLES@) + " COMMIT;"@,
{
    let tables = LEARNED_TABLES;
    let mut out = "BEGIN;".to_owned();
    let mut i: usize = 0;
    assert(tables@.take(0) =~= Seq::empty());
    assert(out@ =~= "BEGIN;"@ + deletions(tables@.take(0)));
    while i < tables.len()
        invariant
            i <= tables.len(),
            out@ == "BEGIN;"@ + deletions(tables@.take(i as int)),
        decreases tables.len() - i,
    {
        assert(tables@.take(i + 1).drop_last() =~= tables@.take(i as int));
        let head = text::concat(out.as_str(), " DELETE FROM ");
        let named = text::concat(head.as_str(), tables[i]);
        out = text::concat(named.as_str(), ";");
        assert(out@ =~= "BEGIN;"@ + deletions(tables@.take(i + 1)));
        i += 1;
    }
    assert(tables@.take(i as int) =~= tables@);
    text::concat(out.as_str(), " COMMIT;")
}

/// What was dictated on one day.
#[derive(Debug, Clone)]
pub struct DayCounts {
    /// The day, as `YYYY-MM-DD`.
    pub date: String,
    pub words: i64,
    pub dictations: i64,
    /// How many of the texts were edited.
    pub edited: i64,
}

/// The first of the rows from `i` on that is of a day.
pub open spec fn row_of_day(found: Seq<DayCounts>, day: Seq<char>, i: int) -> Option<int>
    decreases found.len() - i,
{
    if i < 0 || i >= found.len() {
        None
    } else if found[i].date@ == day {
        Some(i)
    } else {
        row_of_day(found, day, i + 1)
    }
}

/// Words, dictations and edited texts of a day; none where there is no row of
/// it.
pub open spec fn counts_of_day(found: Seq<DayCounts>, day: Seq<char>) -> (i64, i64, i64) {
    match row_of_day(found, day, 0) {
        Some(i) => (found[i].words, found[i].dictations, found[i].edited),
        None => (0, 0, 0),
    }
}

fn counts_on(found: &[DayCounts], day: &str) -> (r: (i64, i64, i64))
    ensures
        r == counts_of_day(found@, day@),
{
    let mut i: usize = 0;
    while i < found.len()
        invariant
            i <= found@.len(),
            row_of_day(found@, day@, 0) == row_of_day(found@, day@, i as int),
        decreases found@.len() - i,
    {
        if text::same_text(found[i].date.as_str(), day) {
            return (found[i].words, found[i].dictations, found[i].edited);
        }
        i += 1;
    }
    (0, 0, 0)
}

/// One row for each of the days, in their order. A day on which nothing was
/// dictated has a row of zeros.
pub fn filled_days(days: &[String], found: &[DayCounts]) -> (r: Vec<DayCounts>)
    ensures
        r.len() == days@.len(),
        forall|i: int|
            0 <= i < r.len() ==> (#[trigger] r[i]).date@ == days@[i]@ && (
                r[i].words,
                r[i].dictations,
                r[i].edited,
            ) == counts_of_day(found@, days@[i]@),
{
    let mut out: Vec<DayCounts> = Vec::new();
    let mut i: usize = 0;
    while i < days.len()
        invariant
            i <= days@.len(),
            out.len() == i,
            forall|j: int|
                0 <= j < i ==> (#[trigger] out[j]).date@ == days@[j]@ && (
                    out[j].words,
                    out[j].dictations,
                    out[j].edited,
                ) == counts_of_day(found@, days@[j]@),
        decreases days@.len() - i,
    {
        let (words, dictations, edited) = counts_on(found, days[i].as_str());
        let date = days[i].clone();
        out.push(DayCounts { date, words, dictations, edited });
        i += 1;
    }
    out
}

} // verus!
