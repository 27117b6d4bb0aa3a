//! What is stored, counted, forgotten and found again.
use vstd::prelude::*;
use crate::chars;
use crate::db;
use crate::db::corrections;
use crate::db::corrections::{CorrectionKey, CorrectionWrite, Ledger};
use crate::db::migrate;
use crate::db::profiles;
use crate::db::snippets;
use crate::db::transcriptions;
use crate::db::vocab;
use crate::db::vocab::Terms;
use crate::db::{AppProfileRow, DayCounts, RecentTranscription, SnippetRow};
use crate::laws;
use crate::learning::diff;
use crate::learning::diff::PairText;
use crate::learning::similarity;
use crate::learning::tally;
use crate::settings;
use crate::text;
use crate::text::Class;

verus! {

/// A correction is written once more each time it is seen: a new row the first
/// time, one more in the row that there is, and nothing once it was forgotten.
pub proof fn law_correction_rows(id: i64, count: i64, existing: Option<(i64, i64)>)
    requires
        count < i64::MAX,
    ensures
        corrections::correction_write(true, existing) == CorrectionWrite::Nothing,
        corrections::correction_write(false, None) == CorrectionWrite::Insert,
        corrections::correction_write(false, Some((id, count))) == (CorrectionWrite::Recount {
            id,
            count: (count + 1) as i64,
        }),
        corrections::count_after(CorrectionWrite::Nothing) == 0,
        corrections::count_after(CorrectionWrite::Insert) == 1,
        corrections::count_after(CorrectionWrite::Recount { id, count }) == count,
{
}

/// Seeing a correction counts it and no other.
pub proof fn law_ledger(l: Ledger, k: CorrectionKey)
    requires
        l.counts.dom().contains(k) ==> 0 <= l.counts[k] < i64::MAX,
    ensures
        l.tombstones.contains(k) ==> corrections::seen(l, k) == l,
        !l.tombstones.contains(k) && !l.counts.dom().contains(k) ==> corrections::seen(l, k) == (
        Ledger { counts: l.counts.insert(k, 1), ..l }),
        !l.tombstones.contains(k) && l.counts.dom().contains(k) ==> corrections::seen(l, k) == (
        Ledger { counts: l.counts.insert(k, l.counts[k] + 1), ..l }),
        l.counts.dom().contains(k) ==> corrections::forgotten(l, k) == (Ledger {
            counts: l.counts.remove(k),
            tombstones: l.tombstones.insert(k),
        }),
        !l.counts.dom().contains(k) ==> corrections::forgotten(l, k) == l,
{
}

/// A term that was forgotten is not learned; any other is, under the app where
/// it was first met.
pub proof fn law_vocabulary(t: Terms, term: Seq<char>, app: Option<Seq<char>>)
    ensures
        t.tombstones.contains(term) ==> vocab::learned(t, term, app) == t,
        !t.tombstones.contains(term) && !t.apps.dom().contains(term) ==> vocab::learned(
            t,
            term,
            app,
        ) == (Terms { apps: t.apps.insert(term, app), ..t }),
        !t.tombstones.contains(term) && t.apps.dom().contains(term) && t.apps[term] is None
            ==> vocab::learned(t, term, app) == (Terms { apps: t.apps.insert(term, app), ..t }),
        !t.tombstones.contains(term) && t.apps.dom().contains(term) && t.apps[term] is Some
            ==> vocab::learned(t, term, app) == (Terms {
            apps: t.apps.insert(term, t.apps[term]),
            ..t
        }),
{
}

/// A pair that was written counts, and what the user wrote goes into the
/// vocabulary where it looks like a name.
pub proof fn law_written_pair(pair: PairText, count: i64, applied: int)
    ensures
        count > 0 ==> tally::written(pair, count, applied) == (
            applied + 1,
            diff::name_shaped(text::trimmed(Class::WhiteSpace, pair.right)),
        ),
        count <= 0 ==> tally::written(pair, count, applied) == (applied, false),
{
}

/// The steps that a store still needs are those behind its version, up to the
/// sixth, in order.
pub proof fn law_migrations(current: int)
    ensures
        0 <= current <= 6 ==> migrate::pending_from(current).len() == 6 - current,
        current > 6 ==> migrate::pending_from(current).len() == 0,
        current < 0 ==> migrate::pending_from(current) == migrate::pending_from(0),
        forall|i: int|
            0 <= i < migrate::pending_from(current).len() && 0 <= current
                ==> #[trigger] migrate::pending_from(current)[i] == current + 1 + i,
{
    assert(migrate::pending_from(-1) =~= migrate::pending_from(0));
    if current < 0 {
        assert(migrate::pending_from(current) =~= migrate::pending_from(0));
    }
}

/// A profile is taken where its mode and its case are known and it names an
/// app.
pub proof fn law_profiles(p: AppProfileRow)
    ensures
        ({
            let m = p.postprocess_mode@;
            let c = p.code_case@;
            let mode = m == "default"@ || m == "markdown"@ || m == "plain"@ || m == "code"@;
            let case = c == "snake"@ || c == "camel"@ || c == "kebab"@;
            let app = !laws::text::all_of(Class::WhiteSpace, p.bundle_id@);
            profiles::profile_error(p) is None <==> mode && case && app
        }),
{
    let modes = profiles::POSTPROCESS_MODES@;
    let cases = profiles::CODE_CASES@;
    laws::text::law_blank(Class::WhiteSpace, p.bundle_id@);
    assert(modes[0]@ == "default"@);
    assert(modes[1]@ == "markdown"@);
    assert(modes[2]@ == "plain"@);
    assert(modes[3]@ == "code"@);
    assert(cases[0]@ == "snake"@);
    assert(cases[1]@ == "camel"@);
    assert(cases[2]@ == "kebab"@);
}

/// A trigger is stored in lower case, without the white space around it.
pub proof fn law_stored_trigger(head: Seq<char>, body: Seq<char>, tail: Seq<char>)
    requires
        laws::text::all_of(Class::WhiteSpace, head),
        laws::text::all_of(Class::WhiteSpace, tail),
        laws::text::bare(Class::WhiteSpace, body),
    ensures
        snippets::stored_trigger(head + body + tail) == chars::lowercase(body),
{
    laws::text::law_trimmed(Class::WhiteSpace, head, body, tail);
}

/// A snippet is taken where it has a trigger and an expansion, and no other
/// has the trigger that a stored one is to get.
pub proof fn law_snippets(s: SnippetRow, taken: bool)
    ensures
        snippets::snippet_error(s, taken) is None <==> snippets::stored_trigger(s.trigger@).len()
            > 0 && s.expansion@.len() > 0 && !(s.id > 0 && taken),
{
}

/// A selection is compared with each of the recent texts as a whole.
pub proof fn law_compared_texts(selection: Seq<char>, rows: Seq<RecentTranscription>, i: int)
    requires
        0 <= i < rows.len(),
    ensures
        transcriptions::ratios(selection, rows).len() == rows.len(),
        transcriptions::ratios(selection, rows)[i] == similarity::ratio_bits(
            selection,
            rows[i].cleaned_text@,
        ),
{
}

/// The counts of a day are those of the first row of that day; a day without a
/// row has none.
pub proof fn law_counts_of_a_day(found: Seq<DayCounts>, day: Seq<char>, i: int)
    ensures
        0 <= i < found.len() && found[i].date@ == day && (forall|j: int|
            0 <= j < i ==> (#[trigger] found[j]).date@ != day) ==> db::counts_of_day(found, day)
            == (found[i].words, found[i].dictations, found[i].edited),
        (forall|j: int| 0 <= j < found.len() ==> (#[trigger] found[j]).date@ != day)
            ==> db::counts_of_day(found, day) == (0i64, 0i64, 0i64),
{
    lemma_row_of_day(found, day, 0);
    if let Some(k) = db::row_of_day(found, day, 0) {
        if 0 <= i < found.len() && found[i].date@ == day {
            assert(k == i || found[k].date@ == day);
        }
    }
}

proof fn lemma_row_of_day(found: Seq<DayCounts>, day: Seq<char>, from: int)
    requires
        0 <= from,
    ensures
        match db::row_of_day(found, day, from) {
            Some(k) => from <= k < found.len() && found[k].date@ == day && forall|j: int|
                from <= j < k ==> (#[trigger] found[j]).date@ != day,
            None => forall|j: int| from <= j < found.len() ==> (#[trigger] found[j]).date@ != day,
        },
    decreases found.len() - from,
{
    if from < found.len() {
        lemma_row_of_day(found, day, from + 1);
    }
}

/// Each table has a statement of its own, in order.
pub proof fn law_deletions(tables: Seq<&'static str>, table: &'static str)
    ensures
        db::deletions(Seq::empty()) == Seq::<char>::empty(),
        db::deletions(tables.push(table)) == db::deletions(tables) + " DELETE FROM "@ + table@
            + ";"@,
{
    assert(tables.push(table).drop_last() =~= tables);
}

/// What is emptied: all that was learned or stored, and the marks of what was
/// forgotten.
pub proof fn law_tables()
    ensures
        db::LEARNED_TABLES@.len() == 7,
        db::LEARNED_TABLES@[0]@ == "corrections"@,
        db::LEARNED_TABLES@[1]@ == "vocabulary"@,
        db::LEARNED_TABLES@[2]@ == "transcriptions"@,
        db::LEARNED_TABLES@[3]@ == "app_profiles"@,
        db::LEARNED_TABLES@[4]@ == "snippets"@,
        db::LEARNED_TABLES@[5]@ == "correction_tombstones"@,
        db::LEARNED_TABLES@[6]@ == "vocabulary_tombstones"@,
{
}

/// A name is in a list wherever it stands there.
pub proof fn law_listed(list: Seq<&'static str>, i: int, name: Seq<char>)
    ensures
        0 <= i < list.len() ==> db::listed(list, list[i]@),
        (forall|j: int| 0 <= j < list.len() ==> (#[trigger] list[j])@ != name) ==> !db::listed(
            list,
            name,
        ),
{
}

/// A directory that is set is used, without the white space around it; a blank
/// one is not.
pub proof fn law_directory(setting: Seq<char>, other: Seq<char>)
    ensures
        laws::text::all_of(Class::WhiteSpace, setting) ==> settings::directory_or(setting, other)
            == other,
        !laws::text::all_of(Class::WhiteSpace, setting) ==> settings::directory_or(setting, other)
            == text::trimmed(Class::WhiteSpace, setting),
{
    laws::text::law_blank(Class::WhiteSpace, setting);
}

/// A model is of the engine that its name starts with.
pub proof fn law_engines(rest: Seq<char>, id: Seq<char>)
    ensures
        settings::engine_of("parakeet"@ + rest) == "parakeet"@,
        (forall|r: Seq<char>| id != #[trigger] ("parakeet"@ + r)) ==> settings::engine_of(id)
            == "whisper"@,
{
    assert("parakeet"@.is_prefix_of("parakeet"@ + rest));
    if "parakeet"@.is_prefix_of(id) {
        let n = "parakeet"@.len() as int;
        assert(id =~= "parakeet"@ + id.skip(n));
    }
}

/// A configuration file is outdated where any of the old keys is in it.
pub proof fn law_outdated(keys: Set<Seq<char>>)
    ensures
        !settings::outdated(None),
        settings::outdated(Some(keys)) == (keys.contains("engine"@) || keys.contains("groqApiKey"@)
            || keys.contains("llmCleanup"@) || keys.contains("ollamaUrl"@) || keys.contains(
            "ollamaModel"@,
        ) || keys.contains("ollamaTimeoutMs"@) || keys.contains("grammarCorrection"@)
            || keys.contains("grammarSkipAboveLogprob"@)),
{
    let old = settings::LEGACY_KEYS@;
    assert(old[0]@ == "engine"@);
    assert(old[1]@ == "groqApiKey"@);
    assert(old[2]@ == "llmCleanup"@);
    assert(old[3]@ == "ollamaUrl"@);
    assert(old[4]@ == "ollamaModel"@);
    assert(old[5]@ == "ollamaTimeoutMs"@);
    assert(old[6]@ == "grammarCorrection"@);
    assert(old[7]@ == "grammarSkipAboveLogprob"@);
}

} // verus!
