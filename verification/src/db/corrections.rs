//! How corrections are learned and forgotten.
//!
//! A correction is known by what was heard, what was meant, and the app. One
//! that the user has forgotten leaves a mark, and is not learned again.
use vstd::prelude::*;

verus! {

/// What identifies a correction. The app is empty where there is none.
#[verifier::ext_equal]
pub struct CorrectionKey {
    pub wrong: Seq<char>,
    pub right: Seq<char>,
    pub app: Seq<char>,
}

/// What is written for a correction that was seen.
#[derive(Debug, Clone, Copy, PartialEq, Eq, Structural)]
pub enum CorrectionWrite {
    /// Nothing: the user has forgotten it.
    Nothing,
    /// A new row, seen once.
    Insert,
    /// The row that there is, with a new count.
    Recount { id: i64, count: i64 },
}

/// What is written for a correction that was seen, given whether it was
/// forgotten and the row that there is: its id and how often it was seen.
pub open spec fn correction_write(tombstoned: bool, existing: Option<(i64, i64)>) -> CorrectionWrite {
    if tombstoned {
        CorrectionWrite::Nothing
    } else {
        match existing {
            Some((id, count)) => CorrectionWrite::Recount { id, count: (count + 1) as i64 },
            None => CorrectionWrite::Insert,
        }
    }
}

/// How often a correction was seen once it was written; 0 where it was not.
pub open spec fn count_after(w: CorrectionWrite) -> int {
    match w {
        CorrectionWrite::Nothing => 0,
        CorrectionWrite::Insert => 1,
        CorrectionWrite::Recount { count, .. } => count as int,
    }
}

/// What is written for a correction that was seen.
pub fn upsert_correction(tombstones: i64, existing: Option<(i64, i64)>) -> (r: CorrectionWrite)
    requires
        existing matches Some((_, count)) ==> count < i64::MAX,
    ensures
        r == correction_write(tombstones > 0, existing),
{
    if tombstones > 0 {
        return CorrectionWrite::Nothing;
    }
    match existing {
        Some((id, count)) => CorrectionWrite::Recount { id, count: count + 1 },
        None => CorrectionWrite::Insert,
    }
}

impl CorrectionWrite {
    /// How often the correction was seen once this is written.
    pub fn new_count(self) -> (r: i64)
        ensures
            r == count_after(self),
    {
        match self {
            CorrectionWrite::Nothing => 0,
            CorrectionWrite::Insert => 1,
            CorrectionWrite::Recount { count, .. } => count,
        }
    }
}

/// The app by which a correction is known; empty where there is none.
pub fn app_key(app_bundle_id: Option<&str>) -> (r: String)
    ensures
        r@ == (match app_bundle_id {
            Some(a) => a@,
            None => Seq::empty(),
        }),
{
    match app_bundle_id {
        Some(a) => a.to_owned(),
        None => String::new(),
    }
}

/// The corrections that are known, and those that were forgotten.
#[verifier::ext_equal]
pub struct Ledger {
    /// How often each was seen.
    pub counts: Map<CorrectionKey, int>,
    pub tombstones: Set<CorrectionKey>,
}

/// The ledger after a correction was seen.
pub open spec fn seen(l: Ledger, k: CorrectionKey) -> Ledger {
    let existing = if l.counts.dom().contains(k) {
        Some((0i64, l.counts[k] as i64))
    } else {
        None
    };
    match correction_write(l.tombstones.contains(k), existing) {
        CorrectionWrite::Nothing => l,
        w => Ledger { counts: l.counts.insert(k, count_after(w)), ..l },
    }
}

/// The ledger after a correction was forgotten. One that is not known cannot
/// be.
pub open spec fn forgotten(l: Ledger, k: CorrectionKey) -> Ledger {
    if l.counts.dom().contains(k) {
        Ledger { counts: l.counts.remove(k), tombstones: l.tombstones.insert(k) }
    } else {
        l
    }
}

/// The ledger after corrections were seen one after the other.
pub open spec fn seen_all(l: Ledger, ks: Seq<CorrectionKey>) -> Ledger
    decreases ks.len(),
{
    if ks.len() == 0 {
        l
    } else {
        seen(seen_all(l, ks.drop_last()), ks.last())
    }
}

/// A correction that the user has forgotten is not learned again, whatever is
/// seen later, and stays marked.
pub proof fn law_forgotten_stays_forgotten(l: Ledger, k: CorrectionKey, ks: Seq<CorrectionKey>)
    requires
        l.counts.dom().contains(k),
    ensures
        !seen_all(forgotten(l, k), ks).counts.dom().contains(k),
        seen_all(forgotten(l, k), ks).tombstones.contains(k),
    decreases ks.len(),
{
    if ks.len() > 0 {
        law_forgotten_stays_forgotten(l, k, ks.drop_last());
    }
}

/// A new correction that is seen `n` times is known to have been seen `n`
/// times.
pub proof fn law_counts_add_up(l: Ledger, k: CorrectionKey, n: nat)
    requires
        !l.counts.dom().contains(k),
        !l.tombstones.contains(k),
        0 < n < i64::MAX,
    ensures
        seen_all(l, Seq::new(n, |i: int| k)).counts.dom().contains(k),
        seen_all(l, Seq::new(n, |i: int| k)).counts[k] == n,
        !seen_all(l, Seq::new(n, |i: int| k)).tombstones.contains(k),
    decreases n,
{
    let ks = Seq::new(n, |i: int| k);
    let m = (n - 1) as nat;
    assert(ks.drop_last() =~= Seq::new(m, |i: int| k));
    if m > 0 {
        law_counts_add_up(l, k, m);
    } else {
        assert(ks.drop_last() =~= Seq::empty());
    }
}

/// What is seen of one correction changes nothing of another.
pub proof fn law_corrections_are_independent(l: Ledger, k: CorrectionKey, other: CorrectionKey)
    requires
        k != other,
    ensures
        seen(l, k).counts.dom().contains(other) == l.counts.dom().contains(other),
        l.counts.dom().contains(other) ==> seen(l, k).counts[other] == l.counts[other],
        seen(l, k).tombstones == l.tombstones,
        forgotten(l, k).counts.dom().contains(other) == l.counts.dom().contains(other),
        l.counts.dom().contains(other) ==> forgotten(l, k).counts[other] == l.counts[other],
{
}

/// The ledger after everything that was learned was wiped.
pub open spec fn wiped(l: Ledger) -> Ledger {
    Ledger { counts: Map::empty(), tombstones: Set::empty() }
}

/// After a wipe every correction is learned from the start, also one that was
/// forgotten before.
pub proof fn law_a_wipe_starts_over(l: Ledger, k: CorrectionKey)
    ensures
        seen(wiped(l), k).counts == Map::<CorrectionKey, int>::empty().insert(k, 1),
{
}

} // verus!
