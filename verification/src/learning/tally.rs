//! The count of corrections that were learned from one text.
use vstd::prelude::*;
use crate::learning::diff;
use crate::learning::diff::CorrectionPair;
use crate::text;
use crate::text::Class;

verus! {

/// Whether a pair is worth writing: not one that says nothing.
pub fn worth_writing(pair: &CorrectionPair) -> (r: bool)
    ensures
        r == (pair.wrong@.len() > 0 || pair.right@.len() > 0),
{
    !pair.wrong.as_str().is_empty() || !pair.right.as_str().is_empty()
}

/// What follows from writing a pair.
#[derive(Debug, Clone, Copy, PartialEq, Eq, Structural)]
pub struct Written {
    /// How many pairs were learned so far.
    pub applied: u32,
    /// What the user wrote goes into the vocabulary.
    pub promote: bool,
}

/// What follows from writing a pair, given how often it was seen by now; 0
/// says that it was forgotten before and was not written.
pub open spec fn written(pair: diff::PairText, new_count: i64, applied: int) -> (int, bool) {
    if new_count > 0 {
        (applied + 1, diff::name_shaped(text::trimmed(Class::WhiteSpace, pair.right)))
    } else {
        (applied, false)
    }
}

/// What follows from writing a pair, given how often it was seen by now.
pub fn record(pair: &CorrectionPair, new_count: i64, applied: u32) -> (r: Written)
    requires
        applied < u32::MAX,
    ensures
        r.applied == written(pair@, new_count, applied as int).0,
        r.promote == written(pair@, new_count, applied as int).1,
{
    if new_count > 0 {
        Written { applied: applied + 1, promote: pair.is_proper_noun_candidate() }
    } else {
        Written { applied, promote: false }
    }
}

/// A pair that was forgotten counts for nothing and goes nowhere.
pub proof fn law_forgotten_pair_teaches_nothing(pair: diff::PairText, applied: int)
    ensures
        written(pair, 0, applied) == (applied, false),
{
}

} // verus!
