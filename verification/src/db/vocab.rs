//! How terms come into the vocabulary and leave it.
use vstd::prelude::*;

verus! {

/// Whether a term is written: not where the user has forgotten it.
pub open spec fn writes(tombstoned: bool) -> bool {
    !tombstoned
}

/// Whether a term is written, given how many marks say that it was forgotten.
pub fn writes_term(tombstones: i64) -> (r: bool)
    ensures
        r == writes(tombstones > 0),
{
    tombstones <= 0
}

/// The terms that are known, each with the app it belongs to, and those that
/// were forgotten.
#[verifier::ext_equal]
pub struct Terms {
    pub apps: Map<Seq<char>, Option<Seq<char>>>,
    pub tombstones: Set<Seq<char>>,
}

/// The terms after one was learned. One that has an app keeps it.
pub open spec fn learned(t: Terms, term: Seq<char>, app: Option<Seq<char>>) -> Terms {
    if !writes(t.tombstones.contains(term)) {
        t
    } else {
        let kept = if t.apps.dom().contains(term) && t.apps[term] is Some {
            t.apps[term]
        } else {
            app
        };
        Terms { apps: t.apps.insert(term, kept), ..t }
    }
}

/// The terms after one was forgotten. One that is not known cannot be.
pub open spec fn forgotten(t: Terms, term: Seq<char>) -> Terms {
    if t.apps.dom().contains(term) {
        Terms { apps: t.apps.remove(term), tombstones: t.tombstones.insert(term) }
    } else {
        t
    }
}

/// The terms after several were learned.
pub open spec fn learned_all(t: Terms, terms: Seq<(Seq<char>, Option<Seq<char>>)>) -> Terms
    decreases terms.len(),
{
    if terms.len() == 0 {
        t
    } else {
        learned(learned_all(t, terms.drop_last()), terms.last().0, terms.last().1)
    }
}

/// A term that the user has forgotten is not learned again, for any app.
pub proof fn law_forgotten_term_stays_forgotten(
    t: Terms,
    term: Seq<char>,
    later: Seq<(Seq<char>, Option<Seq<char>>)>,
)
    requires
        t.apps.dom().contains(term),
    ensures
        !learned_all(forgotten(t, term), later).apps.dom().contains(term),
        learned_all(forgotten(t, term), later).tombstones.contains(term),
    decreases later.len(),
{
    if later.len() > 0 {
        law_forgotten_term_stays_forgotten(t, term, later.drop_last());
    }
}

} // verus!
