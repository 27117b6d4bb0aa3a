//! Silence, told from frames that are each either quiet or loud.
use vstd::prelude::*;

verus! {

/// How many frames at the end are quiet.
pub open spec fn quiet_tail(quiet: Seq<bool>) -> nat
    decreases quiet.len(),
{
    if quiet.len() > 0 && quiet.last() {
        1 + quiet_tail(quiet.drop_last())
    } else {
        0
    }
}

proof fn lemma_quiet_tail(quiet: Seq<bool>)
    ensures
        quiet_tail(quiet) <= quiet.len(),
    decreases quiet.len(),
{
    if quiet.len() > 0 && quiet.last() {
        lemma_quiet_tail(quiet.drop_last());
    }
}

/// How long it has been quiet at the end of a recording, in milliseconds, from
/// frames of `frame_ms` each.
pub fn trailing_silence_ms(quiet: &[bool], frame_ms: u32) -> (r: u64)
    requires
        quiet@.len() * frame_ms <= u64::MAX,
    ensures
        r == quiet_tail(quiet@) * frame_ms,
{
    let mut n: usize = quiet.len();
    let mut count: u64 = 0;
    assert(quiet@.take(n as int) =~= quiet@);
    while n > 0 && quiet[n - 1]
        invariant
            n <= quiet@.len(),
            count == quiet@.len() - n,
            quiet_tail(quiet@) == count + quiet_tail(quiet@.take(n as int)),
        decreases n,
    {
        assert(quiet@.take(n as int).drop_last() =~= quiet@.take(n - 1));
        n -= 1;
        count += 1;
    }
    proof {
        lemma_quiet_tail(quiet@);
        assert(count * frame_ms <= quiet@.len() * frame_ms) by (nonlinear_arith)
            requires
                count <= quiet@.len(),
                frame_ms >= 0,
        ;
    }
    count * frame_ms as u64
}

/// Whether some frame is loud.
pub open spec fn any_loud(quiet: Seq<bool>) -> bool {
    exists|i: int| 0 <= i < quiet.len() && !(#[trigger] quiet[i])
}

/// Whether anything was said: some frame is loud.
pub fn has_speech(quiet: &[bool]) -> (r: bool)
    ensures
        r == exists|i: int| 0 <= i < quiet@.len() && !(#[trigger] quiet@[i]),
        r == any_loud(quiet@),
{
    let mut i: usize = 0;
    while i < quiet.len()
        invariant
            i <= quiet@.len(),
            forall|j: int| 0 <= j < i ==> #[trigger] quiet@[j],
        decreases quiet@.len() - i,
    {
        if !quiet[i] {
            return true;
        }
        i += 1;
    }
    false
}

/// A recording that is quiet throughout holds no speech and is silent to its
/// start; one that ends in a loud frame is not silent at its end.
pub proof fn law_quiet_tail(quiet: Seq<bool>)
    ensures
        (forall|i: int| 0 <= i < quiet.len() ==> #[trigger] quiet[i]) ==> quiet_tail(quiet)
            == quiet.len(),
        quiet.len() > 0 && !quiet.last() ==> quiet_tail(quiet) == 0,
    decreases quiet.len(),
{
    if quiet.len() > 0 {
        if forall|i: int| 0 <= i < quiet.len() ==> #[trigger] quiet[i] {
            let d = quiet.drop_last();
            assert(quiet[quiet.len() - 1]);
            assert forall|i: int| 0 <= i < d.len() implies #[trigger] d[i] by {
                assert(quiet[i]);
            }
            law_quiet_tail(d);
        }
    }
}

} // verus!
