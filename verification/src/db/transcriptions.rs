//! The transcription that a selected text belongs to.
use vstd::prelude::*;
use crate::db::RecentTranscription;
use crate::learning::similarity;

verus! {

/// The first of the highest ratios that are not below the least.
pub open spec fn first_best(ratios: Seq<u32>, least: u32) -> Option<int>
    decreases ratios.len(),
{
    if ratios.len() == 0 {
        None
    } else {
        let before = first_best(ratios.drop_last(), least);
        let x = ratios.last();
        if x < least {
            before
        } else {
            match before {
                Some(b) if x <= ratios[b] => Some(b),
                _ => Some(ratios.len() - 1),
            }
        }
    }
}

/// How alike a selection and each of the transcriptions are.
pub open spec fn ratios(selection: Seq<char>, rows: Seq<RecentTranscription>) -> Seq<u32> {
    rows.map_values(|t: RecentTranscription| similarity::ratio_bits(selection, t.cleaned_text@))
}

/// The first of the highest ratios that are not below the least.
pub fn best_ratio(ratios: &Vec<u32>, least: u32) -> (r: Option<usize>)
    ensures
        match r {
            Some(i) => i < ratios.len() && first_best(ratios@, least) == Some(i as int),
            None => first_best(ratios@, least) is None,
        },
{
    let mut best: Option<usize> = None;
    let mut n: usize = 0;
    assert(ratios@.take(0) =~= Seq::empty());
    while n < ratios.len()
        invariant
            n <= ratios.len(),
            match best {
                Some(b) => b < n && first_best(ratios@.take(n as int), least) == Some(b as int),
                None => first_best(ratios@.take(n as int), least) is None,
            },
        decreases ratios.len() - n,
    {
        assert(ratios@.take(n + 1).drop_last() =~= ratios@.take(n as int));
        let x: u32 = ratios[n];
        let better = match best {
            Some(b) => ratios[b] < x,
            None => true,
        };
        if x >= least && better {
            best = Some(n);
        }
        n += 1;
    }
    assert(ratios@.take(n as int) =~= ratios@);
    best
}

/// The transcription that a selection belongs to: of those given, latest
/// first, the one most like it, if it is like it enough. Ratios are the bits
/// of singles.
pub fn find_recent_match(
    selection: &str,
    candidates: &[RecentTranscription],
    min_ratio: u32,
) -> (r: Option<usize>)
    ensures
        match r {
            Some(i) => i < candidates@.len() && first_best(
                ratios(selection@, candidates@),
                min_ratio,
            ) == Some(i as int),
            None => first_best(ratios(selection@, candidates@), min_ratio) is None,
        },
{
    let ghost all = ratios(selection@, candidates@);
    let mut found: Vec<u32> = Vec::new();
    let mut i: usize = 0;
    while i < candidates.len()
        invariant
            i <= candidates@.len(),
            all == ratios(selection@, candidates@),
            found@ == all.take(i as int),
        decreases candidates@.len() - i,
    {
        let x: u32 = similarity::similar_ratio(selection, candidates[i].cleaned_text.as_str());
        found.push(x);
        assert(found@ =~= all.take(i + 1));
        i += 1;
    }
    assert(all.take(i as int) =~= all);
    best_ratio(&found, min_ratio)
}

/// What is found is like enough, nothing is more alike, and of equals it is
/// the first, which is the latest. Something is found wherever anything is
/// like enough.
pub proof fn law_match_is_the_best(ratios: Seq<u32>, least: u32)
    ensures
        match first_best(ratios, least) {
            Some(b) => {
                &&& 0 <= b < ratios.len()
                &&& ratios[b] >= least
                &&& forall|i: int|
                    0 <= i < ratios.len() ==> #[trigger] ratios[i] < ratios[b] || (ratios[i]
                        == ratios[b] && b <= i)
            },
            None => forall|i: int| 0 <= i < ratios.len() ==> #[trigger] ratios[i] < least,
        },
    decreases ratios.len(),
{
    if ratios.len() > 0 {
        let d = ratios.drop_last();
        law_match_is_the_best(d, least);
        assert forall|i: int| 0 <= i < d.len() implies d[i] == #[trigger] ratios[i] by {}
    }
}

} // verus!
