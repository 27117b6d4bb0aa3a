//! How alike two texts are.
//!
//! A ratio lies between zero and one. It is handed on as the bits of an IEEE
//! 754 single: for numbers that are not negative, the order of the bits is the
//! order of the numbers.
use similar::TextDiff;
use vstd::prelude::*;

verus! {

/// The ratio of texts that are the same, one.
pub const COMPLETE_MATCH: u32 = 0x3f80_0000;

/// How alike two texts are, character by character.
pub uninterp spec fn ratio_bits(a: Seq<char>, b: Seq<char>) -> u32;

/// `TextDiff::from_chars` and `ratio`: a measure of similarity from zero to
/// one, named [`ratio_bits`]. One is the ratio of texts that are the same.
#[verifier::external_body]
fn char_ratio(a: &str, b: &str) -> (r: u32)
    ensures
        r == ratio_bits(a@, b@),
        r <= COMPLETE_MATCH,
        a@ == b@ ==> r == COMPLETE_MATCH,
{
    TextDiff::from_chars(a, b).ratio().to_bits()
}

/// How alike two texts are, as the bits of a single.
pub fn similar_ratio(a: &str, b: &str) -> (r: u32)
    ensures
        r == ratio_bits(a@, b@),
        r <= COMPLETE_MATCH,
        a@ == b@ ==> r == COMPLETE_MATCH,
{
    char_ratio(a, b)
}

} // verus!
