//! Random draws, taken from the `rand` crate.
use vstd::prelude::*;
use rand::Rng;

verus! {

/// Relies on `rand::thread_rng` and `rand::Rng::gen_ratio`: a draw that is
/// true with chance `numerator / denominator`; always false when the
/// numerator is zero and always true when it equals the denominator.
/// `gen_ratio` panics when the denominator is zero or below the numerator.
#[verifier::external_body]
pub(crate) fn gen_ratio(numerator: u32, denominator: u32) -> (r: bool)
    requires
        0 < denominator,
        numerator <= denominator,
    ensures
        numerator == 0 ==> !r,
        numerator == denominator ==> r,
{
    rand::thread_rng().gen_ratio(numerator, denominator)
}

/// Relies on `rand::thread_rng` and `rand::Rng::gen_range`: a draw from
/// `0..n`. `gen_range` panics on an empty range.
#[verifier::external_body]
pub(crate) fn gen_index(n: usize) -> (r: usize)
    requires
        0 < n,
    ensures
        r < n,
{
    rand::thread_rng().gen_range(0..n)
}

} // verus!
