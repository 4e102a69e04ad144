use vstd::prelude::*;
use rand::Rng;

verus! {

/// Relies on rand's `thread_rng` and `Rng::gen_range`: returns a uniformly
/// distributed value in `[low, high)`; documented to panic when `low >= high`,
/// so that case is excluded here. Nothing is promised about which value comes
/// back beyond its range.
#[verifier::external_body]
pub(crate) fn random_in_range(low: usize, high: usize) -> (r: usize)
    requires
        low < high,
    ensures
        low <= r < high,
{
    rand::thread_rng().gen_range(low, high)
}

/// Relies on rand's `thread_rng` and `Rng::gen_ratio`: a Bernoulli draw that
/// is true with probability numerator/denominator. Documented to panic when
/// the denominator is zero or the numerator exceeds it (excluded here), to
/// always return true when the ratio is one, and false when the numerator is
/// zero.
#[verifier::external_body]
pub(crate) fn random_ratio(numerator: u32, denominator: u32) -> (r: bool)
    requires
        0 < denominator,
        numerator <= denominator,
    ensures
        numerator == denominator ==> r,
        numerator == 0 ==> !r,
{
    rand::thread_rng().gen_ratio(numerator, denominator)
}

} // verus!
