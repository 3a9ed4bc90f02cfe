//! The random draws of the simulation, taken from a seedable generator.

use rand::rngs::StdRng;
use rand::Rng;
use vstd::prelude::*;

verus! {

/// `StdRng` of `rand`, the seedable generator. Nothing is known of its
/// state: it is only handed on to the draws below.
#[verifier::external_type_specification]
#[verifier::external_body]
pub struct ExStdRng(StdRng);

/// `Rng::random_ratio` of `rand`: a Bernoulli trial that succeeds with
/// probability `numerator / denominator`. Nothing is claimed of the outcome
/// but the two certain cases that its documentation guarantees: a ratio of
/// one always succeeds, a ratio of zero never does.
#[verifier::external_body]
pub(crate) fn random_ratio(rng: &mut StdRng, numerator: u32, denominator: u32) -> (hit: bool)
    requires
        denominator > 0,
        numerator <= denominator,
    ensures
        numerator == denominator ==> hit,
        numerator == 0 ==> !hit,
{
    rng.random_ratio(numerator, denominator)
}

/// `Rng::random_range` of `rand` on a closed range of `i64`: the value drawn
/// lies in the range. Nothing else is claimed of it.
#[verifier::external_body]
pub(crate) fn random_range_inclusive(rng: &mut StdRng, low: i64, high: i64) -> (value: i64)
    requires
        low <= high,
    ensures
        low <= value <= high,
{
    rng.random_range(low..=high)
}

/// A value drawn from the half-open range from `low` up to `high`.
pub(crate) fn random_range(rng: &mut StdRng, low: i64, high: i64) -> (value: i64)
    requires
        low < high,
    ensures
        low <= value < high,
{
    random_range_inclusive(rng, low, high - 1)
}

} // verus!
