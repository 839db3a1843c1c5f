//! Trusted boundary to the `rand` crate.
//!
//! Every random draw the algorithms make goes through one of the wrappers
//! here. Each wrapper states only what holds of every outcome (the range of
//! an index, positivity of a sampled weight), never which outcome comes.

use vstd::prelude::*;

verus! {

#[verifier::external_type_specification]
#[verifier::external_body]
pub struct ExStdRng(rand::rngs::StdRng);

/// A fitness-proportionate sampling distribution over agent indices.
///
/// Holds a `rand::distributions::WeightedIndex<u64>`; Verus sees the weights
/// only through `weights_of`, which the two wrappers below relate to it.
#[verifier::external_body]
pub struct WeightedPicker {
    dist: rand::distributions::WeightedIndex<u64>,
}

/// The weights a `WeightedPicker` was built over, in order.
pub uninterp spec fn weights_of(d: WeightedPicker) -> Seq<u64>;

/// The sum of a sequence of weights.
pub open spec fn weight_sum(s: Seq<u64>) -> int
    decreases s.len(),
{
    if s.len() == 0 {
        0
    } else {
        weight_sum(s.drop_last()) + s.last()
    }
}

/// Relies on `rand::rngs::StdRng::seed_from_u64` (rand_core's `SeedableRng`):
/// builds a deterministic generator from a word-sized seed.
#[verifier::external_body]
pub fn rng_from_seed(seed: u64) -> rand::rngs::StdRng {
    <rand::rngs::StdRng as rand::SeedableRng>::seed_from_u64(seed)
}

/// Relies on `rand::Rng::gen_range` over `0..bound`: the draw is uniform over
/// the range and panics only when the range is empty.
#[verifier::external_body]
pub(crate) fn random_below(rng: &mut rand::rngs::StdRng, bound: usize) -> (r: usize)
    requires
        bound >= 1,
    ensures
        r < bound,
{
    rand::Rng::gen_range(rng, 0..bound)
}

/// Relies on `rand::Rng::gen_range` over `low..high` at `i64`: the draw lies
/// in the half-open range and panics only when the range is empty.
#[verifier::external_body]
pub(crate) fn random_in_range(rng: &mut rand::rngs::StdRng, low: i64, high: i64) -> (r: i64)
    requires
        low < high,
    ensures
        low <= r < high,
{
    rand::Rng::gen_range(rng, low..high)
}

/// Relies on `rand::Rng::gen_ratio`: returns true with probability
/// `numerator / denominator`; its documentation guarantees the result is
/// always false for a zero numerator and always true when the two are equal.
/// It panics when the denominator is zero or the numerator exceeds it.
#[verifier::external_body]
pub(crate) fn random_ratio(rng: &mut rand::rngs::StdRng, numerator: u32, denominator: u32) -> (r:
    bool)
    requires
        denominator >= 1,
        numerator <= denominator,
    ensures
        numerator == 0 ==> r == false,
        numerator == denominator ==> r == true,
{
    rand::Rng::gen_ratio(rng, numerator, denominator)
}

/// Relies on `rand::distributions::WeightedIndex::new`: construction succeeds
/// on a non-empty weight list with a positive total, and it errs only on an
/// empty list, a negative weight (impossible at `u64`) or a zero total; the
/// summation would overflow above `u64::MAX`, which the caller rules out.
#[verifier::external_body]
pub(crate) fn make_weighted_index(weights: &Vec<u64>) -> (d: WeightedPicker)
    requires
        weights@.len() >= 1,
        exists|i: int| 0 <= i < weights@.len() && weights@[i] > 0,
        weight_sum(weights@) <= u64::MAX,
    ensures
        weights_of(d) == weights@,
{
    WeightedPicker { dist: rand::distributions::WeightedIndex::new(weights.iter()).unwrap() }
}

/// Relies on `rand::Rng::sample` with a `WeightedIndex`: the sampled value is
/// an index into the weight list, chosen with probability proportional to its
/// weight, so an index of zero weight never comes back (its cumulative-weight
/// interval is empty).
#[verifier::external_body]
pub(crate) fn sample_weighted(rng: &mut rand::rngs::StdRng, d: &WeightedPicker) -> (i: usize)
    ensures
        i < weights_of(*d).len(),
        weights_of(*d)[i as int] > 0,
{
    rand::Rng::sample(rng, &d.dist)
}

} // verus!
