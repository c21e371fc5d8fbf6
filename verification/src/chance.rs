//! Pseudo-random draws.

use vstd::prelude::*;
use rand::{RngExt, SeedableRng};
use rand::distr::{Distribution, weighted::WeightedIndex};
use rand_xoshiro::Xoshiro256PlusPlus;

verus! {

/// The type `rand_xoshiro::Xoshiro256PlusPlus`.
#[verifier::external_type_specification]
#[verifier::external_body]
pub struct ExXoshiro(Xoshiro256PlusPlus);

/// `Xoshiro256PlusPlus::seed_from_u64`: a generator whose draws depend on the seed.
/// Nothing is said of its draws.
#[verifier::external_body]
pub(crate) fn seeded(seed: u64) -> (r: Xoshiro256PlusPlus) {
    Xoshiro256PlusPlus::seed_from_u64(seed)
}

/// `rand`'s `random_range` over `low..=high`: any number between the two. Which
/// one is left to chance.
#[verifier::external_body]
pub(crate) fn draw_between(rng: &mut Xoshiro256PlusPlus, low: u64, high: u64) -> (r: u64)
    requires
        low <= high,
    ensures
        low <= r <= high,
{
    rng.random_range(low..=high)
}

/// `rand`'s `random` for a 64-bit number: any number at all, left to chance.
#[verifier::external_body]
pub(crate) fn draw_bits(rng: &mut Xoshiro256PlusPlus) -> (r: u64) {
    rng.random::<u64>()
}

/// An index below `n`.
pub(crate) fn draw_index(rng: &mut Xoshiro256PlusPlus, n: usize) -> (r: usize)
    requires
        n > 0,
    ensures
        r < n,
{
    draw_between(rng, 0, n as u64 - 1) as usize
}

/// The weights, added up.
pub open spec fn weight_sum(weights: Seq<u64>) -> nat
    decreases weights.len(),
{
    if weights.len() == 0 {
        0
    } else {
        weight_sum(weights.drop_last()) + weights.last() as nat
    }
}

/// Whether an index can be drawn by the weights: they come to something, and their
/// sum can be told.
pub fn can_weigh(weights: &Vec<u64>) -> (r: bool)
    ensures
        r == (0 < weight_sum(weights@) <= u64::MAX),
{
    let mut sum: u128 = 0;
    let mut i: usize = 0;
    assert(weights@.take(0) =~= Seq::<u64>::empty());
    while i < weights.len()
        invariant
            i <= weights@.len(),
            sum == weight_sum(weights@.take(i as int)),
            sum <= i * u64::MAX,
        decreases weights.len() - i,
    {
        proof {
            assert(weights@.take(i + 1).drop_last() =~= weights@.take(i as int));
            assert(weights@.take(i + 1).last() == weights@[i as int]);
            assert(i * u64::MAX + u64::MAX == (i + 1) * u64::MAX) by (nonlinear_arith);
            assert((i + 1) * u64::MAX <= u128::MAX) by (nonlinear_arith)
                requires
                    i + 1 <= usize::MAX,
                    usize::MAX <= u64::MAX,
            ;
        }
        sum = sum + weights[i] as u128;
        i += 1;
    }
    assert(weights@.take(i as int) =~= weights@);
    0 < sum && sum <= u64::MAX as u128
}

/// `rand`'s `WeightedIndex`, built of the weights and sampled once: the index of
/// some weight that is not zero. Which one is left to chance. Building fails on
/// no weights, on weights that are all zero and on a sum that overflows.
#[verifier::external_body]
pub(crate) fn draw_weighted(rng: &mut Xoshiro256PlusPlus, weights: &Vec<u64>) -> (r: usize)
    requires
        0 < weight_sum(weights@) <= u64::MAX,
    ensures
        r < weights@.len(),
        weights@[r as int] > 0,
{
    let index = WeightedIndex::new(weights).expect("weights are positive");
    index.sample(rng)
}

/// Weights are added up.
pub proof fn law_weights_add_up(a: Seq<u64>, b: Seq<u64>, w: u64)
    ensures
        weight_sum(a + b) == weight_sum(a) + weight_sum(b),
        weight_sum(seq![w]) == w,
        weight_sum(Seq::empty()) == 0,
    decreases b.len(),
{
    assert(seq![w].drop_last() =~= Seq::<u64>::empty());
    assert(weight_sum(Seq::<u64>::empty()) == 0);
    if b.len() == 0 {
        assert(a + b =~= a);
    } else {
        law_weights_add_up(a, b.drop_last(), w);
        assert((a + b).drop_last() =~= a + b.drop_last());
    }
}

} // verus!
