//! Weighted random choice of an index, by the `rand` crate.

use vstd::prelude::*;
use rand::distributions::Distribution;
use rand::distributions::WeightedError;
use rand::distributions::WeightedIndex;
use rand::rngs::ThreadRng;
use crate::error::WeightsError;

verus! {

/// The thread-local random number generator of `rand`.
#[verifier::external_type_specification]
#[verifier::external_body]
pub struct ExThreadRng(ThreadRng);

/// The `WeightedIndex<u32>` of `rand`: a distribution over the indices of
/// a list of weights. Its inside is not visible to the proofs; what they know
/// of a sampler is the list of weights that it was made with.
#[verifier::external_body]
pub struct WordSampler {
    dist: WeightedIndex<u32>,
}

/// The weights that a sampler was made with, in their order.
pub uninterp spec fn weights_of(sampler: &WordSampler) -> Seq<u32>;

/// The sum of a list of weights.
pub open spec fn total(weights: Seq<u32>) -> nat
    decreases weights.len(),
{
    if weights.len() == 0 {
        0
    } else {
        total(weights.drop_last()) + weights.last() as nat
    }
}

/// The sum of the first weights is no larger than the sum of all.
pub proof fn lemma_total_grows(weights: Seq<u32>, n: int)
    requires
        0 <= n <= weights.len(),
    ensures
        total(weights.take(n)) <= total(weights),
    decreases weights.len() - n,
{
    if n < weights.len() {
        lemma_total_grows(weights, n + 1);
        assert(weights.take(n + 1).drop_last() =~= weights.take(n));
    } else {
        assert(weights.take(n) =~= weights);
    }
}

/// The sum of `weights`, or `None` where it does not fit 32 bits.
pub fn total_weight(weights: &Vec<u32>) -> (sum: Option<u32>)
    ensures
        sum == (if total(weights@) <= u32::MAX {
            Some(total(weights@) as u32)
        } else {
            None
        }),
{
    let mut sum: u32 = 0;
    let mut i: usize = 0;
    while i < weights.len()
        invariant
            0 <= i <= weights@.len(),
            sum == total(weights@.take(i as int)),
        decreases weights@.len() - i,
    {
        proof {
            assert(weights@.take(i + 1).drop_last() =~= weights@.take(i as int));
            lemma_total_grows(weights@, i + 1);
        }
        if weights[i] > u32::MAX - sum {
            return None;
        }
        sum = sum + weights[i];
        i = i + 1;
    }
    proof {
        assert(weights@.take(i as int) =~= weights@);
    }
    Some(sum)
}

/// `WeightedIndex::new` of rand, on 32-bit weights whose sum fits 32 bits.
/// It refuses an empty list and a list of zeros, each with its own error,
/// and accepts every other list; the sampler remembers the weights.
#[verifier::external_body]
pub(crate) fn new_sampler(weights: &Vec<u32>) -> (made: Result<WordSampler, WeightsError>)
    requires
        total(weights@) <= u32::MAX,
    ensures
        made is Ok <==> total(weights@) > 0,
        made matches Ok(sampler) ==> weights_of(&sampler) == weights@,
        made matches Err(e) ==> e == (if weights@.len() == 0 {
            WeightsError::NoItem
        } else {
            WeightsError::AllWeightsZero
        }),
{
    match WeightedIndex::new(weights) {
        Ok(dist) => Ok(WordSampler { dist }),
        Err(WeightedError::NoItem) => Err(WeightsError::NoItem),
        Err(WeightedError::InvalidWeight) => Err(WeightsError::InvalidWeight),
        Err(WeightedError::AllWeightsZero) => Err(WeightsError::AllWeightsZero),
        Err(WeightedError::TooMany) => Err(WeightsError::TooMany),
    }
}

/// `Distribution::sample` of rand on a `WeightedIndex`: an index of the
/// list of weights, and never one whose weight is zero. Which index comes
/// out is left to chance.
#[verifier::external_body]
pub(crate) fn draw(sampler: &WordSampler, rng: &mut ThreadRng) -> (index: usize)
    ensures
        index < weights_of(sampler).len(),
        weights_of(sampler)[index as int] > 0,
{
    sampler.dist.sample(rng)
}

} // verus!
