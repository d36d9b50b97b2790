//! Random choices.

use vstd::prelude::*;
use rand::RngExt;
use rand::distr::Distribution;
use rand::seq::{IndexedRandom, IteratorRandom};

verus! {

/// Calls `rand::random`. Any value may come back.
#[verifier::external_body]
pub(crate) fn random_u64() -> (r: u64) {
    rand::random::<u64>()
}

/// Calls `random_range` of the rand crate on the integers below `bound`: one of them comes
/// back.
#[verifier::external_body]
pub(crate) fn random_below(bound: usize) -> (r: usize)
    requires
        bound > 0,
    ensures
        r < bound,
{
    rand::rng().random_range(0..bound)
}

/// Calls `IteratorRandom::choose` of the rand crate on the ids in order: one of them comes
/// back, and nothing only when there are none.
#[verifier::external_body]
pub(crate) fn choose_id(ids: &Vec<usize>) -> (r: Option<usize>)
    ensures
        r is None <==> ids@.len() == 0,
        r is Some ==> ids@.contains(r->0),
{
    ids.iter().copied().choose(&mut rand::rng())
}

/// Calls `IndexedRandom::choose` of the rand crate on the peers: one of them comes back, and
/// nothing only when there are none.
#[verifier::external_body]
pub(crate) fn choose_peer(peers: &Vec<u32>) -> (r: Option<u32>)
    ensures
        r is None <==> peers@.len() == 0,
        r is Some ==> peers@.contains(r->0),
{
    peers.choose(&mut rand::rng()).copied()
}

/// Calls `IteratorRandom::sample` of the rand crate on the peers in order: `amount` of them
/// come back, or all of them when there are fewer, each as often at most as it was given.
#[verifier::external_body]
pub(crate) fn sample_peers(peers: &Vec<u32>, amount: usize) -> (r: Vec<u32>)
    ensures
        r@.len() == if amount <= peers@.len() { amount as nat } else { peers@.len() },
        r@.to_multiset().subset_of(peers@.to_multiset()),
{
    peers.iter().copied().sample(&mut rand::rng(), amount)
}

/// The sum of some weights.
pub open spec fn total_weight(weights: Seq<u128>) -> int
    decreases weights.len(),
{
    if weights.len() == 0 {
        0
    } else {
        total_weight(weights.drop_last()) + weights.last()
    }
}

/// Makes a `WeightedIndex` of the rand crate from the weights and samples it once. It refuses
/// weights that sum up to nothing, no weights at all among them, and a sum that does not fit;
/// otherwise a position comes back whose weight is not zero. That a position comes back the more
/// often the larger its weight is not stated.
#[verifier::external_body]
pub(crate) fn weighted_choice(weights: &Vec<u128>) -> (r: Option<usize>)
    ensures
        r is Some <==> 0 < total_weight(weights@) <= u128::MAX,
        r is Some ==> r->0 < weights@.len() && weights@[r->0 as int] > 0,
{
    let index = rand::distr::weighted::WeightedIndex::new(weights).ok()?;
    Some(index.sample(&mut rand::rng()))
}

} // verus!
