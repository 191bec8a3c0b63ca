//! The two outside computations the draw engine relies on: the SHA-256 digest
//! that turns seed and entropy into a generator seed, and the weighted random
//! pick. Both are deterministic functions of their arguments, so their results
//! carry names (`sha256_of`, `weighted_choice`) that the callers' contracts
//! speak of.
use vstd::prelude::*;
use sha2::Digest;
use rand::SeedableRng;
use crate::sums::sum_by;

verus! {

/// The SHA-256 digest of `data` (32 bytes).
pub uninterp spec fn sha256_of(data: Seq<u8>) -> Seq<u8>;

/// The index a weighted pick seeded with `seed` draws from `weights`.
pub uninterp spec fn weighted_choice(seed: Seq<u8>, weights: Seq<u128>) -> int;

/// The measure summed to form a weight set's total.
pub open spec fn weight_measure() -> spec_fn(u128) -> int {
    |w: u128| w as int
}

/// Relies on sha2::Sha256::digest: the 32-byte SHA-256 digest, a function of
/// the input bytes alone.
#[verifier::external_body]
pub(crate) fn sha256(data: &[u8]) -> (r: Vec<u8>)
    ensures
        r@ == sha256_of(data@),
        r@.len() == 32,
{
    sha2::Sha256::digest(data).to_vec()
}

/// Relies on rand::distr::weighted::WeightedIndex over u128 weights, sampled
/// once from a rand_chacha::ChaCha20Rng seeded with the 32-byte seed. The
/// constructor errors exactly on an empty weight set, an all-zero weight set,
/// or a weight sum past u128::MAX; a sampled index always carries a nonzero
/// weight; and the whole procedure is a function of seed and weights alone.
#[verifier::external_body]
pub(crate) fn pick_weighted(seed: &Vec<u8>, weights: &Vec<u128>) -> (r: Option<usize>)
    requires
        seed@.len() == 32,
    ensures
        r is Some <==> ((exists|i: int| 0 <= i < weights@.len() && weights@[i] > 0) && sum_by(
            weights@,
            weight_measure(),
        ) <= u128::MAX),
        r matches Some(i) ==> (i as int) < weights@.len() && weights@[i as int] > 0 && i as int
            == weighted_choice(seed@, weights@),
{
    let mut s = [0u8; 32];
    s.copy_from_slice(seed.as_slice());
    let mut rng = rand_chacha::ChaCha20Rng::from_seed(s);
    match rand::distr::weighted::WeightedIndex::new(weights) {
        Ok(dist) => Some(rand::distr::Distribution::sample(&dist, &mut rng)),
        Err(_) => None,
    }
}

} // verus!
