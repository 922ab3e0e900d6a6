//! The crate's only sources of randomness: the label shuffle used at village
//! generation and the coin flip used by night resolution, both from rand.

use vstd::prelude::*;

verus! {

#[verifier::external_type_specification]
#[verifier::external_body]
pub struct ExThreadRng(rand::rngs::ThreadRng);

/// Relies on rand::rng: hands back the thread-local random number generator.
#[verifier::external_body]
pub(crate) fn fresh_rng() -> rand::rngs::ThreadRng {
    rand::rng()
}

/// Relies on rand::seq::SliceRandom::shuffle: the slice is permuted in
/// place, so what it holds, taken as a multiset, does not change.
#[verifier::external_body]
pub(crate) fn shuffle_labels(labels: &mut Vec<u8>, rng: &mut rand::rngs::ThreadRng)
    ensures
        final(labels)@.to_multiset() == old(labels)@.to_multiset(),
{
    rand::seq::SliceRandom::shuffle(labels.as_mut_slice(), rng)
}

/// Relies on rand::random: a bool drawn from rand's StandardUniform
/// distribution, a fair coin. Nothing is promised of the outcome.
#[verifier::external_body]
pub(crate) fn coin_flip() -> bool {
    rand::random::<bool>()
}

} // verus!
