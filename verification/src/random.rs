//! Random tours and random positions, drawn from the thread-local generator
//! of the `rand` crate.

use crate::tour::{identity_path, is_tour, lemma_rearranged_identity_is_tour};
use rand::rngs::ThreadRng;
use rand::seq::SliceRandom;
use rand::Rng;
use vstd::prelude::*;

verus! {

/// `rand::rngs::ThreadRng`: the handle to the generator of the current
/// thread. It is carried from `rand::thread_rng` to the calls that draw from
/// it; nothing inside it is read.
#[verifier::external_type_specification]
#[verifier::external_body]
pub struct ExThreadRng(rand::rngs::ThreadRng);

/// `rand::thread_rng`: a handle to the generator of the current thread.
/// Nothing is claimed of the handle.
pub assume_specification[ rand::thread_rng ]() -> ThreadRng;

/// `rand::seq::SliceRandom::shuffle` on a vector of positions. The method
/// only exchanges entries, so the vector holds the same entries afterwards,
/// each as often as before; nothing is claimed of their order.
#[verifier::external_body]
pub(crate) fn shuffle(route: &mut Vec<usize>, rng: &mut ThreadRng)
    ensures
        final(route)@.to_multiset() == old(route)@.to_multiset(),
{
    route.shuffle(rng);
}

/// `rand::Rng::gen_range` on the range `0..n`. The method panics on an empty
/// range, so `n` must be positive; the value drawn lies in the range.
#[verifier::external_body]
pub(crate) fn index_below(rng: &mut ThreadRng, n: usize) -> (index: usize)
    requires
        n > 0,
    ensures
        index < n,
{
    rng.gen_range(0..n)
}

/// Generates a random tour of `n` nodes: the identity route, shuffled.
pub fn random_path(n: usize) -> (path: Vec<usize>)
    ensures
        is_tour(path@, n as nat),
{
    let mut path = identity_path(n);
    let mut rng = rand::thread_rng();
    shuffle(&mut path, &mut rng);
    proof {
        lemma_rearranged_identity_is_tour(path@, n as nat);
    }
    path
}

} // verus!
