//! The library's two uses of randomness: drawing a bounded index and
//! shuffling seat assignments. Nothing can be promised about which value
//! comes back, so the contracts state only what holds of every outcome.

use vstd::prelude::*;

use rand::seq::SliceRandom;
use rand::Rng;

verus! {

/// Relies on `rand::Rng::gen_range` on the thread-local generator:
/// returns a value drawn from `[0, bound)`; it panics on an empty range,
/// so the bound must be positive.
#[verifier::external_body]
pub fn rand_below(bound: usize) -> (r: usize)
    requires
        bound >= 1,
    ensures
        r < bound,
{
    rand::thread_rng().gen_range(0..bound)
}

/// Relies on `rand::seq::SliceRandom::shuffle`: reorders the elements in
/// place by swaps, so exactly the same elements remain, in some order.
#[verifier::external_body]
pub fn shuffle_usizes(v: &mut Vec<usize>)
    ensures
        final(v)@.to_multiset() == old(v)@.to_multiset(),
{
    v.shuffle(&mut rand::thread_rng());
}

} // verus!
