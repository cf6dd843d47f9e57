//! Random choices, drawn from `rand`'s thread-local generator.

use vstd::prelude::*;
use rand::Rng;
use rand::seq::SliceRandom;
use rand::rngs::ThreadRng;

verus! {

#[verifier::external_type_specification]
#[verifier::external_body]
pub struct ExThreadRng(rand::rngs::ThreadRng);

/// Relies on `rand::thread_rng`: a handle on the thread-local generator.
pub assume_specification[ rand::thread_rng ]() -> rand::rngs::ThreadRng;

/// Relies on `SliceRandom::shuffle` (Fisher-Yates by swaps): the entries are
/// rearranged in place, none added or lost.
#[verifier::external_body]
pub(crate) fn shuffle<T>(v: &mut Vec<T>, rng: &mut ThreadRng)
    ensures
        final(v)@.to_multiset() == old(v)@.to_multiset(),
{
    v.as_mut_slice().shuffle(rng)
}

/// Relies on `SliceRandom::choose`: one entry of the slice, `None` only for
/// an empty slice.
#[verifier::external_body]
pub(crate) fn choose_pair(v: &Vec<(usize, usize)>, rng: &mut ThreadRng) -> (r: Option<(usize, usize)>)
    ensures
        r is None <==> v@.len() == 0,
        r matches Some(x) ==> v@.contains(x),
{
    v.as_slice().choose(rng).copied()
}

/// Relies on `Rng::gen_range` over `0..bound`: a value below `bound`; the
/// range must not be empty.
#[verifier::external_body]
pub(crate) fn gen_below(rng: &mut ThreadRng, bound: u64) -> (r: u64)
    requires
        bound > 0,
    ensures
        r < bound,
{
    rng.gen_range(0..bound)
}

} // verus!
