//! The random order in which cells are offered for bombs, drawn with `rand`.

use vstd::prelude::*;
use rand::seq::SliceRandom;

verus! {

/// The thread-local random number generator of `rand`, carried through
/// unopened.
#[verifier::external_type_specification]
#[verifier::external_body]
pub struct ExThreadRng(rand::rngs::ThreadRng);

/// Calls `rand::thread_rng`, which hands out the generator of the current
/// thread. Nothing is claimed of its state.
#[verifier::external_body]
pub(crate) fn thread_rng() -> rand::rngs::ThreadRng {
    rand::thread_rng()
}

/// Calls `SliceRandom::shuffle` on the vector. The contract claims that
/// the result is a reordering of the input: the same elements, each as
/// often. Which order comes out rests on the generator and is left unsaid.
#[verifier::external_body]
pub(crate) fn shuffle(v: &mut Vec<u16>, rng: &mut rand::rngs::ThreadRng)
    ensures
        final(v)@.to_multiset() == old(v)@.to_multiset(),
{
    v.shuffle(rng);
}

} // verus!
