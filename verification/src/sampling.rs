//! The random source: the xorshift generator of the `rand` crate, and the two
//! of its operations that the library draws on.

use vstd::prelude::*;

use rand::Rng;
use rand::XorShiftRng;

verus! {

/// `rand::XorShiftRng`, the generator. Its state is not looked into.
#[verifier::external_type_specification]
#[verifier::external_body]
pub struct ExXorShiftRng(rand::XorShiftRng);

/// `rand::Rng::gen_range` with the bounds `0` and `bound`: a number drawn from
/// `0..bound`. It panics where the range is empty, so `bound` must be positive.
/// Which number comes back depends on the generator's state, of which nothing
/// is said.
#[verifier::external_body]
pub(crate) fn sample_below(rng: &mut XorShiftRng, bound: usize) -> (sample: usize)
    requires
        bound > 0,
    ensures
        sample < bound,
{
    rng.gen_range(0, bound)
}

/// `rand::Rng::shuffle`: rearranges the values in place by a series of swaps,
/// so the same values come back, each as often as before. In which order
/// depends on the generator's state, of which nothing is said.
#[verifier::external_body]
pub(crate) fn shuffle(rng: &mut XorShiftRng, values: &mut Vec<usize>)
    ensures
        final(values)@.to_multiset() == old(values)@.to_multiset(),
{
    rng.shuffle(values.as_mut_slice())
}

} // verus!
