//! The random source handed to the sampling engine: a seedable generator of
//! the rand crate, reached only through one trusted index picker.

use vstd::prelude::*;

verus! {

#[verifier::external_type_specification]
#[verifier::external_body]
pub struct ExStdRng(rand::rngs::StdRng);

/// Relies on rand's `Rng::gen_range` over `0..n`: for a non-empty range it
/// returns a uniformly distributed value of the range, so below `n`. Nothing
/// further is assumed of the sample.
#[verifier::external_body]
pub(crate) fn pick_index(rng: &mut rand::rngs::StdRng, n: usize) -> (i: usize)
    requires
        n >= 1,
    ensures
        i < n,
{
    rand::Rng::gen_range(rng, 0..n)
}

} // verus!
