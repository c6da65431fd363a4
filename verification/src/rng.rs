//! Trusted declarations for the random number generator that the random
//! player draws its choices from.

use vstd::prelude::*;

verus! {

#[verifier::external_type_specification]
#[verifier::external_body]
pub struct ExSmallRng(rand::rngs::SmallRng);

/// Relies on rand's `SeedableRng::from_entropy` for `SmallRng`: a fresh
/// generator seeded from the operating system. Nothing is assumed of the
/// values it will produce. The call aborts if the operating system's entropy
/// source fails — an environmental fault, like memory exhaustion.
#[verifier::external_body]
pub(crate) fn new_small_rng() -> rand::rngs::SmallRng {
    <rand::rngs::SmallRng as rand::SeedableRng>::from_entropy()
}

/// Relies on rand's `Rng::gen_range` over `0..n`: the sample lies within
/// the range, which must not be empty.
#[verifier::external_body]
pub(crate) fn rng_below(rng: &mut rand::rngs::SmallRng, n: usize) -> (r: usize)
    requires
        n > 0,
    ensures
        r < n,
{
    rand::Rng::gen_range(rng, 0..n)
}

} // verus!
