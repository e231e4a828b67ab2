//! Trusted wrappers around the `fastrand` pseudo-random generator.
//!
//! Simulation draws uniformly random action indices; the engine owns
//! an explicit, seedable generator so searches are reproducible.

use vstd::prelude::*;

verus! {

/// `fastrand::Rng`, declared so the engine can hold one as a field.
#[verifier::external_type_specification]
#[verifier::external_body]
pub struct ExRng(fastrand::Rng);

/// Relies on fastrand::Rng::with_seed: builds a generator from a seed.
#[verifier::external_body]
pub(crate) fn rng_with_seed(seed: u64) -> fastrand::Rng {
    fastrand::Rng::with_seed(seed)
}

/// Relies on fastrand::Rng::new: builds a generator seeded from the
/// thread-local generator.
#[verifier::external_body]
pub(crate) fn rng_new() -> fastrand::Rng {
    fastrand::Rng::new()
}

/// Relies on fastrand::Rng::usize: a draw from `0..n` is below `n`
/// (the method panics only on an empty range, which `n >= 1` rules
/// out).
#[verifier::external_body]
pub(crate) fn rng_usize_below(rng: &mut fastrand::Rng, n: usize) -> (r: usize)
    requires
        n >= 1,
    ensures
        r < n,
{
    rng.usize(0..n)
}

} // verus!
