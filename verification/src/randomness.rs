//! The random-number calls that the game makes into `fastrand`.

use vstd::prelude::*;

verus! {

/// `fastrand::Rng`, a seeded pseudo-random generator; opaque to proofs.
#[verifier::external_type_specification]
#[verifier::external_body]
pub struct ExRng(fastrand::Rng);

/// Calls `fastrand::Rng::with_seed`. Nothing is stated of the generator it
/// builds: its state is opaque here.
#[verifier::external_body]
pub(crate) fn rng_with_seed(seed: u64) -> fastrand::Rng {
    fastrand::Rng::with_seed(seed)
}

/// Calls `fastrand::Rng::usize` on the range `..bound`. The crate draws a value
/// from `0..bound` and panics only on an empty range, so a positive bound is
/// required and the value is below it; which value comes out is left open.
#[verifier::external_body]
pub(crate) fn rng_usize_below(rng: &mut fastrand::Rng, bound: usize) -> (r: usize)
    requires
        bound > 0,
    ensures
        r < bound,
{
    rng.usize(..bound)
}

/// Calls `fastrand::Rng::u8` on the range `..bound`. As for `usize`, the value
/// is below the (positive) bound and is otherwise left open.
#[verifier::external_body]
pub(crate) fn rng_u8_below(rng: &mut fastrand::Rng, bound: u8) -> (r: u8)
    requires
        bound > 0,
    ensures
        r < bound,
{
    rng.u8(..bound)
}

} // verus!
