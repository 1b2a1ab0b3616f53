//! The random draws the simulation makes, each a single call into `fastrand`.

use vstd::prelude::*;

verus! {

/// The generator `fastrand::Rng`, whose state verified code does not see.
#[verifier::external_type_specification]
#[verifier::external_body]
pub struct ExRng(fastrand::Rng);

/// Calls `fastrand::Rng::bool`. Nothing is claimed of the outcome.
#[verifier::external_body]
pub(crate) fn coin(rng: &fastrand::Rng) -> (heads: bool) {
    rng.bool()
}

/// Calls `fastrand::Rng::u32` on the range `0..sides`, which panics when the
/// range is empty and otherwise returns a number inside it.
#[verifier::external_body]
pub(crate) fn roll(rng: &fastrand::Rng, sides: u32) -> (face: u32)
    requires
        sides > 0,
    ensures
        face < sides,
{
    rng.u32(0..sides)
}

/// Calls `fastrand::Rng::usize` on the range `0..count`, which panics when the
/// range is empty and otherwise returns a number inside it.
#[verifier::external_body]
pub(crate) fn pick(rng: &fastrand::Rng, count: usize) -> (index: usize)
    requires
        count > 0,
    ensures
        index < count,
{
    rng.usize(0..count)
}

} // verus!
