//! The random source of the generators: rand's `SmallRng`.
use vstd::prelude::*;
use rand::rngs::SmallRng;

verus! {

#[verifier::external_type_specification]
#[verifier::external_body]
pub struct ExSmallRng(SmallRng);

/// Relies on `SeedableRng::from_entropy` for `SmallRng`: a generator seeded from
/// the operating system. Nothing is promised of its state.
#[verifier::external_body]
pub(crate) fn new_rng() -> SmallRng {
    <SmallRng as rand::SeedableRng>::from_entropy()
}

/// Relies on `Rng::gen_range` over `lo..hi`: a value of the half-open range,
/// which must not be empty.
#[verifier::external_body]
pub(crate) fn draw_in_range(rng: &mut SmallRng, lo: i64, hi: i64) -> (r: i64)
    requires
        lo < hi,
    ensures
        lo <= r < hi,
{
    rand::Rng::gen_range(rng, lo..hi)
}

/// Relies on `Rng::gen_ratio`: `true` with chance `numerator / denominator`;
/// never `true` when the numerator is 0, always `true` when it equals the
/// denominator. It panics when the denominator is 0 or below the numerator.
#[verifier::external_body]
pub(crate) fn draw_ratio(rng: &mut SmallRng, numerator: u32, denominator: u32) -> (r: bool)
    requires
        0 < denominator,
        numerator <= denominator,
    ensures
        numerator == 0 ==> !r,
        numerator == denominator ==> r,
{
    rand::Rng::gen_ratio(rng, numerator, denominator)
}

} // verus!
