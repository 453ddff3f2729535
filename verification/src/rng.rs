use vstd::prelude::*;

verus! {

/// `rltk::RandomNumberGenerator` is the random source used by map
/// generation; it is opaque here and reached only through the wrappers
/// below.
#[verifier::external_type_specification]
#[verifier::external_body]
pub struct ExRandomNumberGenerator(rltk::RandomNumberGenerator);

/// Relies on `rltk::RandomNumberGenerator::new`: builds a generator from
/// an arbitrary seed; it never fails.
#[verifier::external_body]
pub(crate) fn rng_new() -> rltk::RandomNumberGenerator {
    rltk::RandomNumberGenerator::new()
}

/// Relies on `rltk::RandomNumberGenerator::range`: returns a sample that
/// is inclusive of `min` and exclusive of `max` (so `range(1, 6)` yields
/// 1 to 5), and panics on an empty range, which the precondition rules
/// out. Nothing more is promised of the sample: every caller must hold
/// for every value in the range.
#[verifier::external_body]
pub(crate) fn rng_range(rng: &mut rltk::RandomNumberGenerator, min: i32, max: i32) -> (r: i32)
    requires
        min < max,
    ensures
        min <= r < max,
{
    rng.range(min, max)
}

} // verus!
