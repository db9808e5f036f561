use vstd::prelude::*;

verus! {

/// bracket_lib's random number generator, threaded explicitly through every
/// function that draws from the random stream, so that a run is reproducible
/// from its seed.
#[verifier::external_type_specification]
#[verifier::external_body]
pub struct ExRandomNumberGenerator(bracket_lib::random::RandomNumberGenerator);

/// Relies on bracket_lib's `RandomNumberGenerator::range`: returns a value
/// that is at least `min` and strictly below `max`; an empty range panics,
/// so it is excluded here.
#[verifier::external_body]
pub fn random_range(
    rng: &mut bracket_lib::random::RandomNumberGenerator,
    min: i32,
    max: i32,
) -> (r: i32)
    requires
        min < max,
    ensures
        min <= r < max,
{
    rng.range(min, max)
}

/// Relies on bracket_lib's `RandomNumberGenerator::roll_dice`: the sum of
/// `n` dice of `die_type` sides, each die at least 1 and at most `die_type`.
/// The strict product bound keeps the sum, and the `die_type + 1` range
/// bound computed inside, within `i32`.
#[verifier::external_body]
pub fn roll_dice(
    rng: &mut bracket_lib::random::RandomNumberGenerator,
    n: i32,
    die_type: i32,
) -> (r: i32)
    requires
        1 <= n,
        1 <= die_type,
        n * die_type < i32::MAX,
    ensures
        n <= r <= n * die_type,
{
    rng.roll_dice(n, die_type)
}

} // verus!
