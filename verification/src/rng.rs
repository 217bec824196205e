use vstd::prelude::*;

verus! {

/// The random-integer source of the dungeon generator. The generator itself
/// is `rltk::RandomNumberGenerator`; the core relies only on the ranges its
/// draws fall in, never on particular values.
#[verifier::external_type_specification]
#[verifier::external_body]
pub struct ExRandomNumberGenerator(rltk::RandomNumberGenerator);

/// Relies on `rltk::RandomNumberGenerator::new`: builds a generator from an
/// entropy-derived seed. Nothing is promised of the values it will yield.
#[verifier::external_body]
pub(crate) fn rng_new() -> rltk::RandomNumberGenerator {
    rltk::RandomNumberGenerator::new()
}

/// Relies on `rltk::RandomNumberGenerator::range`: the draw is inclusive of
/// `low` and exclusive of `high`, and the call panics unless `low < high`.
#[verifier::external_body]
pub(crate) fn rng_range(rng: &mut rltk::RandomNumberGenerator, low: i32, high: i32) -> (r: i32)
    requires
        low < high,
    ensures
        low <= r < high,
{
    rng.range(low, high)
}

/// Relies on `rltk::RandomNumberGenerator::roll_dice`: the result is the sum
/// of `n` draws, each inclusively between 1 and `die`, so it lies in
/// `[n, n * die]`; each draw requires `die >= 1`, and the sum must fit `i32`.
#[verifier::external_body]
pub(crate) fn rng_roll_dice(rng: &mut rltk::RandomNumberGenerator, n: i32, die: i32) -> (r: i32)
    requires
        1 <= n,
        1 <= die,
        n * die <= i32::MAX - 1,
    ensures
        n <= r <= n * die,
{
    rng.roll_dice(n, die)
}

} // verus!
