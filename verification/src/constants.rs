//! Named scalars, unit conversion, the gamma transform and the random source.

use crate::scalar::{from_wide, Scalar, ONE_RAW};
use crate::wide::{times_wide, wide_over, wide_product, wide_quotient};
use rand::rngs::StdRng;
use rand::{Rng, SeedableRng};
use vstd::prelude::*;

verus! {

/// The raw value of the greatest scalar, which bounds every distance from above.
pub const INFINITY_RAW: i64 = 0x7fff_ffff_ffff_ffff;

/// The raw value of 3.141592, rounded toward zero.
pub const PI_RAW: i64 = 0x3_243f_5f91;

/// The greatest scalar.
pub fn infinity() -> (r: Scalar)
    ensures
        r@ == INFINITY_RAW,
{
    Scalar::from_raw(INFINITY_RAW)
}

/// The ratio of a circle's circumference to its diameter, to six decimals.
pub fn pi() -> (r: Scalar)
    ensures
        r@ == PI_RAW,
{
    Scalar::from_raw(PI_RAW)
}

/// The angle in radians of an angle in degrees: `degrees * pi / 180`, with
/// the product carried as a wide value, so that only the result is clamped.
pub fn degrees_to_radians(degrees: Scalar) -> (radians: Scalar)
    ensures
        radians == Scalar::of(
            wide_quotient(wide_product(degrees@, PI_RAW as int), 180 * ONE_RAW),
        ),
{
    let half_turn: i128 = 180 * 0x1_0000_0000;
    from_wide(wide_over(times_wide(degrees, pi()), half_turn).unwrap())
}

/// The gamma transform of a linear colour component: its square root, and
/// zero for a component that is not positive.
pub fn linear_to_gamma(linear_component: Scalar) -> (encoded: Scalar)
    ensures
        encoded == linear_component.root(),
{
    linear_component.sqrt()
}

/// Declares `rand::rngs::StdRng`, the standard generator of `rand`, as a
/// type whose inside is not looked into.
#[verifier::external_type_specification]
#[verifier::external_body]
pub struct ExStdRng(StdRng);

/// A seeded source of random scalars. What it gives depends on the seed and
/// on how often it was asked; the contracts state only what holds of every
/// draw.
pub struct RandomGenerator {
    rng: StdRng,
}

impl RandomGenerator {
    /// A source whose stream is fixed by `seed`.
    pub fn new(seed: u64) -> RandomGenerator {
        RandomGenerator { rng: seeded_rng(seed) }
    }
}

/// Calls `SeedableRng::seed_from_u64` of `rand` for its standard generator.
/// Nothing is claimed of the generator that comes back.
#[verifier::external_body]
fn seeded_rng(seed: u64) -> StdRng {
    StdRng::seed_from_u64(seed)
}

/// Calls `Rng::gen_range` of `rand` on the half-open range `low..high`,
/// which must not be empty. The claim is the one its documentation makes:
/// the value drawn lies in the range.
#[verifier::external_body]
fn draw_between(rng: &mut StdRng, low: i64, high: i64) -> (drawn: i64)
    requires
        low < high,
    ensures
        low <= drawn < high,
{
    rng.gen_range(low..high)
}

/// A random scalar of at least zero and less than one.
pub fn random_generator(source: &mut RandomGenerator) -> (r: Scalar)
    ensures
        0 <= r@ < ONE_RAW,
{
    Scalar::from_raw(draw_between(&mut source.rng, 0, ONE_RAW))
}

/// A random scalar of at least `min` and less than `max`.
pub fn random_generator_range(source: &mut RandomGenerator, min: Scalar, max: Scalar) -> (r:
    Scalar)
    requires
        min@ < max@,
    ensures
        min@ <= r@ < max@,
{
    Scalar::from_raw(draw_between(&mut source.rng, min.raw(), max.raw()))
}

} // verus!
