//! The random source. The generator itself is `rltk`'s; nothing about the
//! numbers it draws is proved here, only assumed in the contracts below.

use vstd::prelude::*;
use rltk::RandomNumberGenerator;

verus! {

/// Makes `rltk::RandomNumberGenerator` known as an opaque type.
#[verifier::external_type_specification]
#[verifier::external_body]
pub struct ExRandomNumberGenerator(RandomNumberGenerator);

/// Calls `RandomNumberGenerator::range` on `i32`.
///
/// Assumed of it: the number drawn is at least `min` and below `max`. The
/// generator panics on an empty range, so `min < max` is required.
#[verifier::external_body]
pub(crate) fn range(rng: &mut RandomNumberGenerator, min: i32, max: i32) -> (drawn: i32)
    requires
        min < max,
    ensures
        min <= drawn < max,
{
    rng.range(min, max)
}

/// Calls `RandomNumberGenerator::roll_dice`.
///
/// Assumed of it: the sum of `n` dice, each showing `1..=die_type`, lies
/// between `n` and `n * die_type`. Each die is a draw from the range
/// `1..die_type + 1`, which must not be empty nor overflow, and the sum must
/// fit in an `i32`.
#[verifier::external_body]
pub(crate) fn roll_dice(rng: &mut RandomNumberGenerator, n: i32, die_type: i32) -> (sum: i32)
    requires
        0 <= n,
        1 <= die_type < i32::MAX,
        n * die_type <= i32::MAX,
    ensures
        n <= sum <= n * die_type,
{
    rng.roll_dice(n, die_type)
}

} // verus!
