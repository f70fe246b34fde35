//! The library's only outside calls: draws from the process-wide random
//! number generator.  Everything downstream of a draw takes the drawn value
//! as a plain argument, so the physics itself is verified for every
//! possible outcome.

use rand::Rng;
use vstd::prelude::*;

verus! {

/// Relies on `rand::rng` and `rand::Rng::random_range` over an `i32` range:
/// the sample lies in `[lo, hi)`.  The call panics only on an empty range,
/// which the precondition rules out.
#[verifier::external_body]
pub(crate) fn random_in_range(lo: i32, hi: i32) -> (r: i32)
    requires
        lo < hi,
    ensures
        lo <= r < hi,
{
    rand::rng().random_range(lo..hi)
}

/// Relies on `rand::rng` and `rand::Rng::random_ratio` with ratio one in
/// two: a fair coin.  Nothing is promised of the outcome; the call panics
/// only when the denominator is zero or smaller than the numerator.
#[verifier::external_body]
pub(crate) fn random_coin() -> bool {
    rand::rng().random_ratio(1, 2)
}

} // verus!
