//! The source of random numbers.
use vstd::prelude::*;

use rand::Rng;

verus! {

/// Relies on `rand::thread_rng` and `Rng::gen_range` on an inclusive range:
/// the result lies in `[low, high]`, and `gen_range` panics only when
/// `low > high`. (`thread_rng` panics where the system cannot seed it, which
/// no argument decides.)
#[verifier::external_body]
pub(crate) fn uniform_integer(low: i32, high: i32) -> (r: i32)
    requires
        low <= high,
    ensures
        low <= r <= high,
{
    rand::thread_rng().gen_range(low..=high)
}

/// Why a range could not be rolled.
#[derive(Debug, Clone, Copy, PartialEq, Eq, Structural)]
pub enum RangeError {
    /// The lower bound is above the upper bound.
    InvalidRange,
}

/// A random integer in `[min, max]`, or `InvalidRange` where `min > max`.
pub fn roll_range(min: i32, max: i32) -> (r: Result<i32, RangeError>)
    ensures
        match r {
            Ok(x) => min <= max && min <= x <= max,
            Err(e) => min > max && e == RangeError::InvalidRange,
        },
{
    if min > max {
        Err(RangeError::InvalidRange)
    } else {
        Ok(uniform_integer(min, max))
    }
}

} // verus!
