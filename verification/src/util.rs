use rand::Rng;
use vstd::prelude::*;
use crate::vec3::Scalar;

verus! {

/// A uniformly drawn integer from `min` to `max`, both included.
///
/// Calls `rand::Rng::gen_range` on `rand::thread_rng()` with the inclusive
/// range `min..=max`. All that is claimed of the draw is that it lies in the
/// range; an empty range would panic and is left out.
#[verifier::external_body]
pub fn random_int(min: usize, max: usize) -> (n: usize)
    requires
        min <= max,
    ensures
        min <= n <= max,
{
    rand::thread_rng().gen_range(min..=max)
}

/// `x` held to the interval from `min` to `max`: `min` below it, `max` above
/// it (the lower bound wins where the interval is empty).
pub open spec fn clamped(x: Scalar, min: Scalar, max: Scalar) -> Scalar {
    if x < min {
        min
    } else if x > max {
        max
    } else {
        x
    }
}

pub fn clamp(x: Scalar, min: Scalar, max: Scalar) -> (c: Scalar)
    ensures
        c == clamped(x, min, max),
{
    if x < min {
        return min;
    }
    if x > max {
        return max;
    }
    x
}

/// The share of `b` in `a`, in whole percent, rounded down.
pub open spec fn percentage(a: nat, b: nat) -> nat
    recommends
        a > 0,
{
    (b * 100) / a
}

/// Progress in percent: how much `b` is of the whole `a`.
///
/// With nothing to do (`a == 0`) the answer saturates: 0 when `b` is 0 as
/// well, `usize::MAX` otherwise. A share too large for `usize` saturates too.
pub fn calculate_percentage(a: usize, b: usize) -> (percent: usize)
    ensures
        a > 0 && percentage(a as nat, b as nat) <= usize::MAX ==> percent == percentage(
            a as nat,
            b as nat,
        ),
        a > 0 && percentage(a as nat, b as nat) > usize::MAX ==> percent == usize::MAX,
        a == 0 && b == 0 ==> percent == 0,
        a == 0 && b > 0 ==> percent == usize::MAX,
{
    if a == 0 {
        if b == 0 {
            0
        } else {
            usize::MAX
        }
    } else {
        let scaled: u128 = (b as u128) * 100;
        let share: u128 = scaled / (a as u128);
        if share > usize::MAX as u128 {
            usize::MAX
        } else {
            share as usize
        }
    }
}

} // verus!
