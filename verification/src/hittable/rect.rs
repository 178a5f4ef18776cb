use vstd::prelude::*;
use crate::hittable::sphere::within;
use crate::vec3::Scalar;

verus! {

/// Whether a ray hits an axis-aligned rectangle: it reaches the plane of
/// the rectangle at a parameter `t` from `t_min` to `t_max`, at a point
/// whose two coordinates in the plane, `a` and `b`, lie in the rectangle's
/// extent from `a0` to `a1` and from `b0` to `b1`.
pub open spec fn on_rectangle(
    t: Scalar,
    t_min: Scalar,
    t_max: Scalar,
    a: Scalar,
    a0: Scalar,
    a1: Scalar,
    b: Scalar,
    b0: Scalar,
    b1: Scalar,
) -> bool {
    within(t, t_min, t_max) && within(a, a0, a1) && within(b, b0, b1)
}

/// Whether the ray that meets the plane at `t`, in the point `(a, b)` of
/// the plane, hits the rectangle.
pub fn strikes(
    t: Scalar,
    t_min: Scalar,
    t_max: Scalar,
    a: Scalar,
    a0: Scalar,
    a1: Scalar,
    b: Scalar,
    b0: Scalar,
    b1: Scalar,
) -> (hit: bool)
    ensures
        hit == on_rectangle(t, t_min, t_max, a, a0, a1, b, b0, b1),
{
    if t < t_min || t > t_max {
        return false;
    }
    if a < a0 || a > a1 || b < b0 || b > b1 {
        return false;
    }
    true
}

} // verus!
