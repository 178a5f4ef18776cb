use vstd::prelude::*;
use crate::vec3::Scalar;

verus! {

/// Whether `t` lies from `t_min` to `t_max`, ends included.
pub open spec fn within(t: Scalar, t_min: Scalar, t_max: Scalar) -> bool {
    t_min <= t <= t_max
}

/// Which root of a sphere's quadratic counts as the hit: the nearer one if
/// it lies in the interval, else the farther one if that does, else none.
pub open spec fn chosen_root(near: Scalar, far: Scalar, t_min: Scalar, t_max: Scalar) -> Option<
    Scalar,
> {
    if within(near, t_min, t_max) {
        Some(near)
    } else if within(far, t_min, t_max) {
        Some(far)
    } else {
        None
    }
}

/// The root at which a ray hits a sphere, of the two roots `near` and `far`
/// of the quadratic: the first of them that lies from `t_min` to `t_max`.
pub fn select_root(near: Scalar, far: Scalar, t_min: Scalar, t_max: Scalar) -> (root: Option<Scalar>)
    ensures
        root == chosen_root(near, far, t_min, t_max),
{
    let mut root: Scalar = near;
    if root < t_min || t_max < root {
        root = far;
        if root < t_min || t_max < root {
            return None;
        }
    }
    Some(root)
}

/// The chosen root lies in the interval and is one of the two roots.
pub proof fn lemma_chosen_root_in_range(near: Scalar, far: Scalar, t_min: Scalar, t_max: Scalar)
    ensures
        chosen_root(near, far, t_min, t_max) matches Some(t) ==> within(t, t_min, t_max) && (t
            == near || t == far),
        chosen_root(near, far, t_min, t_max).is_none() <==> !within(near, t_min, t_max) && !within(
            far,
            t_min,
            t_max,
        ),
{
}

/// With the roots in order, the chosen root is the first one in the
/// interval: asked for less of the interval, the choice is the same root, or
/// none if that root lies beyond.
pub proof fn lemma_chosen_root_nearest_first(
    near: Scalar,
    far: Scalar,
    t_min: Scalar,
    t_max: Scalar,
    limit: Scalar,
)
    requires
        near <= far,
        limit <= t_max,
    ensures
        chosen_root(near, far, t_min, limit) == match chosen_root(near, far, t_min, t_max) {
            Some(t) => if t <= limit {
                Some(t)
            } else {
                None
            },
            None => None,
        },
{
}

} // verus!
