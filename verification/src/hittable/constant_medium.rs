use vstd::prelude::*;
use crate::aabb::{greater, lesser};
use crate::vec3::Scalar;

verus! {

/// The stretch of a ray inside a medium: where it counts as entering, and
/// where as leaving.
#[derive(Clone, Copy, Debug, PartialEq, Eq, Structural)]
pub struct Stretch {
    pub enter: Scalar,
    pub leave: Scalar,
}

/// The stretch from `entry` to `exit` cut to the interval from `t_min` to
/// `t_max`; none if nothing is left of it. What is left starts no earlier
/// than the ray's origin, the scalar 0.
pub open spec fn clipped_stretch(entry: Scalar, exit: Scalar, t_min: Scalar, t_max: Scalar) -> Option<
    Stretch,
> {
    let enter = greater(entry, t_min);
    let leave = lesser(exit, t_max);
    if enter >= leave {
        None
    } else {
        Some(Stretch { enter: greater(enter, 0), leave })
    }
}

/// Cuts the two crossings of a medium's boundary, at `entry` and at `exit`,
/// to the interval from `t_min` to `t_max`.
pub fn clip(entry: Scalar, exit: Scalar, t_min: Scalar, t_max: Scalar) -> (stretch: Option<Stretch>)
    ensures
        stretch == clipped_stretch(entry, exit, t_min, t_max),
{
    let mut enter: Scalar = entry;
    let mut leave: Scalar = exit;
    if enter < t_min {
        enter = t_min;
    }
    if leave > t_max {
        leave = t_max;
    }
    if enter >= leave {
        return None;
    }
    if enter < 0 {
        enter = 0;
    }
    Some(Stretch { enter, leave })
}

/// Whether a ray that scatters after `hit_distance` does so before it has
/// gone the `distance_inside_boundary` and left the medium.
pub fn scatters_inside(hit_distance: Scalar, distance_inside_boundary: Scalar) -> (inside: bool)
    ensures
        inside == (hit_distance <= distance_inside_boundary),
{
    !(hit_distance > distance_inside_boundary)
}

/// What is left of a stretch lies in the interval and between the two
/// crossings, and where the interval starts at the origin or later it is
/// not empty.
pub proof fn lemma_clipped_stretch_inside(entry: Scalar, exit: Scalar, t_min: Scalar, t_max: Scalar)
    ensures
        clipped_stretch(entry, exit, t_min, t_max) matches Some(s) ==> {
            &&& s.leave <= t_max
            &&& s.leave <= exit
            &&& entry <= s.enter
            &&& (t_min >= 0 ==> t_min <= s.enter < s.leave)
        },
        clipped_stretch(entry, exit, t_min, t_max).is_none() <==> greater(entry, t_min) >= lesser(
            exit,
            t_max,
        ),
{
}

} // verus!
