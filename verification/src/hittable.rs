use vstd::prelude::*;
use crate::aabb::AABB;
use crate::hit_record::HitRecord;
use crate::ray::Ray;
use crate::vec3::Scalar;

pub mod bvh;
pub mod constant_medium;
pub mod hittable_list;
pub mod nearest;
pub mod rearrange;
pub mod rect;
pub mod sphere;

verus! {

/// One axis of a ray against one pair of parallel planes.
#[derive(Clone, Copy, Debug, PartialEq, Eq, Structural)]
pub struct Slab {
    /// The reciprocal of the ray's direction along the axis.
    pub inv_d: Scalar,
    /// The ray parameter at the plane of the box's minimum.
    pub t0: Scalar,
    /// The ray parameter at the plane of the box's maximum.
    pub t1: Scalar,
}

/// A primitive that a ray can hit.
///
/// An implementer does the arithmetic on the numbers that scalars stand for.
/// Each method comes with a spec function that names its result, so that the
/// aggregates of this library can say exactly what they return: the methods
/// must be functions of their arguments.
pub trait Hittable {
    /// What `hit` reports for ray `r` and parameters from `t_min` to `t_max`.
    spec fn hit_spec(&self, r: Ray, t_min: Scalar, t_max: Scalar) -> Option<HitRecord>;

    /// What `bounding_box` reports for the exposure from `time0` to `time1`.
    spec fn bounding_box_spec(&self, time0: Scalar, time1: Scalar) -> Option<AABB>;

    /// What `slab` reports.
    spec fn slab_spec(lo: Scalar, hi: Scalar, origin: Scalar, direction: Scalar) -> Slab;

    /// The intersection of `r` with the primitive whose parameter lies from
    /// `t_min` to `t_max`, if there is one.
    fn hit(&self, r: &Ray, t_min: Scalar, t_max: Scalar) -> (rec: Option<HitRecord>)
        ensures
            rec == self.hit_spec(*r, t_min, t_max),
    ;

    /// A box around the primitive over the whole exposure; `None` for a
    /// primitive without bounds.
    fn bounding_box(&self, time0: Scalar, time1: Scalar) -> (b: Option<AABB>)
        ensures
            b == self.bounding_box_spec(time0, time1),
    ;

    /// Along one axis: the reciprocal of `direction`, and the parameters at
    /// which a ray from `origin` reaches the planes at `lo` and `hi`.
    fn slab(lo: Scalar, hi: Scalar, origin: Scalar, direction: Scalar) -> (s: Slab)
        ensures
            s == Self::slab_spec(lo, hi, origin, direction),
    ;
}

} // verus!
