use vstd::prelude::*;
use crate::vec3::{Point3, Scalar, Vec3};

verus! {

/// What a successful intersection query reports.
#[derive(Clone, Copy, Debug, PartialEq, Eq, Structural)]
pub struct HitRecord {
    pub p: Point3,
    pub normal: Vec3,
    pub material: usize,
    pub t: Scalar,
    pub u: Scalar,
    pub v: Scalar,
    pub front_face: bool,
}

} // verus!
