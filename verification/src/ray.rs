use vstd::prelude::*;
use crate::vec3::{Point3, Scalar, Vec3};

verus! {

/// A half-line with the moment at which it was cast.
#[derive(Clone, Copy, Debug, PartialEq, Eq, Structural)]
pub struct Ray {
    pub orig: Point3,
    pub dir: Vec3,
    pub tm: Scalar,
}

impl Ray {
    pub fn new(orig: Point3, dir: Vec3, tm: Scalar) -> (r: Ray)
        ensures
            r == (Ray { orig, dir, tm }),
    {
        Ray { orig, dir, tm }
    }

    pub fn origin(&self) -> (p: Point3)
        ensures
            p == self.orig,
    {
        self.orig
    }

    pub fn direction(&self) -> (d: Vec3)
        ensures
            d == self.dir,
    {
        self.dir
    }

    pub fn time(&self) -> (t: Scalar)
        ensures
            t == self.tm,
    {
        self.tm
    }
}

} // verus!
