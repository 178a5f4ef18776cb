use vstd::prelude::*;

verus! {

/// A coordinate, a ray parameter or a colour channel: an integer that stands
/// for a number and is ordered as that number is. The library compares,
/// selects and stores scalars; it never does arithmetic on them.
pub type Scalar = i64;

/// Three scalars: a point, a direction or a colour.
#[derive(Clone, Copy, Debug, PartialEq, Eq, Structural)]
pub struct Vec3 {
    pub x: Scalar,
    pub y: Scalar,
    pub z: Scalar,
}

pub type Point3 = Vec3;

pub type Color = Vec3;

impl Vec3 {
    /// The component along axis `a`: 0 is x, 1 is y, anything else is z.
    pub open spec fn axis(self, a: int) -> Scalar {
        if a == 0 {
            self.x
        } else if a == 1 {
            self.y
        } else {
            self.z
        }
    }

    /// Whether every component is at most the same component of `other`.
    pub open spec fn le(self, other: Vec3) -> bool {
        self.x <= other.x && self.y <= other.y && self.z <= other.z
    }

    pub fn new(x: Scalar, y: Scalar, z: Scalar) -> (v: Vec3)
        ensures
            v == (Vec3 { x, y, z }),
    {
        Vec3 { x, y, z }
    }

    pub fn idx(&self, a: usize) -> (c: Scalar)
        ensures
            c == self.axis(a as int),
    {
        if a == 0 {
            self.x
        } else if a == 1 {
            self.y
        } else {
            self.z
        }
    }
}

} // verus!
