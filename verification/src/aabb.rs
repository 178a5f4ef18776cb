use vstd::prelude::*;
use crate::hittable::{Hittable, Slab};
use crate::ray::Ray;
use crate::vec3::{Point3, Scalar, Vec3};

verus! {

/// The smaller of two scalars.
pub open spec fn lesser(a: Scalar, b: Scalar) -> Scalar {
    if a <= b {
        a
    } else {
        b
    }
}

/// The larger of two scalars.
pub open spec fn greater(a: Scalar, b: Scalar) -> Scalar {
    if a >= b {
        a
    } else {
        b
    }
}

/// An axis-aligned bounding box, given by its two extreme corners.
#[derive(Clone, Copy, Debug, PartialEq, Eq, Structural)]
pub struct AABB {
    pub minimum: Point3,
    pub maximum: Point3,
}

impl AABB {
    /// Whether the box has its corners the right way round on every axis.
    pub open spec fn ordered(self) -> bool {
        self.minimum.le(self.maximum)
    }

    /// Whether `p` lies in the box, faces included.
    pub open spec fn contains_point(self, p: Point3) -> bool {
        self.minimum.le(p) && p.le(self.maximum)
    }

    /// Whether `inner` lies wholly in the box.
    pub open spec fn encloses(self, inner: AABB) -> bool {
        self.minimum.le(inner.minimum) && inner.maximum.le(self.maximum)
    }

    /// The smallest box around `a` and `b`.
    pub open spec fn merged(a: AABB, b: AABB) -> AABB {
        AABB {
            minimum: Vec3 {
                x: lesser(a.minimum.x, b.minimum.x),
                y: lesser(a.minimum.y, b.minimum.y),
                z: lesser(a.minimum.z, b.minimum.z),
            },
            maximum: Vec3 {
                x: greater(a.maximum.x, b.maximum.x),
                y: greater(a.maximum.y, b.maximum.y),
                z: greater(a.maximum.z, b.maximum.z),
            },
        }
    }

    /// Where a ray enters and leaves the pair of planes across axis `a`:
    /// the two parameters of the slab, the smaller first when the direction's
    /// reciprocal is negative.
    pub open spec fn entry_exit<T: Hittable>(self, r: Ray, a: int) -> (Scalar, Scalar) {
        let s = T::slab_spec(
            self.minimum.axis(a),
            self.maximum.axis(a),
            r.orig.axis(a),
            r.dir.axis(a),
        );
        if s.inv_d < 0 {
            (s.t1, s.t0)
        } else {
            (s.t0, s.t1)
        }
    }

    /// The running interval after the slabs of the first `n` axes have been
    /// intersected with the interval from `t_min` to `t_max`.
    pub open spec fn clipped<T: Hittable>(self, r: Ray, t_min: Scalar, t_max: Scalar, n: int) -> (
        Scalar,
        Scalar,
    )
        decreases n,
    {
        if n <= 0 {
            (t_min, t_max)
        } else {
            let before = self.clipped::<T>(r, t_min, t_max, n - 1);
            let slab = self.entry_exit::<T>(r, n - 1);
            (greater(slab.0, before.0), lesser(slab.1, before.1))
        }
    }

    /// Whether the ray crosses the box between `t_min` and `t_max`: after
    /// each of the three axes the running interval is still not empty.
    pub open spec fn crossed<T: Hittable>(self, r: Ray, t_min: Scalar, t_max: Scalar) -> bool {
        forall|n: int|
            1 <= n <= 3 ==> {
                let c = #[trigger] self.clipped::<T>(r, t_min, t_max, n);
                c.0 < c.1
            }
    }

    /// The box that is the single point `p`.
    pub open spec fn point(p: Point3) -> AABB {
        AABB { minimum: p, maximum: p }
    }

    /// The smallest box around the first `n` points of `s`.
    pub open spec fn around(s: Seq<Point3>, n: int) -> AABB
        decreases n,
    {
        if n <= 1 {
            Self::point(s[0])
        } else {
            Self::merged(Self::around(s, n - 1), Self::point(s[n - 1]))
        }
    }

    pub fn new(minimum: Point3, maximum: Point3) -> (b: AABB)
        ensures
            b == (AABB { minimum, maximum }),
    {
        AABB { minimum, maximum }
    }

    /// The slab test: whether `r` crosses the box somewhere between `t_min`
    /// and `t_max`. The interval is narrowed axis by axis, and the answer is
    /// no as soon as nothing is left of it.
    pub fn hit<T: Hittable>(&self, r: &Ray, t_min: Scalar, t_max: Scalar) -> (crossed: bool)
        ensures
            crossed == self.crossed::<T>(*r, t_min, t_max),
    {
        let mut near: Scalar = t_min;
        let mut far: Scalar = t_max;
        let mut a: usize = 0;
        while a < 3
            invariant
                a <= 3,
                (near, far) == self.clipped::<T>(*r, t_min, t_max, a as int),
                forall|n: int|
                    1 <= n <= a ==> {
                        let c = #[trigger] self.clipped::<T>(*r, t_min, t_max, n);
                        c.0 < c.1
                    },
            decreases 3 - a,
        {
            let s = T::slab(self.minimum.idx(a), self.maximum.idx(a), r.orig.idx(a), r.dir.idx(a));
            let mut t0: Scalar = s.t0;
            let mut t1: Scalar = s.t1;
            if s.inv_d < 0 {
                let temp: Scalar = t0;
                t0 = t1;
                t1 = temp;
            }
            near = if t0 > near {
                t0
            } else {
                near
            };
            far = if t1 < far {
                t1
            } else {
                far
            };
            assert((near, far) == self.clipped::<T>(*r, t_min, t_max, a as int + 1));
            if far <= near {
                return false;
            }
            a += 1;
        }
        true
    }

    /// The smallest box around the given points, such as the corners of a
    /// box that was turned; `None` if there is no point.
    pub fn enclosing(points: &Vec<Point3>) -> (b: Option<AABB>)
        ensures
            points@.len() == 0 ==> b.is_none(),
            points@.len() > 0 ==> b == Some(Self::around(points@, points@.len() as int)),
    {
        let n: usize = points.len();
        if n == 0 {
            return None;
        }
        let mut bbox = AABB::new(points[0], points[0]);
        let mut i: usize = 1;
        while i < n
            invariant
                1 <= i <= n,
                n == points@.len(),
                bbox == Self::around(points@, i as int),
            decreases n - i,
        {
            bbox = AABB::surrounding_box(bbox, AABB::new(points[i], points[i]));
            i += 1;
        }
        Some(bbox)
    }

    /// The smallest box that holds both `box0` and `box1`.
    pub fn surrounding_box(box0: AABB, box1: AABB) -> (b: AABB)
        ensures
            b == Self::merged(box0, box1),
    {
        let small = Point3::new(
            pick_lesser(box0.minimum.x, box1.minimum.x),
            pick_lesser(box0.minimum.y, box1.minimum.y),
            pick_lesser(box0.minimum.z, box1.minimum.z),
        );
        let big = Point3::new(
            pick_greater(box0.maximum.x, box1.maximum.x),
            pick_greater(box0.maximum.y, box1.maximum.y),
            pick_greater(box0.maximum.z, box1.maximum.z),
        );
        AABB::new(small, big)
    }
}

fn pick_lesser(a: Scalar, b: Scalar) -> (c: Scalar)
    ensures
        c == lesser(a, b),
{
    if a <= b {
        a
    } else {
        b
    }
}

fn pick_greater(a: Scalar, b: Scalar) -> (c: Scalar)
    ensures
        c == greater(a, b),
{
    if a >= b {
        a
    } else {
        b
    }
}

/// The surrounding box of two boxes contains both of them.
pub proof fn lemma_merged_encloses_both(a: AABB, b: AABB)
    ensures
        AABB::merged(a, b).encloses(a),
        AABB::merged(a, b).encloses(b),
{
}

/// No smaller box will do: whatever encloses both boxes encloses their
/// surrounding box.
pub proof fn lemma_merged_is_least(a: AABB, b: AABB, outer: AABB)
    requires
        outer.encloses(a),
        outer.encloses(b),
    ensures
        outer.encloses(AABB::merged(a, b)),
{
}

/// Merging does not depend on the order of the two boxes.
pub proof fn lemma_merged_commutes(a: AABB, b: AABB)
    ensures
        AABB::merged(a, b) == AABB::merged(b, a),
{
}

/// Merging three boxes gives the same box however they are grouped.
pub proof fn lemma_merged_associates(a: AABB, b: AABB, c: AABB)
    ensures
        AABB::merged(AABB::merged(a, b), c) == AABB::merged(a, AABB::merged(b, c)),
{
}

/// Boxes with their corners the right way round merge into such a box.
pub proof fn lemma_merged_ordered(a: AABB, b: AABB)
    requires
        a.ordered(),
        b.ordered(),
    ensures
        AABB::merged(a, b).ordered(),
{
}

/// The box around points holds each of them, and lies in every box that
/// holds them all.
pub proof fn lemma_around_is_least(s: Seq<Point3>, n: int, outer: AABB)
    requires
        1 <= n <= s.len(),
    ensures
        forall|i: int| 0 <= i < n ==> AABB::around(s, n).contains_point(#[trigger] s[i]),
        (forall|i: int| 0 <= i < n ==> outer.contains_point(#[trigger] s[i])) ==> outer.encloses(
            AABB::around(s, n),
        ),
        AABB::around(s, n).ordered(),
    decreases n,
{
    if n > 1 {
        lemma_around_is_least(s, n - 1, outer);
        assert forall|i: int| 0 <= i < n implies AABB::around(s, n).contains_point(
            #[trigger] s[i],
        ) by {
            if i < n - 1 {
                assert(AABB::around(s, n - 1).contains_point(s[i]));
            }
        }
        if forall|i: int| 0 <= i < n ==> outer.contains_point(#[trigger] s[i]) {
            assert(outer.contains_point(s[n - 1]));
            assert(outer.encloses(AABB::around(s, n - 1)));
        }
    } else {
        if forall|i: int| 0 <= i < n ==> outer.contains_point(#[trigger] s[i]) {
            assert(outer.contains_point(s[0]));
        }
    }
}

impl AABB {
    /// The slab test only ever narrows the interval it is given.
    pub proof fn lemma_clipped_narrows<T: Hittable>(
        self,
        r: Ray,
        t_min: Scalar,
        t_max: Scalar,
        n: int,
    )
        ensures
            t_min <= self.clipped::<T>(r, t_min, t_max, n).0,
            self.clipped::<T>(r, t_min, t_max, n).1 <= t_max,
        decreases n,
    {
        if n > 0 {
            self.lemma_clipped_narrows::<T>(r, t_min, t_max, n - 1);
        }
    }

    /// Of two intervals, the wider is narrowed to the wider.
    pub proof fn lemma_clipped_monotone<T: Hittable>(
        self,
        r: Ray,
        t_min: Scalar,
        t_max: Scalar,
        wider_min: Scalar,
        wider_max: Scalar,
        n: int,
    )
        requires
            wider_min <= t_min,
            t_max <= wider_max,
        ensures
            self.clipped::<T>(r, wider_min, wider_max, n).0 <= self.clipped::<T>(
                r,
                t_min,
                t_max,
                n,
            ).0,
            self.clipped::<T>(r, t_min, t_max, n).1 <= self.clipped::<T>(
                r,
                wider_min,
                wider_max,
                n,
            ).1,
        decreases n,
    {
        if n > 0 {
            self.lemma_clipped_monotone::<T>(r, t_min, t_max, wider_min, wider_max, n - 1);
        }
    }

    /// A ray that crosses a box within an interval crosses it within every
    /// wider interval.
    pub proof fn lemma_crossed_widens<T: Hittable>(
        self,
        r: Ray,
        t_min: Scalar,
        t_max: Scalar,
        wider_min: Scalar,
        wider_max: Scalar,
    )
        requires
            wider_min <= t_min,
            t_max <= wider_max,
            self.crossed::<T>(r, t_min, t_max),
        ensures
            self.crossed::<T>(r, wider_min, wider_max),
    {
        assert forall|n: int| 1 <= n <= 3 implies {
            let c = #[trigger] self.clipped::<T>(r, wider_min, wider_max, n);
            c.0 < c.1
        } by {
            self.lemma_clipped_monotone::<T>(r, t_min, t_max, wider_min, wider_max, n);
            let inner = self.clipped::<T>(r, t_min, t_max, n);
            assert(inner.0 < inner.1);
        }
    }

    /// No ray crosses a box within an empty interval.
    pub proof fn lemma_empty_interval_missed<T: Hittable>(self, r: Ray, t_min: Scalar, t_max: Scalar)
        requires
            t_max <= t_min,
        ensures
            !self.crossed::<T>(r, t_min, t_max),
    {
        self.lemma_clipped_narrows::<T>(r, t_min, t_max, 1);
    }
}

/// Enclosure is transitive.
pub proof fn lemma_encloses_transitive(a: AABB, b: AABB, c: AABB)
    requires
        a.encloses(b),
        b.encloses(c),
    ensures
        a.encloses(c),
{
}

} // verus!
