use vstd::prelude::*;
use crate::aabb::AABB;
use crate::hit_record::HitRecord;
use crate::hittable::{Hittable, Slab};
use crate::ray::Ray;
use crate::vec3::Scalar;

verus! {

/// The primitives of a scene, in no particular order.
pub struct HittableList<T> {
    pub objects: Vec<T>,
}

/// How far a scan has come: the nearest hit so far and its parameter, which
/// bounds the search in what is left.
pub struct Scan {
    pub closest_so_far: Scalar,
    pub rec: Option<HitRecord>,
}

impl<T: Hittable> HittableList<T> {
    /// The scan after the first `n` primitives of `s`.
    pub open spec fn scanned(s: Seq<T>, n: int, r: Ray, t_min: Scalar, t_max: Scalar) -> Scan
        decreases n,
    {
        if n <= 0 {
            Scan { closest_so_far: t_max, rec: None }
        } else {
            let before = Self::scanned(s, n - 1, r, t_min, t_max);
            match s[n - 1].hit_spec(r, t_min, before.closest_so_far) {
                Some(found) => Scan { closest_so_far: found.t, rec: Some(found) },
                None => before,
            }
        }
    }

    /// The box around the first `n` primitives of `s`; `None` if there is
    /// none of them or one of them has no box.
    pub open spec fn bounded(s: Seq<T>, n: int, time0: Scalar, time1: Scalar) -> Option<AABB>
        decreases n,
    {
        if n <= 0 {
            None
        } else {
            match s[n - 1].bounding_box_spec(time0, time1) {
                None => None,
                Some(last) => if n == 1 {
                    Some(last)
                } else {
                    match Self::bounded(s, n - 1, time0, time1) {
                        None => None,
                        Some(before) => Some(AABB::merged(before, last)),
                    }
                },
            }
        }
    }

    pub open spec fn view(&self) -> Seq<T> {
        self.objects@
    }

    pub fn new() -> (list: Self)
        ensures
            list@.len() == 0,
    {
        HittableList { objects: Vec::new() }
    }

    pub fn push(&mut self, object: T)
        ensures
            final(self)@ == old(self)@.push(object),
    {
        self.objects.push(object);
    }

    pub fn len(&self) -> (n: usize)
        ensures
            n == self@.len(),
    {
        self.objects.len()
    }
}

impl<T: Hittable> Hittable for HittableList<T> {
    open spec fn hit_spec(&self, r: Ray, t_min: Scalar, t_max: Scalar) -> Option<HitRecord> {
        Self::scanned(self@, self@.len() as int, r, t_min, t_max).rec
    }

    open spec fn bounding_box_spec(&self, time0: Scalar, time1: Scalar) -> Option<AABB> {
        Self::bounded(self@, self@.len() as int, time0, time1)
    }

    open spec fn slab_spec(lo: Scalar, hi: Scalar, origin: Scalar, direction: Scalar) -> Slab {
        T::slab_spec(lo, hi, origin, direction)
    }

    /// The hit nearest to the ray's origin: each primitive is asked only for
    /// what lies at or before the nearest hit so far.
    fn hit(&self, r: &Ray, t_min: Scalar, t_max: Scalar) -> (rec: Option<HitRecord>) {
        let mut rec: Option<HitRecord> = None;
        let mut closest_so_far: Scalar = t_max;
        let n: usize = self.objects.len();
        let mut i: usize = 0;
        while i < n
            invariant
                i <= n,
                n == self@.len(),
                (Scan { closest_so_far, rec }) == Self::scanned(self@, i as int, *r, t_min, t_max),
            decreases n - i,
        {
            if let Some(temp_rec) = self.objects[i].hit(r, t_min, closest_so_far) {
                closest_so_far = temp_rec.t;
                rec = Some(temp_rec);
            }
            i += 1;
        }
        rec
    }

    /// The box around all primitives; `None` for an empty list or when one of
    /// them has no box.
    fn bounding_box(&self, time0: Scalar, time1: Scalar) -> (b: Option<AABB>) {
        let n: usize = self.objects.len();
        if n == 0 {
            return None;
        }
        let mut bounding_box: Option<AABB> = None;
        let mut i: usize = 0;
        while i < n
            invariant
                i <= n,
                n == self@.len(),
                i == 0 ==> bounding_box.is_none(),
                i > 0 ==> bounding_box.is_some(),
                i > 0 ==> bounding_box == Self::bounded(self@, i as int, time0, time1),
            decreases n - i,
        {
            let temp_box = self.objects[i].bounding_box(time0, time1);
            match temp_box {
                None => {
                    proof {
                        Self::lemma_unbounded_from(self@, i as int + 1, n as int, time0, time1);
                    }
                    return None;
                },
                Some(last) => {
                    bounding_box = match bounding_box {
                        None => Some(last),
                        Some(before) => Some(AABB::surrounding_box(before, last)),
                    };
                },
            }
            i += 1;
        }
        bounding_box
    }

    fn slab(lo: Scalar, hi: Scalar, origin: Scalar, direction: Scalar) -> (s: Slab) {
        T::slab(lo, hi, origin, direction)
    }
}

impl<T: Hittable> HittableList<T> {
    /// The box around primitives is around the box of each of them.
    pub proof fn lemma_bounded_encloses(s: Seq<T>, n: int, time0: Scalar, time1: Scalar, i: int)
        requires
            0 <= i < n <= s.len(),
            Self::bounded(s, n, time0, time1).is_some(),
        ensures
            s[i].bounding_box_spec(time0, time1).is_some(),
            Self::bounded(s, n, time0, time1).unwrap().encloses(
                s[i].bounding_box_spec(time0, time1).unwrap(),
            ),
        decreases n,
    {
        if i < n - 1 {
            Self::lemma_bounded_encloses(s, n - 1, time0, time1, i);
        }
    }

    /// Once a prefix has no box, no longer prefix has one.
    pub proof fn lemma_unbounded_from(s: Seq<T>, n: int, m: int, time0: Scalar, time1: Scalar)
        requires
            0 < n <= m,
            Self::bounded(s, n, time0, time1).is_none(),
        ensures
            Self::bounded(s, m, time0, time1).is_none(),
        decreases m - n,
    {
        if n < m {
            Self::lemma_unbounded_from(s, n, m - 1, time0, time1);
        }
    }
}

} // verus!
