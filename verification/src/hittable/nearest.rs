use vstd::prelude::*;
use crate::aabb::AABB;
use crate::hit_record::HitRecord;
use crate::hittable::hittable_list::HittableList;
use crate::hittable::Hittable;
use crate::ray::Ray;
use crate::vec3::Scalar;

verus! {

/// The ray parameter of a hit, if there is a hit.
pub open spec fn param(rec: Option<HitRecord>) -> Option<Scalar> {
    match rec {
        Some(found) => Some(found.t),
        None => None,
    }
}

/// The parameter at which `r` hits the primitive at place `i` of `s`
/// between `t_min` and `t_max`.
pub open spec fn hit_at<T: Hittable>(s: Seq<T>, i: int, r: Ray, t_min: Scalar, t_max: Scalar) -> Option<
    Scalar,
> {
    param(s[i].hit_spec(r, t_min, t_max))
}

/// Whether `t` is no later than the hit `h`: a hit there is, then `t` is one
/// at or before it.
pub open spec fn no_later(t: Option<Scalar>, h: Option<Scalar>) -> bool {
    match h {
        None => true,
        Some(y) => match t {
            None => false,
            Some(x) => x <= y,
        },
    }
}

/// A hit cut off at `limit`: gone if it lies beyond.
pub open spec fn up_to(rec: Option<HitRecord>, limit: Scalar) -> Option<HitRecord> {
    match rec {
        Some(found) => if found.t <= limit {
            rec
        } else {
            None
        },
        None => None,
    }
}

/// Whether `t` is the parameter of the nearest hit of `r` among the
/// primitives of `s` from `lo` to `hi`: no primitive there is hit earlier,
/// and if `t` is a parameter, one of them is hit at it.
pub open spec fn is_nearest<T: Hittable>(
    s: Seq<T>,
    lo: int,
    hi: int,
    r: Ray,
    t_min: Scalar,
    t_max: Scalar,
    t: Option<Scalar>,
) -> bool {
    &&& forall|i: int| lo <= i < hi ==> no_later(t, #[trigger] hit_at(s, i, r, t_min, t_max))
    &&& t.is_some() ==> exists|i: int| lo <= i < hi && #[trigger] hit_at(s, i, r, t_min, t_max) == t
}

/// Every hit lies in the interval that was asked for.
pub open spec fn hits_in_range<T: Hittable>(s: Seq<T>, r: Ray) -> bool {
    forall|i: int, t_min: Scalar, t_max: Scalar|
        0 <= i < s.len() ==> match #[trigger] s[i].hit_spec(r, t_min, t_max) {
            Some(found) => t_min <= found.t <= t_max,
            None => true,
        }
}

/// A primitive reports its first hit in the interval: asked for less of the
/// interval, it reports the same hit, or none if that hit lies beyond.
pub open spec fn hits_nearest_first<T: Hittable>(s: Seq<T>, r: Ray) -> bool {
    forall|i: int, t_min: Scalar, t_max: Scalar, limit: Scalar|
        0 <= i < s.len() && limit <= t_max ==> #[trigger] s[i].hit_spec(r, t_min, limit) == up_to(
            #[trigger] s[i].hit_spec(r, t_min, t_max),
            limit,
        )
}

/// A ray that hits a primitive crosses every box around the primitive's own
/// box for the exposure from `time0` to `time1`.
pub open spec fn boxes_sound<T: Hittable>(s: Seq<T>, r: Ray, time0: Scalar, time1: Scalar) -> bool {
    forall|i: int, t_min: Scalar, t_max: Scalar, outer: AABB|
        0 <= i < s.len() && (#[trigger] s[i].hit_spec(r, t_min, t_max)).is_some()
            && s[i].bounding_box_spec(time0, time1).is_some() && outer.encloses(
            s[i].bounding_box_spec(time0, time1).unwrap(),
        ) ==> #[trigger] outer.crossed::<T>(r, t_min, t_max)
}

/// What the theorems on nearest hits ask of the primitives of `s` for the
/// ray `r`: hits lie in the interval asked for, the first hit in it is the
/// one reported, and no hit lies outside the primitive's box.
pub open spec fn lawful<T: Hittable>(s: Seq<T>, r: Ray, time0: Scalar, time1: Scalar) -> bool {
    &&& hits_in_range(s, r)
    &&& hits_nearest_first(s, r)
    &&& boxes_sound(s, r, time0, time1)
}

/// The nearest hit over two ranges that meet or overlap, from the nearest
/// hit `first` in one and the nearest hit `second` in the other at or before
/// `first`: `second` if there is one, else `first`.
pub proof fn lemma_nearest_of_two<T: Hittable>(
    s: Seq<T>,
    lo: int,
    hi: int,
    first_lo: int,
    first_hi: int,
    second_lo: int,
    second_hi: int,
    r: Ray,
    t_min: Scalar,
    t_max: Scalar,
    first: Option<Scalar>,
    second: Option<Scalar>,
)
    requires
        hits_in_range(s, r),
        hits_nearest_first(s, r),
        0 <= lo <= first_lo <= first_hi <= hi <= s.len(),
        lo <= second_lo <= second_hi <= hi,
        lo == first_lo || lo == second_lo,
        hi == first_hi || hi == second_hi,
        first_lo <= second_hi,
        second_lo <= first_hi,
        is_nearest(s, first_lo, first_hi, r, t_min, t_max, first),
        is_nearest(
            s,
            second_lo,
            second_hi,
            r,
            t_min,
            match first {
                Some(x) => x,
                None => t_max,
            },
            second,
        ),
    ensures
        is_nearest(
            s,
            lo,
            hi,
            r,
            t_min,
            t_max,
            if second.is_some() {
                second
            } else {
                first
            },
        ),
{
    let limit = match first {
        Some(x) => x,
        None => t_max,
    };
    let t = if second.is_some() {
        second
    } else {
        first
    };
    if first.is_some() {
        let k = choose|k: int|
            first_lo <= k < first_hi && #[trigger] hit_at(s, k, r, t_min, t_max) == first;
        assert(s[k].hit_spec(r, t_min, t_max).is_some());
        assert(limit <= t_max);
    }
    if second.is_some() {
        let j = choose|j: int|
            second_lo <= j < second_hi && #[trigger] hit_at(s, j, r, t_min, limit) == second;
        assert(s[j].hit_spec(r, t_min, limit) == up_to(s[j].hit_spec(r, t_min, t_max), limit));
        assert(hit_at(s, j, r, t_min, t_max) == second);
        assert(second.unwrap() <= limit);
    }
    assert forall|i: int| lo <= i < hi implies no_later(
        t,
        #[trigger] hit_at(s, i, r, t_min, t_max),
    ) by {
        let full = s[i].hit_spec(r, t_min, t_max);
        if full.is_some() {
            assert(full.unwrap().t <= t_max);
            if first_lo <= i < first_hi {
                assert(no_later(first, hit_at(s, i, r, t_min, t_max)));
            } else {
                assert(s[i].hit_spec(r, t_min, limit) == up_to(full, limit));
                assert(no_later(second, hit_at(s, i, r, t_min, limit)));
            }
        }
    }
}

/// The nearest hit is unique as far as its parameter goes.
pub proof fn lemma_nearest_unique<T: Hittable>(
    s: Seq<T>,
    lo: int,
    hi: int,
    r: Ray,
    t_min: Scalar,
    t_max: Scalar,
    t: Option<Scalar>,
    u: Option<Scalar>,
)
    requires
        is_nearest(s, lo, hi, r, t_min, t_max, t),
        is_nearest(s, lo, hi, r, t_min, t_max, u),
    ensures
        t == u,
{
    if t.is_some() {
        let i = choose|i: int| lo <= i < hi && #[trigger] hit_at(s, i, r, t_min, t_max) == t;
        assert(no_later(u, hit_at(s, i, r, t_min, t_max)));
    }
    if u.is_some() {
        let j = choose|j: int| lo <= j < hi && #[trigger] hit_at(s, j, r, t_min, t_max) == u;
        assert(no_later(t, hit_at(s, j, r, t_min, t_max)));
    }
}

impl<T: Hittable> HittableList<T> {
    /// A scan finds the nearest hit among the primitives it has passed, and
    /// searches on up to that hit.
    pub proof fn lemma_scanned_is_nearest(s: Seq<T>, n: int, r: Ray, t_min: Scalar, t_max: Scalar)
        requires
            0 <= n <= s.len(),
            hits_in_range(s, r),
            hits_nearest_first(s, r),
        ensures
            is_nearest(s, 0, n, r, t_min, t_max, param(Self::scanned(s, n, r, t_min, t_max).rec)),
            Self::scanned(s, n, r, t_min, t_max).closest_so_far == match Self::scanned(
                s,
                n,
                r,
                t_min,
                t_max,
            ).rec {
                Some(found) => found.t,
                None => t_max,
            },
            Self::scanned(s, n, r, t_min, t_max).closest_so_far <= t_max,
        decreases n,
    {
        if n > 0 {
            Self::lemma_scanned_is_nearest(s, n - 1, r, t_min, t_max);
            let before = Self::scanned(s, n - 1, r, t_min, t_max);
            let after = Self::scanned(s, n, r, t_min, t_max);
            let limit = before.closest_so_far;
            let full = s[n - 1].hit_spec(r, t_min, t_max);
            let cut = s[n - 1].hit_spec(r, t_min, limit);
            assert(cut == up_to(full, limit));
            let t = param(after.rec);
            assert forall|i: int| 0 <= i < n implies no_later(
                t,
                #[trigger] hit_at(s, i, r, t_min, t_max),
            ) by {
                if i < n - 1 {
                    assert(no_later(param(before.rec), hit_at(s, i, r, t_min, t_max)));
                }
            }
            if t.is_some() {
                if cut.is_some() {
                    assert(hit_at(s, n - 1, r, t_min, t_max) == t);
                } else {
                    let i = choose|i: int|
                        0 <= i < n - 1 && #[trigger] hit_at(s, i, r, t_min, t_max) == param(
                            before.rec,
                        );
                    assert(hit_at(s, i, r, t_min, t_max) == t);
                }
            }
        }
    }
}

} // verus!
