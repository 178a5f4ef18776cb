use vstd::prelude::*;
use crate::aabb::AABB;
use crate::hit_record::HitRecord;
use crate::hittable::hittable_list::HittableList;
use crate::hittable::rearrange::{
    lemma_rearranged_member, lemma_rearranged_twice, lemma_rearranged_widen, rearranged,
};
use crate::hittable::nearest::{
    hit_at, is_nearest, lawful, lemma_nearest_of_two, lemma_nearest_unique, no_later, param,
};
use crate::hittable::Hittable;
use crate::ray::Ray;
use crate::util::random_int;
use crate::vec3::Scalar;

verus! {

/// What hangs below a node: a primitive, by its place in the list, or
/// another node.
pub enum BvhChild {
    Leaf(usize),
    Inner(Box<BvhNode>),
}

/// A node of the bounding volume hierarchy over a list of primitives.
pub struct BvhNode {
    pub left: BvhChild,
    pub right: BvhChild,
    pub bounding_box: AABB,
}

/// Why no hierarchy could be built.
#[derive(Clone, Copy, Debug, PartialEq, Eq, Structural)]
pub enum BvhError {
    /// The range holds no primitive or runs past the end of the list.
    EmptyRange,
    /// A primitive in the range has no bounding box.
    NoBoundingBox,
}

/// By what a primitive is ordered along `axis`: the minimum of the box it
/// has at the moment 0.
pub open spec fn axis_key<T: Hittable>(object: T, axis: int) -> Scalar {
    object.bounding_box_spec(0, 0).unwrap().minimum.axis(axis)
}

/// Whether every primitive from `start` to `end` has a box, both the one at
/// the moment 0, which it is ordered by, and the one for the exposure from
/// `time0` to `time1`.
pub open spec fn all_bounded<T: Hittable>(
    s: Seq<T>,
    start: int,
    end: int,
    time0: Scalar,
    time1: Scalar,
) -> bool {
    forall|i: int|
        start <= i < end ==> (#[trigger] s[i]).bounding_box_spec(0, 0).is_some()
            && s[i].bounding_box_spec(time0, time1).is_some()
}

/// Whether the primitives from `start` to `end` stand in ascending order
/// along `axis`.
pub open spec fn sorted_on<T: Hittable>(s: Seq<T>, start: int, end: int, axis: int) -> bool {
    forall|i: int, j: int|
        start <= i <= j < end ==> axis_key(#[trigger] s[i], axis) <= axis_key(
            #[trigger] s[j],
            axis,
        )
}

/// Whether, along `axis`, no primitive from `start` to `mid` comes after one
/// from `mid` to `end`.
pub open spec fn split_on<T: Hittable>(s: Seq<T>, start: int, mid: int, end: int, axis: int) -> bool {
    forall|i: int, j: int|
        start <= i < mid && mid <= j < end ==> axis_key(#[trigger] s[i], axis) <= axis_key(
            #[trigger] s[j],
            axis,
        )
}

/// Whether `left` and `right` are the two primitives at `start` and
/// `start + 1`, the one that comes first along `axis` on the left.
pub open spec fn pair_on<T: Hittable>(
    s: Seq<T>,
    start: int,
    axis: int,
    left: BvhChild,
    right: BvhChild,
) -> bool {
    if axis_key(s[start], axis) <= axis_key(s[start + 1], axis) {
        left == BvhChild::Leaf(start as usize) && right == BvhChild::Leaf((start + 1) as usize)
    } else {
        left == BvhChild::Leaf((start + 1) as usize) && right == BvhChild::Leaf(start as usize)
    }
}

impl BvhChild {
    /// The box of the child: a primitive's own, a node's cached one.
    pub open spec fn bounds<T: Hittable>(self, s: Seq<T>, time0: Scalar, time1: Scalar) -> Option<
        AABB,
    > {
        match self {
            BvhChild::Leaf(i) => if i < s.len() {
                s[i as int].bounding_box_spec(time0, time1)
            } else {
                None
            },
            BvhChild::Inner(node) => Some(node.bounding_box),
        }
    }

    /// What the child reports for `r`: a primitive's own hit, a node's
    /// nearest. A leaf that points past the list reports nothing.
    pub open spec fn hit_spec<T: Hittable>(
        self,
        s: Seq<T>,
        r: Ray,
        t_min: Scalar,
        t_max: Scalar,
    ) -> Option<HitRecord>
        decreases self,
    {
        match self {
            BvhChild::Leaf(i) => if i < s.len() {
                s[i as int].hit_spec(r, t_min, t_max)
            } else {
                None
            },
            BvhChild::Inner(node) => node.hit_spec(s, r, t_min, t_max),
        }
    }
}

impl BvhNode {
    /// What the node reports for `r`: nothing where the ray misses its box;
    /// else the right child's hit at or before the left child's, or the left
    /// child's where the right child has none.
    pub open spec fn hit_spec<T: Hittable>(
        self,
        s: Seq<T>,
        r: Ray,
        t_min: Scalar,
        t_max: Scalar,
    ) -> Option<HitRecord>
        decreases self,
    {
        if !self.bounding_box.crossed::<T>(r, t_min, t_max) {
            None
        } else {
            let hit_left = self.left.hit_spec(s, r, t_min, t_max);
            let limit = match hit_left {
                Some(found) => found.t,
                None => t_max,
            };
            let hit_right = self.right.hit_spec(s, r, t_min, limit);
            if hit_right.is_some() {
                hit_right
            } else {
                hit_left
            }
        }
    }

    /// Whether the node is the hierarchy over the primitives of `s` from
    /// `start` to `end`: one primitive hangs on both sides; two hang one on
    /// each side, in order along some axis; more are split in the middle
    /// along some axis, each half under a node of its own. The node's box is
    /// the surrounding box of its children's.
    pub open spec fn built<T: Hittable>(
        self,
        s: Seq<T>,
        start: int,
        end: int,
        time0: Scalar,
        time1: Scalar,
    ) -> bool
        decreases self,
    {
        &&& 0 <= start < end <= s.len()
        &&& end <= usize::MAX
        &&& self.left.bounds(s, time0, time1).is_some()
        &&& self.right.bounds(s, time0, time1).is_some()
        &&& self.bounding_box == AABB::merged(
            self.left.bounds(s, time0, time1).unwrap(),
            self.right.bounds(s, time0, time1).unwrap(),
        )
        &&& if end - start == 1 {
            self.left == BvhChild::Leaf(start as usize) && self.right == BvhChild::Leaf(
                start as usize,
            )
        } else if end - start == 2 {
            exists|axis: int| 0 <= axis < 3 && #[trigger] pair_on(s, start, axis, self.left, self.right)
        } else {
            let mid = start + (end - start) / 2;
            match (self.left, self.right) {
                (BvhChild::Inner(l), BvhChild::Inner(r)) => {
                    &&& l.built(s, start, mid, time0, time1)
                    &&& r.built(s, mid, end, time0, time1)
                    &&& exists|axis: int| 0 <= axis < 3 && #[trigger] split_on(s, start, mid, end, axis)
                },
                _ => false,
            }
        }
    }
}

/// The minimum along `axis` of the box that a primitive has at the moment 0.
pub fn min_on_axis<T: Hittable>(object: &T, axis: usize) -> (key: Scalar)
    requires
        object.bounding_box_spec(0, 0).is_some(),
    ensures
        key == axis_key(*object, axis as int),
{
    object.bounding_box(0, 0).unwrap().minimum.idx(axis)
}

/// Sorts the primitives from `start` to `end` in place along `axis`.
///
/// Calls `sort_by_key` of the standard library on that part of the list,
/// with the minimum of each primitive's box along `axis` as the key. The
/// standard library documents that the slice is then in ascending order of
/// the key and holds the same elements; the rest of the list is not touched.
#[verifier::external_body]
fn sort_range<T: Hittable>(list: &mut Vec<T>, start: usize, end: usize, axis: usize)
    requires
        start <= end <= old(list).len(),
        forall|i: int| start <= i < end ==> (#[trigger] old(list)@[i]).bounding_box_spec(0, 0).is_some(),
    ensures
        rearranged(old(list)@, final(list)@, start as int, end as int),
        sorted_on(final(list)@, start as int, end as int, axis as int),
{
    list[start..end].sort_by_key(|object| min_on_axis(object, axis));
}

/// Whether every primitive from `start` to `end` has its boxes.
fn check_bounded<T: Hittable>(list: &Vec<T>, start: usize, end: usize, time0: Scalar, time1: Scalar) -> (ok:
    bool)
    requires
        start <= end <= list.len(),
    ensures
        ok == all_bounded(list@, start as int, end as int, time0, time1),
{
    let mut i: usize = start;
    while i < end
        invariant
            start <= i <= end <= list.len(),
            all_bounded(list@, start as int, i as int, time0, time1),
        decreases end - i,
    {
        if list[i].bounding_box(0, 0).is_none() || list[i].bounding_box(time0, time1).is_none() {
            return false;
        }
        i += 1;
    }
    true
}

/// The box of a child that is known to have one.
fn child_box<T: Hittable>(child: &BvhChild, list: &Vec<T>, time0: Scalar, time1: Scalar) -> (b: AABB)
    requires
        child.bounds(list@, time0, time1).is_some(),
    ensures
        Some(b) == child.bounds(list@, time0, time1),
{
    match child {
        BvhChild::Leaf(i) => list[*i].bounding_box(time0, time1).unwrap(),
        BvhChild::Inner(node) => node.bounding_box,
    }
}

impl BvhNode {
    /// The hierarchy over the primitives from `start` to `end`, which are
    /// put in another order on the way. Each node splits along an axis drawn
    /// at random.
    ///
    /// Fails, and leaves the list as it was, on a range that is empty or
    /// runs past the end of the list, and on a primitive without a box.
    pub fn new<T: Hittable>(
        list: &mut HittableList<T>,
        start: usize,
        end: usize,
        time0: Scalar,
        time1: Scalar,
    ) -> (node: Result<BvhNode, BvhError>)
        ensures
            match node {
                Ok(root) => {
                    &&& start < end <= old(list)@.len()
                    &&& all_bounded(old(list)@, start as int, end as int, time0, time1)
                    &&& rearranged(old(list)@, final(list)@, start as int, end as int)
                    &&& root.built(final(list)@, start as int, end as int, time0, time1)
                },
                Err(BvhError::EmptyRange) => {
                    &&& !(start < end <= old(list)@.len())
                    &&& final(list)@ == old(list)@
                },
                Err(BvhError::NoBoundingBox) => {
                    &&& start < end <= old(list)@.len()
                    &&& !all_bounded(old(list)@, start as int, end as int, time0, time1)
                    &&& final(list)@ == old(list)@
                },
            },
    {
        if !(start < end && end <= list.objects.len()) {
            return Err(BvhError::EmptyRange);
        }
        if !check_bounded(&list.objects, start, end, time0, time1) {
            return Err(BvhError::NoBoundingBox);
        }
        Ok(Self::build(&mut list.objects, start, end, time0, time1))
    }

    /// The nearest hit of `r` below this node. The right child is asked only
    /// for what lies at or before the left child's hit, so that of two hits
    /// the nearer one is reported.
    pub fn hit<T: Hittable>(
        &self,
        list: &HittableList<T>,
        r: &Ray,
        t_min: Scalar,
        t_max: Scalar,
    ) -> (rec: Option<HitRecord>)
        ensures
            rec == self.hit_spec(list@, *r, t_min, t_max),
        decreases self,
    {
        if !self.bounding_box.hit::<T>(r, t_min, t_max) {
            return None;
        }
        let hit_left = Self::hit_child(&self.left, list, r, t_min, t_max);
        let limit: Scalar = match hit_left {
            Some(found) => found.t,
            None => t_max,
        };
        let hit_right = Self::hit_child(&self.right, list, r, t_min, limit);
        if hit_right.is_some() {
            hit_right
        } else {
            hit_left
        }
    }

    fn hit_child<T: Hittable>(
        child: &BvhChild,
        list: &HittableList<T>,
        r: &Ray,
        t_min: Scalar,
        t_max: Scalar,
    ) -> (rec: Option<HitRecord>)
        ensures
            rec == child.hit_spec(list@, *r, t_min, t_max),
        decreases child,
    {
        match child {
            BvhChild::Leaf(i) => if *i < list.objects.len() {
                list.objects[*i].hit(r, t_min, t_max)
            } else {
                None
            },
            BvhChild::Inner(node) => node.hit(list, r, t_min, t_max),
        }
    }

    /// The box around everything below this node, whatever the exposure.
    pub fn bounding_box(&self, _time0: Scalar, _time1: Scalar) -> (b: Option<AABB>)
        ensures
            b == Some(self.bounding_box),
    {
        Some(self.bounding_box)
    }

    /// Puts the primitives from `start` to `end` in ascending order along
    /// `axis` and tells where the range is split: in the middle.
    ///
    /// Fails, and leaves the list as it was, on a range that is empty or
    /// runs past the end of the list, and on a primitive without a box.
    pub fn partition<T: Hittable>(
        list: &mut HittableList<T>,
        start: usize,
        end: usize,
        axis: usize,
    ) -> (mid: Result<usize, BvhError>)
        ensures
            match mid {
                Ok(m) => {
                    &&& start < end <= old(list)@.len()
                    &&& all_bounded(old(list)@, start as int, end as int, 0, 0)
                    &&& rearranged(old(list)@, final(list)@, start as int, end as int)
                    &&& sorted_on(final(list)@, start as int, end as int, axis as int)
                    &&& m == start + (end - start) / 2
                    &&& split_on(final(list)@, start as int, m as int, end as int, axis as int)
                },
                Err(BvhError::EmptyRange) => {
                    &&& !(start < end <= old(list)@.len())
                    &&& final(list)@ == old(list)@
                },
                Err(BvhError::NoBoundingBox) => {
                    &&& start < end <= old(list)@.len()
                    &&& !all_bounded(old(list)@, start as int, end as int, 0, 0)
                    &&& final(list)@ == old(list)@
                },
            },
    {
        if !(start < end && end <= list.objects.len()) {
            return Err(BvhError::EmptyRange);
        }
        if !check_bounded(&list.objects, start, end, 0, 0) {
            return Err(BvhError::NoBoundingBox);
        }
        sort_range(&mut list.objects, start, end, axis);
        Ok(start + (end - start) / 2)
    }

    /// The node over the primitives from `start` to `end`: an axis is drawn,
    /// one or two primitives become the children themselves, more are sorted
    /// along the axis and each half gets a node of its own.
    fn build<T: Hittable>(
        list: &mut Vec<T>,
        start: usize,
        end: usize,
        time0: Scalar,
        time1: Scalar,
    ) -> (node: BvhNode)
        requires
            start < end <= old(list)@.len(),
            all_bounded(old(list)@, start as int, end as int, time0, time1),
        ensures
            rearranged(old(list)@, final(list)@, start as int, end as int),
            node.built(final(list)@, start as int, end as int, time0, time1),
        decreases end - start,
    {
        let axis: usize = random_int(0, 2);
        let object_span: usize = end - start;
        let left: BvhChild;
        let right: BvhChild;
        if object_span == 1 {
            left = BvhChild::Leaf(start);
            right = BvhChild::Leaf(start);
        } else if object_span == 2 {
            if min_on_axis(&list[start], axis) <= min_on_axis(&list[start + 1], axis) {
                left = BvhChild::Leaf(start);
                right = BvhChild::Leaf(start + 1);
            } else {
                left = BvhChild::Leaf(start + 1);
                right = BvhChild::Leaf(start);
            }
            assert(pair_on(list@, start as int, axis as int, left, right));
        } else {
            let ghost s0 = list@;
            sort_range(list, start, end, axis);
            let ghost s1 = list@;
            let mid: usize = start + object_span / 2;
            proof {
                lemma_rearranged_bounded(s0, s1, start as int, end as int, time0, time1);
                assert(split_on(s1, start as int, mid as int, end as int, axis as int));
            }
            let l = Self::build(list, start, mid, time0, time1);
            let ghost s2 = list@;
            proof {
                lemma_rearranged_widen(s1, s2, start as int, start as int, mid as int, end as int);
                lemma_rearranged_twice(s0, s1, s2, start as int, end as int);
                lemma_split_survives(s1, s2, start as int, mid as int, end as int, axis as int);
            }
            let r = Self::build(list, mid, end, time0, time1);
            let ghost s3 = list@;
            proof {
                lemma_rearranged_widen(s2, s3, start as int, mid as int, end as int, end as int);
                lemma_rearranged_twice(s0, s2, s3, start as int, end as int);
                lemma_split_survives(s2, s3, start as int, mid as int, end as int, axis as int);
                l.lemma_built_frame(s2, s3, start as int, mid as int, time0, time1);
            }
            left = BvhChild::Inner(Box::new(l));
            right = BvhChild::Inner(Box::new(r));
        }
        let box_left = child_box(&left, list, time0, time1);
        let box_right = child_box(&right, list, time0, time1);
        let bounding_box = AABB::surrounding_box(box_left, box_right);
        BvhNode { left, right, bounding_box }
    }
}

/// The nearest hit among the primitives of a list does not depend on their
/// order.
pub proof fn lemma_rearranged_nearest<T: Hittable>(
    before: Seq<T>,
    after: Seq<T>,
    r: Ray,
    t_min: Scalar,
    t_max: Scalar,
    t: Option<Scalar>,
)
    requires
        rearranged(before, after, 0, before.len() as int),
        is_nearest(before, 0, before.len() as int, r, t_min, t_max, t),
    ensures
        is_nearest(after, 0, after.len() as int, r, t_min, t_max, t),
{
    let n = before.len() as int;
    assert forall|i: int| 0 <= i < n implies no_later(
        t,
        #[trigger] hit_at(after, i, r, t_min, t_max),
    ) by {
        lemma_rearranged_member(before, after, 0, n, i);
        let j = choose|j: int| 0 <= j < n && #[trigger] before[j] == after[i];
        assert(no_later(t, hit_at(before, j, r, t_min, t_max)));
    }
    if t.is_some() {
        let k = choose|k: int| 0 <= k < n && #[trigger] hit_at(before, k, r, t_min, t_max) == t;
        assert(rearranged(after, before, 0, n));
        lemma_rearranged_member(after, before, 0, n, k);
        let m = choose|m: int| 0 <= m < n && #[trigger] after[m] == before[k];
        assert(hit_at(after, m, r, t_min, t_max) == t);
    }
}

/// Primitives that are lawful in one order are lawful in every order.
pub proof fn lemma_rearranged_lawful<T: Hittable>(
    before: Seq<T>,
    after: Seq<T>,
    r: Ray,
    time0: Scalar,
    time1: Scalar,
)
    requires
        rearranged(before, after, 0, before.len() as int),
        lawful(before, r, time0, time1),
    ensures
        lawful(after, r, time0, time1),
{
    let n = before.len() as int;
    assert forall|i: int, t_min: Scalar, t_max: Scalar| 0 <= i < after.len() implies match #[trigger] after[i].hit_spec(
        r,
        t_min,
        t_max,
    ) {
        Some(found) => t_min <= found.t <= t_max,
        None => true,
    } by {
        lemma_rearranged_member(before, after, 0, n, i);
        let j = choose|j: int| 0 <= j < n && #[trigger] before[j] == after[i];
        assert(before[j].hit_spec(r, t_min, t_max) == after[i].hit_spec(r, t_min, t_max));
    }
    assert forall|i: int, t_min: Scalar, t_max: Scalar, limit: Scalar|
        0 <= i < after.len() && limit <= t_max implies #[trigger] after[i].hit_spec(
        r,
        t_min,
        limit,
    ) == crate::hittable::nearest::up_to(#[trigger] after[i].hit_spec(r, t_min, t_max), limit) by {
        lemma_rearranged_member(before, after, 0, n, i);
        let j = choose|j: int| 0 <= j < n && #[trigger] before[j] == after[i];
        assert(before[j].hit_spec(r, t_min, limit) == crate::hittable::nearest::up_to(
            before[j].hit_spec(r, t_min, t_max),
            limit,
        ));
    }
    assert forall|i: int, t_min: Scalar, t_max: Scalar, outer: AABB|
        0 <= i < after.len() && (#[trigger] after[i].hit_spec(r, t_min, t_max)).is_some()
            && after[i].bounding_box_spec(time0, time1).is_some() && outer.encloses(
            after[i].bounding_box_spec(time0, time1).unwrap(),
        ) implies #[trigger] outer.crossed::<T>(r, t_min, t_max) by {
        lemma_rearranged_member(before, after, 0, n, i);
        let j = choose|j: int| 0 <= j < n && #[trigger] before[j] == after[i];
        assert(before[j].hit_spec(r, t_min, t_max).is_some());
    }
}

/// What one primitive reports is the nearest hit among that one primitive.
pub proof fn lemma_leaf_is_nearest<T: Hittable>(s: Seq<T>, i: int, r: Ray, t_min: Scalar, t_max: Scalar)
    requires
        0 <= i < s.len(),
    ensures
        is_nearest(s, i, i + 1, r, t_min, t_max, hit_at(s, i, r, t_min, t_max)),
{
    let t = hit_at(s, i, r, t_min, t_max);
    assert forall|k: int| i <= k < i + 1 implies no_later(
        t,
        #[trigger] hit_at(s, k, r, t_min, t_max),
    ) by {
        assert(k == i);
    }
}

/// A rearranged range of primitives with boxes is one again.
pub proof fn lemma_rearranged_bounded<T: Hittable>(
    before: Seq<T>,
    after: Seq<T>,
    start: int,
    end: int,
    time0: Scalar,
    time1: Scalar,
)
    requires
        rearranged(before, after, start, end),
        0 <= start <= end <= before.len(),
        all_bounded(before, start, end, time0, time1),
    ensures
        all_bounded(after, start, end, time0, time1),
{
    assert forall|i: int| start <= i < end implies (#[trigger] after[i]).bounding_box_spec(
        0,
        0,
    ).is_some() && after[i].bounding_box_spec(time0, time1).is_some() by {
        lemma_rearranged_member(before, after, start, end, i);
        let j = choose|j: int| start <= j < end && #[trigger] before[j] == after[i];
        assert(before[j].bounding_box_spec(0, 0).is_some());
    }
}

/// A split stays one when either side is rearranged within itself.
pub proof fn lemma_split_survives<T: Hittable>(
    before: Seq<T>,
    after: Seq<T>,
    start: int,
    mid: int,
    end: int,
    axis: int,
)
    requires
        0 <= start <= mid <= end <= before.len(),
        split_on(before, start, mid, end, axis),
        rearranged(before, after, start, mid) || rearranged(before, after, mid, end),
    ensures
        split_on(after, start, mid, end, axis),
{
    assert forall|i: int, j: int| start <= i < mid && mid <= j < end implies axis_key(
        #[trigger] after[i],
        axis,
    ) <= axis_key(#[trigger] after[j], axis) by {
        if rearranged(before, after, start, mid) {
            lemma_rearranged_member(before, after, start, mid, i);
            let k = choose|k: int| start <= k < mid && #[trigger] before[k] == after[i];
            assert(after[j] == before[j]);
            assert(axis_key(before[k], axis) <= axis_key(before[j], axis));
        } else {
            lemma_rearranged_member(before, after, mid, end, j);
            let k = choose|k: int| mid <= k < end && #[trigger] before[k] == after[j];
            assert(after[i] == before[i]);
            assert(axis_key(before[i], axis) <= axis_key(before[k], axis));
        }
    }
}

impl BvhNode {
    /// Whether the primitive at place `i` hangs somewhere below the node.
    pub open spec fn holds(self, i: int) -> bool
        decreases self,
    {
        ||| match self.left {
            BvhChild::Leaf(l) => l == i,
            BvhChild::Inner(node) => node.holds(i),
        }
        ||| match self.right {
            BvhChild::Leaf(l) => l == i,
            BvhChild::Inner(node) => node.holds(i),
        }
    }

    /// A hierarchy holds the primitives of the range it spans, each of them
    /// and no other.
    pub proof fn lemma_holds_its_range<T: Hittable>(
        self,
        s: Seq<T>,
        start: int,
        end: int,
        time0: Scalar,
        time1: Scalar,
        i: int,
    )
        requires
            self.built(s, start, end, time0, time1),
        ensures
            self.holds(i) <==> start <= i < end,
        decreases self,
    {
        if end - start == 1 {
        } else if end - start == 2 {
            let axis = choose|axis: int|
                0 <= axis < 3 && #[trigger] pair_on(s, start, axis, self.left, self.right);
        } else {
            let mid = start + (end - start) / 2;
            match (self.left, self.right) {
                (BvhChild::Inner(l), BvhChild::Inner(r)) => {
                    l.lemma_holds_its_range(s, start, mid, time0, time1, i);
                    r.lemma_holds_its_range(s, mid, end, time0, time1, i);
                },
                _ => {},
            }
        }
    }

    /// Over primitives whose boxes have their corners the right way round,
    /// the box of a hierarchy has them so too.
    pub proof fn lemma_box_ordered<T: Hittable>(
        self,
        s: Seq<T>,
        start: int,
        end: int,
        time0: Scalar,
        time1: Scalar,
    )
        requires
            self.built(s, start, end, time0, time1),
            forall|i: int|
                start <= i < end ==> (#[trigger] s[i]).bounding_box_spec(
                    time0,
                    time1,
                ).unwrap().ordered(),
        ensures
            self.bounding_box.ordered(),
        decreases self,
    {
        if end - start == 1 {
            assert(s[start].bounding_box_spec(time0, time1).unwrap().ordered());
        } else if end - start == 2 {
            let axis = choose|axis: int|
                0 <= axis < 3 && #[trigger] pair_on(s, start, axis, self.left, self.right);
            assert(s[start].bounding_box_spec(time0, time1).unwrap().ordered());
            assert(s[start + 1].bounding_box_spec(time0, time1).unwrap().ordered());
        } else {
            let mid = start + (end - start) / 2;
            match (self.left, self.right) {
                (BvhChild::Inner(l), BvhChild::Inner(r)) => {
                    l.lemma_box_ordered(s, start, mid, time0, time1);
                    r.lemma_box_ordered(s, mid, end, time0, time1);
                },
                _ => {},
            }
        }
    }

    /// The box of a hierarchy is around the box of every primitive it spans.
    pub proof fn lemma_box_encloses<T: Hittable>(
        self,
        s: Seq<T>,
        start: int,
        end: int,
        time0: Scalar,
        time1: Scalar,
        i: int,
    )
        requires
            self.built(s, start, end, time0, time1),
            start <= i < end,
        ensures
            s[i].bounding_box_spec(time0, time1).is_some(),
            self.bounding_box.encloses(s[i].bounding_box_spec(time0, time1).unwrap()),
        decreases self,
    {
        if end - start == 1 {
        } else if end - start == 2 {
            let axis = choose|axis: int|
                0 <= axis < 3 && #[trigger] pair_on(s, start, axis, self.left, self.right);
        } else {
            let mid = start + (end - start) / 2;
            match (self.left, self.right) {
                (BvhChild::Inner(l), BvhChild::Inner(r)) => {
                    if i < mid {
                        l.lemma_box_encloses(s, start, mid, time0, time1, i);
                    } else {
                        r.lemma_box_encloses(s, mid, end, time0, time1, i);
                    }
                },
                _ => {},
            }
        }
    }

    /// A hierarchy reports the nearest hit among the primitives it spans.
    pub proof fn lemma_hit_is_nearest<T: Hittable>(
        self,
        s: Seq<T>,
        start: int,
        end: int,
        r: Ray,
        t_min: Scalar,
        t_max: Scalar,
        time0: Scalar,
        time1: Scalar,
    )
        requires
            self.built(s, start, end, time0, time1),
            lawful(s, r, time0, time1),
        ensures
            is_nearest(s, start, end, r, t_min, t_max, param(self.hit_spec(s, r, t_min, t_max))),
        decreases self,
    {
        if !self.bounding_box.crossed::<T>(r, t_min, t_max) {
            assert forall|i: int| start <= i < end implies no_later(
                None,
                #[trigger] hit_at(s, i, r, t_min, t_max),
            ) by {
                self.lemma_box_encloses(s, start, end, time0, time1, i);
                if s[i].hit_spec(r, t_min, t_max).is_some() {
                    assert(self.bounding_box.crossed::<T>(r, t_min, t_max));
                }
            }
        } else {
            let hit_left = self.left.hit_spec(s, r, t_min, t_max);
            let limit = match hit_left {
                Some(found) => found.t,
                None => t_max,
            };
            let hit_right = self.right.hit_spec(s, r, t_min, limit);
            if end - start == 1 {
                lemma_leaf_is_nearest(s, start, r, t_min, t_max);
                lemma_leaf_is_nearest(s, start, r, t_min, limit);
                lemma_nearest_of_two(
                    s,
                    start,
                    end,
                    start,
                    end,
                    start,
                    end,
                    r,
                    t_min,
                    t_max,
                    param(hit_left),
                    param(hit_right),
                );
            } else if end - start == 2 {
                let axis = choose|axis: int|
                    0 <= axis < 3 && #[trigger] pair_on(s, start, axis, self.left, self.right);
                lemma_leaf_is_nearest(s, start, r, t_min, t_max);
                lemma_leaf_is_nearest(s, start, r, t_min, limit);
                lemma_leaf_is_nearest(s, start + 1, r, t_min, t_max);
                lemma_leaf_is_nearest(s, start + 1, r, t_min, limit);
                if self.left == BvhChild::Leaf(start as usize) {
                    lemma_nearest_of_two(
                        s,
                        start,
                        end,
                        start,
                        start + 1,
                        start + 1,
                        end,
                        r,
                        t_min,
                        t_max,
                        param(hit_left),
                        param(hit_right),
                    );
                } else {
                    lemma_nearest_of_two(
                        s,
                        start,
                        end,
                        start + 1,
                        end,
                        start,
                        start + 1,
                        r,
                        t_min,
                        t_max,
                        param(hit_left),
                        param(hit_right),
                    );
                }
            } else {
                let mid = start + (end - start) / 2;
                match (self.left, self.right) {
                    (BvhChild::Inner(l), BvhChild::Inner(r_node)) => {
                        l.lemma_hit_is_nearest(s, start, mid, r, t_min, t_max, time0, time1);
                        r_node.lemma_hit_is_nearest(s, mid, end, r, t_min, limit, time0, time1);
                        lemma_nearest_of_two(
                            s,
                            start,
                            end,
                            start,
                            mid,
                            mid,
                            end,
                            r,
                            t_min,
                            t_max,
                            param(hit_left),
                            param(hit_right),
                        );
                    },
                    _ => {},
                }
            }
        }
    }

    /// A hierarchy over a whole list finds a hit at the same parameter as a
    /// scan of the list does: the nearest.
    pub proof fn theorem_agrees_with_scan<T: Hittable>(
        self,
        list: HittableList<T>,
        r: Ray,
        t_min: Scalar,
        t_max: Scalar,
        time0: Scalar,
        time1: Scalar,
    )
        requires
            self.built(list@, 0, list@.len() as int, time0, time1),
            lawful(list@, r, time0, time1),
        ensures
            param(self.hit_spec(list@, r, t_min, t_max)) == param(list.hit_spec(r, t_min, t_max)),
            is_nearest(
                list@,
                0,
                list@.len() as int,
                r,
                t_min,
                t_max,
                param(list.hit_spec(r, t_min, t_max)),
            ),
    {
        let n = list@.len() as int;
        self.lemma_hit_is_nearest(list@, 0, n, r, t_min, t_max, time0, time1);
        HittableList::<T>::lemma_scanned_is_nearest(list@, n, r, t_min, t_max);
        lemma_nearest_unique(
            list@,
            0,
            n,
            r,
            t_min,
            t_max,
            param(self.hit_spec(list@, r, t_min, t_max)),
            param(list.hit_spec(r, t_min, t_max)),
        );
    }

    /// A hierarchy built over a list finds a hit at the same parameter as a
    /// scan of the list in the order it had before it was built on.
    pub proof fn theorem_agrees_with_scan_before<T: Hittable>(
        self,
        before: HittableList<T>,
        after: HittableList<T>,
        r: Ray,
        t_min: Scalar,
        t_max: Scalar,
        time0: Scalar,
        time1: Scalar,
    )
        requires
            rearranged(before@, after@, 0, before@.len() as int),
            self.built(after@, 0, after@.len() as int, time0, time1),
            lawful(before@, r, time0, time1),
        ensures
            param(self.hit_spec(after@, r, t_min, t_max)) == param(
                before.hit_spec(r, t_min, t_max),
            ),
    {
        let n = before@.len() as int;
        lemma_rearranged_lawful(before@, after@, r, time0, time1);
        self.lemma_hit_is_nearest(after@, 0, n, r, t_min, t_max, time0, time1);
        HittableList::<T>::lemma_scanned_is_nearest(before@, n, r, t_min, t_max);
        lemma_rearranged_nearest(
            before@,
            after@,
            r,
            t_min,
            t_max,
            param(before.hit_spec(r, t_min, t_max)),
        );
        lemma_nearest_unique(
            after@,
            0,
            n,
            r,
            t_min,
            t_max,
            param(self.hit_spec(after@, r, t_min, t_max)),
            param(before.hit_spec(r, t_min, t_max)),
        );
    }

    /// What a hierarchy is built of is only the range it spans: it is the
    /// hierarchy over any list that agrees with `s` there.
    pub proof fn lemma_built_frame<T: Hittable>(
        self,
        s: Seq<T>,
        other: Seq<T>,
        start: int,
        end: int,
        time0: Scalar,
        time1: Scalar,
    )
        requires
            self.built(s, start, end, time0, time1),
            other.len() == s.len(),
            forall|i: int| start <= i < end ==> #[trigger] other[i] == s[i],
        ensures
            self.built(other, start, end, time0, time1),
        decreases self,
    {
        if end - start == 1 {
            assert(other[start] == s[start]);
        } else if end - start == 2 {
            assert(other[start] == s[start]);
            assert(other[start + 1] == s[start + 1]);
            let axis = choose|axis: int|
                0 <= axis < 3 && #[trigger] pair_on(s, start, axis, self.left, self.right);
            assert(pair_on(other, start, axis, self.left, self.right));
        } else {
            let mid = start + (end - start) / 2;
            match (self.left, self.right) {
                (BvhChild::Inner(l), BvhChild::Inner(r)) => {
                    l.lemma_built_frame(s, other, start, mid, time0, time1);
                    r.lemma_built_frame(s, other, mid, end, time0, time1);
                    let axis = choose|axis: int|
                        0 <= axis < 3 && #[trigger] split_on(s, start, mid, end, axis);
                    assert(split_on(other, start, mid, end, axis)) by {
                        assert forall|i: int, j: int|
                            start <= i < mid && mid <= j < end implies axis_key(
                            #[trigger] other[i],
                            axis,
                        ) <= axis_key(#[trigger] other[j], axis) by {
                            assert(other[i] == s[i]);
                            assert(other[j] == s[j]);
                        }
                    }
                },
                _ => {},
            }
        }
    }
}

} // verus!
