use raytracer::aabb::AABB;
use raytracer::hit_record::HitRecord;
use raytracer::hittable::bvh::{min_on_axis, BvhChild, BvhError, BvhNode};
use raytracer::hittable::hittable_list::HittableList;
use raytracer::hittable::sphere::select_root;
use raytracer::hittable::{Hittable, Slab};
use raytracer::integrator::ray_color;
use raytracer::material::Material;
use raytracer::ray::Ray;
use raytracer::render::{buffer_len, pixel_of};
use raytracer::util::clamp;
use raytracer::vec3::{Scalar, Vec3};

/// The scalar that stands for a number: its bits, turned so that integer
/// order is numeric order.
fn key(x: f64) -> Scalar {
    let bits = x.to_bits() as i64;
    bits ^ ((((bits >> 63) as u64) >> 1) as i64)
}

fn num(k: Scalar) -> f64 {
    f64::from_bits((k ^ ((((k >> 63) as u64) >> 1) as i64)) as u64)
}

fn vec3(x: f64, y: f64, z: f64) -> Vec3 {
    Vec3::new(key(x), key(y), key(z))
}

fn ray(origin: (f64, f64, f64), direction: (f64, f64, f64)) -> Ray {
    Ray::new(
        vec3(origin.0, origin.1, origin.2),
        vec3(direction.0, direction.1, direction.2),
        key(0.0),
    )
}

fn cube(lo: f64, hi: f64) -> AABB {
    AABB::new(vec3(lo, lo, lo), vec3(hi, hi, hi))
}

#[derive(Clone, Debug)]
struct Sphere {
    center: (f64, f64, f64),
    radius: f64,
    material: usize,
    bounded: bool,
}

fn sphere(x: f64, y: f64, z: f64, radius: f64, material: usize) -> Sphere {
    Sphere { center: (x, y, z), radius, material, bounded: true }
}

impl Hittable for Sphere {
    fn hit_spec(&self, r: Ray, t_min: Scalar, t_max: Scalar) -> Option<HitRecord> {
        self.hit(&r, t_min, t_max)
    }

    fn bounding_box_spec(&self, time0: Scalar, time1: Scalar) -> Option<AABB> {
        self.bounding_box(time0, time1)
    }

    fn slab_spec(lo: Scalar, hi: Scalar, origin: Scalar, direction: Scalar) -> Slab {
        Self::slab(lo, hi, origin, direction)
    }

    fn hit(&self, r: &Ray, t_min: Scalar, t_max: Scalar) -> Option<HitRecord> {
        let o = (num(r.orig.x), num(r.orig.y), num(r.orig.z));
        let d = (num(r.dir.x), num(r.dir.y), num(r.dir.z));
        let oc = (o.0 - self.center.0, o.1 - self.center.1, o.2 - self.center.2);
        let a = d.0 * d.0 + d.1 * d.1 + d.2 * d.2;
        let half_b = oc.0 * d.0 + oc.1 * d.1 + oc.2 * d.2;
        let c = oc.0 * oc.0 + oc.1 * oc.1 + oc.2 * oc.2 - self.radius * self.radius;
        let discriminant = half_b * half_b - a * c;
        if discriminant < 0.0 {
            return None;
        }
        let sqrtd = discriminant.sqrt();
        let near = (-half_b - sqrtd) / a;
        let far = (-half_b + sqrtd) / a;
        let t = num(select_root(key(near), key(far), t_min, t_max)?);
        let p = (o.0 + t * d.0, o.1 + t * d.1, o.2 + t * d.2);
        let n = (
            (p.0 - self.center.0) / self.radius,
            (p.1 - self.center.1) / self.radius,
            (p.2 - self.center.2) / self.radius,
        );
        let front_face = d.0 * n.0 + d.1 * n.1 + d.2 * n.2 < 0.0;
        let n = if front_face { n } else { (-n.0, -n.1, -n.2) };
        Some(HitRecord {
            p: vec3(p.0, p.1, p.2),
            normal: vec3(n.0, n.1, n.2),
            material: self.material,
            t: key(t),
            u: key(0.0),
            v: key(0.0),
            front_face,
        })
    }

    fn bounding_box(&self, _time0: Scalar, _time1: Scalar) -> Option<AABB> {
        if !self.bounded {
            return None;
        }
        let (x, y, z) = self.center;
        let r = self.radius;
        Some(AABB::new(vec3(x - r, y - r, z - r), vec3(x + r, y + r, z + r)))
    }

    fn slab(lo: Scalar, hi: Scalar, origin: Scalar, direction: Scalar) -> Slab {
        let inv_d = 1.0 / num(direction);
        Slab {
            inv_d: key(inv_d),
            t0: key((num(lo) - num(origin)) * inv_d),
            t1: key((num(hi) - num(origin)) * inv_d),
        }
    }
}

fn list_of(spheres: Vec<Sphere>) -> HittableList<Sphere> {
    let mut list = HittableList::new();
    for s in spheres {
        list.push(s);
    }
    list
}

fn materials(list: &HittableList<Sphere>) -> Vec<usize> {
    let mut m: Vec<usize> = list.objects.iter().map(|s| s.material).collect();
    m.sort();
    m
}

fn leaves(node: &BvhNode, out: &mut Vec<usize>) {
    for child in [&node.left, &node.right] {
        match child {
            BvhChild::Leaf(i) => out.push(*i),
            BvhChild::Inner(inner) => leaves(inner, out),
        }
    }
}

fn depth(node: &BvhNode) -> usize {
    let below = |child: &BvhChild| match child {
        BvhChild::Leaf(_) => 0,
        BvhChild::Inner(inner) => depth(inner),
    };
    1 + below(&node.left).max(below(&node.right))
}

/// Every node's box is the surrounding box of its children's boxes.
fn boxes_merge(node: &BvhNode, list: &HittableList<Sphere>) -> bool {
    let bounds = |child: &BvhChild| match child {
        BvhChild::Leaf(i) => list.objects[*i].bounding_box(0, 0).unwrap(),
        BvhChild::Inner(inner) => inner.bounding_box,
    };
    let nested = |child: &BvhChild| match child {
        BvhChild::Leaf(_) => true,
        BvhChild::Inner(inner) => boxes_merge(inner, list),
    };
    node.bounding_box == AABB::surrounding_box(bounds(&node.left), bounds(&node.right))
        && nested(&node.left)
        && nested(&node.right)
}

const FAR: f64 = f64::INFINITY;

#[test]
fn key_keeps_the_order_of_numbers() {
    let numbers = [f64::NEG_INFINITY, -1000.5, -1.0, -1e-8, 0.0, 1e-8, 0.001, 1.0, 4.0, FAR];
    for pair in numbers.windows(2) {
        assert!(key(pair[0]) < key(pair[1]));
    }
    for x in numbers {
        assert_eq!(num(key(x)), x);
    }
    assert_eq!(key(0.0), 0);
}

#[test]
fn surrounding_box_takes_least_and_greatest_corner() {
    let a = AABB::new(vec3(0.0, -2.0, 5.0), vec3(1.0, 3.0, 6.0));
    let b = AABB::new(vec3(-1.0, 0.0, 5.5), vec3(0.5, 4.0, 9.0));
    let both = AABB::surrounding_box(a, b);
    assert_eq!(both, AABB::new(vec3(-1.0, -2.0, 5.0), vec3(1.0, 4.0, 9.0)));
}

#[test]
fn surrounding_box_contains_both_boxes() {
    let boxes = [
        AABB::new(vec3(0.0, 0.0, 0.0), vec3(1.0, 1.0, 1.0)),
        AABB::new(vec3(-3.0, 2.0, -0.5), vec3(-2.0, 7.0, 0.25)),
        AABB::new(vec3(10.0, -10.0, 0.0), vec3(11.0, -9.0, 0.0001)),
    ];
    let inside = |outer: &AABB, inner: &AABB| {
        outer.minimum.x <= inner.minimum.x
            && outer.minimum.y <= inner.minimum.y
            && outer.minimum.z <= inner.minimum.z
            && inner.maximum.x <= outer.maximum.x
            && inner.maximum.y <= outer.maximum.y
            && inner.maximum.z <= outer.maximum.z
    };
    for a in boxes {
        for b in boxes {
            let both = AABB::surrounding_box(a, b);
            assert!(inside(&both, &a));
            assert!(inside(&both, &b));
            assert_eq!(both, AABB::surrounding_box(b, a));
        }
    }
}

#[test]
fn surrounding_box_is_associative() {
    let a = cube(0.0, 1.0);
    let b = cube(-4.0, -3.0);
    let c = cube(0.5, 8.0);
    assert_eq!(
        AABB::surrounding_box(AABB::surrounding_box(a, b), c),
        AABB::surrounding_box(a, AABB::surrounding_box(b, c))
    );
    assert_eq!(AABB::surrounding_box(a, a), a);
}

#[test]
fn enclosing_is_the_least_box_around_the_points() {
    let points = vec![vec3(1.0, 5.0, -1.0), vec3(-2.0, 6.0, 0.0), vec3(0.0, -7.0, 3.0)];
    assert_eq!(
        AABB::enclosing(&points),
        Some(AABB::new(vec3(-2.0, -7.0, -1.0), vec3(1.0, 6.0, 3.0)))
    );
    assert_eq!(AABB::enclosing(&vec![vec3(1.0, 2.0, 3.0)]), Some(AABB::new(vec3(1.0, 2.0, 3.0), vec3(1.0, 2.0, 3.0))));
    assert_eq!(AABB::enclosing(&Vec::new()), None);
}

#[test]
fn box_is_hit_by_a_ray_through_it() {
    let b = cube(-1.0, 1.0);
    let r = ray((-5.0, 0.2, 0.1), (1.0, 0.0, 0.01));
    assert!(b.hit::<Sphere>(&r, key(0.001), key(FAR)));
    assert!(!b.hit::<Sphere>(&r, key(0.001), key(3.0)));
    assert!(!b.hit::<Sphere>(&r, key(7.0), key(FAR)));
}

#[test]
fn box_is_missed_by_a_ray_beside_it() {
    let b = cube(-1.0, 1.0);
    assert!(!b.hit::<Sphere>(&ray((-5.0, 3.0, 0.0), (1.0, 0.0, 0.0)), key(0.001), key(FAR)));
    assert!(!b.hit::<Sphere>(&ray((-5.0, 0.0, 0.0), (-1.0, 0.1, 0.0)), key(0.001), key(FAR)));
}

#[test]
fn box_is_hit_by_a_ray_parallel_to_a_slab_from_inside() {
    let b = cube(-1.0, 1.0);
    let r = ray((0.0, 0.5, -0.5), (1.0, 0.0, 0.0));
    assert!(b.hit::<Sphere>(&r, key(0.001), key(FAR)));
    let outside = ray((0.0, 1.5, -0.5), (1.0, 0.0, 0.0));
    assert!(!b.hit::<Sphere>(&outside, key(0.001), key(FAR)));
}

#[test]
fn box_hit_takes_an_empty_interval() {
    let b = cube(-1.0, 1.0);
    let r = ray((-5.0, 0.0, 0.0), (1.0, 0.0, 0.0));
    assert!(!b.hit::<Sphere>(&r, key(5.0), key(5.0)));
    assert!(!b.hit::<Sphere>(&r, key(6.0), key(4.5)));
}

#[test]
fn box_hit_narrows_the_interval_across_the_axes() {
    // The ray is inside the x slab from 4 to 6 and inside the y slab from 8
    // to 10: never inside both at once.
    let b = AABB::new(vec3(4.0, 8.0, -1.0), vec3(6.0, 10.0, 1.0));
    let r = ray((0.0, 0.0, 0.0), (1.0, 1.0, 0.0));
    assert!(!b.hit::<Sphere>(&r, key(0.001), key(FAR)));
}

#[test]
fn ray_at_the_centre_hits_at_distance_less_radius() {
    let s = sphere(0.0, 0.0, -5.0, 1.5, 7);
    let rec = s.hit(&ray((0.0, 0.0, 0.0), (0.0, 0.0, -1.0)), key(0.001), key(FAR)).unwrap();
    assert_eq!(num(rec.t), 3.5);
    assert_eq!(rec.material, 7);
    assert!(rec.front_face);
    assert_eq!(rec.normal, vec3(0.0, 0.0, 1.0));
    assert_eq!(rec.p, vec3(0.0, 0.0, -3.5));
}

#[test]
fn ray_past_the_sphere_hits_nothing() {
    let s = sphere(0.0, 0.0, -5.0, 1.0, 0);
    assert!(s.hit(&ray((0.0, 0.0, 0.0), (0.0, 1.0, 0.0)), key(0.001), key(FAR)).is_none());
    assert!(s.hit(&ray((0.0, 3.0, 0.0), (0.0, 0.0, -1.0)), key(0.001), key(FAR)).is_none());
}

#[test]
fn ray_from_inside_hits_the_far_root_with_the_normal_turned() {
    let s = sphere(0.0, 0.0, 0.0, 2.0, 0);
    let rec = s.hit(&ray((0.0, 0.0, 0.0), (1.0, 0.0, 0.0)), key(0.001), key(FAR)).unwrap();
    assert_eq!(num(rec.t), 2.0);
    assert!(!rec.front_face);
    assert_eq!(rec.normal, vec3(-1.0, -0.0, -0.0));
}

#[test]
fn select_root_prefers_the_near_root() {
    assert_eq!(select_root(30, 50, 10, 100), Some(30));
    assert_eq!(select_root(30, 50, 30, 30), Some(30));
    assert_eq!(select_root(5, 50, 10, 100), Some(50));
    assert_eq!(select_root(5, 50, 10, 49), None);
    assert_eq!(select_root(30, 50, 10, 29), None);
    assert_eq!(select_root(130, 150, 10, 100), None);
}

#[test]
fn empty_list_hits_nothing_and_has_no_box() {
    let list: HittableList<Sphere> = HittableList::new();
    assert_eq!(list.len(), 0);
    assert!(list.hit(&ray((0.0, 0.0, 0.0), (0.0, 0.0, -1.0)), key(0.001), key(FAR)).is_none());
    assert_eq!(list.bounding_box(0, 0), None);
}

#[test]
fn list_reports_the_nearest_hit_whatever_the_order() {
    let r = ray((0.0, 0.0, 0.0), (0.0, 0.0, -1.0));
    let near_first = list_of(vec![sphere(0.0, 0.0, -3.0, 1.0, 1), sphere(0.0, 0.0, -9.0, 1.0, 2)]);
    let far_first = list_of(vec![sphere(0.0, 0.0, -9.0, 1.0, 2), sphere(0.0, 0.0, -3.0, 1.0, 1)]);
    for list in [near_first, far_first] {
        let rec = list.hit(&r, key(0.001), key(FAR)).unwrap();
        assert_eq!(num(rec.t), 2.0);
        assert_eq!(rec.material, 1);
    }
}

#[test]
fn list_honours_the_interval() {
    let r = ray((0.0, 0.0, 0.0), (0.0, 0.0, -1.0));
    let list = list_of(vec![sphere(0.0, 0.0, -3.0, 1.0, 1), sphere(0.0, 0.0, -9.0, 1.0, 2)]);
    assert!(list.hit(&r, key(0.001), key(1.5)).is_none());
    let rec = list.hit(&r, key(5.0), key(FAR)).unwrap();
    assert_eq!(num(rec.t), 8.0);
    assert_eq!(rec.material, 2);
}

#[test]
fn list_box_surrounds_all_primitives() {
    let list = list_of(vec![sphere(0.0, 0.0, -3.0, 1.0, 1), sphere(4.0, 2.0, -9.0, 2.0, 2)]);
    assert_eq!(
        list.bounding_box(0, 0),
        Some(AABB::new(vec3(-1.0, -1.0, -11.0), vec3(6.0, 4.0, -2.0)))
    );
}

#[test]
fn list_with_an_unbounded_primitive_has_no_box() {
    let mut endless = sphere(0.0, 0.0, 0.0, 1.0, 0);
    endless.bounded = false;
    let list = list_of(vec![sphere(0.0, 0.0, -3.0, 1.0, 1), endless, sphere(1.0, 0.0, 0.0, 1.0, 2)]);
    assert_eq!(list.bounding_box(0, 0), None);
}

#[test]
fn min_on_axis_reads_the_box_minimum() {
    let s = sphere(1.0, 2.0, 3.0, 0.5, 0);
    assert_eq!(num(min_on_axis(&s, 0)), 0.5);
    assert_eq!(num(min_on_axis(&s, 1)), 1.5);
    assert_eq!(num(min_on_axis(&s, 2)), 2.5);
}

#[test]
fn bvh_of_one_primitive_hangs_it_on_both_sides() {
    let mut list = list_of(vec![sphere(0.0, 0.0, -3.0, 1.0, 1)]);
    let node = BvhNode::new(&mut list, 0, 1, 0, 0).unwrap();
    assert!(matches!(node.left, BvhChild::Leaf(0)));
    assert!(matches!(node.right, BvhChild::Leaf(0)));
    assert_eq!(node.bounding_box, AABB::new(vec3(-1.0, -1.0, -4.0), vec3(1.0, 1.0, -2.0)));
    assert_eq!(node.bounding_box(0, 0), Some(node.bounding_box));
}

#[test]
fn bvh_of_two_primitives_puts_the_lesser_on_the_left() {
    // The second sphere comes first along every axis.
    let mut list = list_of(vec![sphere(5.0, 5.0, 5.0, 1.0, 1), sphere(0.0, 0.0, 0.0, 1.0, 2)]);
    let node = BvhNode::new(&mut list, 0, 2, 0, 0).unwrap();
    assert!(matches!(node.left, BvhChild::Leaf(1)));
    assert!(matches!(node.right, BvhChild::Leaf(0)));
    assert_eq!(list.objects[0].material, 1);
    assert_eq!(node.bounding_box, AABB::new(vec3(-1.0, -1.0, -1.0), vec3(6.0, 6.0, 6.0)));
}

#[test]
fn bvh_sorts_and_splits_in_the_middle() {
    // Along every axis the order is the same, so the draw of the axis does
    // not matter.
    let mut list = list_of(vec![
        sphere(8.0, 8.0, 8.0, 1.0, 4),
        sphere(0.0, 0.0, 0.0, 1.0, 0),
        sphere(6.0, 6.0, 6.0, 1.0, 3),
        sphere(2.0, 2.0, 2.0, 1.0, 1),
        sphere(4.0, 4.0, 4.0, 1.0, 2),
    ]);
    let node = BvhNode::new(&mut list, 0, 5, 0, 0).unwrap();
    let order: Vec<usize> = list.objects.iter().map(|s| s.material).collect();
    assert_eq!(order, vec![0, 1, 2, 3, 4]);
    let mut found = Vec::new();
    leaves(&node, &mut found);
    assert_eq!(found, vec![0, 1, 2, 2, 3, 4]);
    assert_eq!(depth(&node), 3);
    assert_eq!(node.bounding_box, AABB::new(vec3(-1.0, -1.0, -1.0), vec3(9.0, 9.0, 9.0)));
    assert!(boxes_merge(&node, &list));
    match (&node.left, &node.right) {
        (BvhChild::Inner(l), BvhChild::Inner(r)) => {
            assert_eq!(l.bounding_box, AABB::new(vec3(-1.0, -1.0, -1.0), vec3(3.0, 3.0, 3.0)));
            assert_eq!(r.bounding_box, AABB::new(vec3(3.0, 3.0, 3.0), vec3(9.0, 9.0, 9.0)));
        }
        _ => panic!("a range of five is split into two nodes"),
    }
}

#[test]
fn bvh_over_part_of_a_list_leaves_the_rest_in_place() {
    let mut list = list_of(vec![
        sphere(9.0, 9.0, 9.0, 1.0, 9),
        sphere(6.0, 6.0, 6.0, 1.0, 3),
        sphere(2.0, 2.0, 2.0, 1.0, 1),
        sphere(4.0, 4.0, 4.0, 1.0, 2),
        sphere(-9.0, -9.0, -9.0, 1.0, 8),
    ]);
    let node = BvhNode::new(&mut list, 1, 4, 0, 0).unwrap();
    let order: Vec<usize> = list.objects.iter().map(|s| s.material).collect();
    assert_eq!(order, vec![9, 1, 2, 3, 8]);
    let mut found = Vec::new();
    leaves(&node, &mut found);
    assert_eq!(found, vec![1, 1, 2, 3]);
    assert_eq!(node.bounding_box, AABB::new(vec3(1.0, 1.0, 1.0), vec3(7.0, 7.0, 7.0)));
}

#[test]
fn bvh_keeps_every_primitive() {
    let mut spheres = Vec::new();
    for i in 0..40 {
        let x = ((i * 7) % 40) as f64 * 3.0;
        let y = ((i * 11) % 40) as f64 * 3.0;
        let z = ((i * 13) % 40) as f64 * 3.0;
        spheres.push(sphere(x, y, z, 1.0, i));
    }
    let mut list = list_of(spheres);
    let before = materials(&list);
    let node = BvhNode::new(&mut list, 0, 40, 0, 0).unwrap();
    assert_eq!(materials(&list), before);
    let mut found = Vec::new();
    leaves(&node, &mut found);
    found.sort();
    found.dedup();
    assert_eq!(found, (0..40).collect::<Vec<usize>>());
    assert!(boxes_merge(&node, &list));
    assert!(depth(&node) <= 7);
}

#[test]
fn bvh_refuses_an_empty_range() {
    let mut list = list_of(vec![sphere(0.0, 0.0, 0.0, 1.0, 0), sphere(3.0, 0.0, 0.0, 1.0, 1)]);
    assert!(matches!(BvhNode::new(&mut list, 1, 1, 0, 0), Err(BvhError::EmptyRange)));
    assert!(matches!(BvhNode::new(&mut list, 2, 1, 0, 0), Err(BvhError::EmptyRange)));
    assert!(matches!(BvhNode::new(&mut list, 0, 3, 0, 0), Err(BvhError::EmptyRange)));
    let mut empty: HittableList<Sphere> = HittableList::new();
    assert!(matches!(BvhNode::new(&mut empty, 0, 0, 0, 0), Err(BvhError::EmptyRange)));
    assert_eq!(materials(&list), vec![0, 1]);
}

#[test]
fn bvh_refuses_a_primitive_without_a_box() {
    let mut endless = sphere(-5.0, 0.0, 0.0, 1.0, 2);
    endless.bounded = false;
    let mut list = list_of(vec![
        sphere(6.0, 0.0, 0.0, 1.0, 0),
        sphere(3.0, 0.0, 0.0, 1.0, 1),
        endless,
    ]);
    assert!(matches!(BvhNode::new(&mut list, 0, 3, 0, 0), Err(BvhError::NoBoundingBox)));
    let order: Vec<usize> = list.objects.iter().map(|s| s.material).collect();
    assert_eq!(order, vec![0, 1, 2]);
    assert!(BvhNode::new(&mut list, 0, 2, 0, 0).is_ok());
}

#[test]
fn partition_sorts_along_the_axis() {
    let mut list = list_of(vec![
        sphere(5.0, 1.0, 0.0, 1.0, 0),
        sphere(1.0, 4.0, 0.0, 1.0, 1),
        sphere(3.0, 2.0, 0.0, 1.0, 2),
        sphere(2.0, 3.0, 0.0, 1.0, 3),
    ]);
    assert_eq!(BvhNode::partition(&mut list, 0, 4, 0), Ok(2));
    let order: Vec<usize> = list.objects.iter().map(|s| s.material).collect();
    assert_eq!(order, vec![1, 3, 2, 0]);
    assert_eq!(BvhNode::partition(&mut list, 0, 4, 1), Ok(2));
    let order: Vec<usize> = list.objects.iter().map(|s| s.material).collect();
    assert_eq!(order, vec![0, 2, 3, 1]);
    assert_eq!(BvhNode::partition(&mut list, 1, 4, 0), Ok(2));
    let order: Vec<usize> = list.objects.iter().map(|s| s.material).collect();
    assert_eq!(order, vec![0, 1, 3, 2]);
    assert_eq!(BvhNode::partition(&mut list, 3, 3, 0), Err(BvhError::EmptyRange));
    assert_eq!(BvhNode::partition(&mut list, 2, 5, 0), Err(BvhError::EmptyRange));
}

#[test]
fn partition_refuses_a_primitive_without_a_box() {
    let mut endless = sphere(-5.0, 0.0, 0.0, 1.0, 2);
    endless.bounded = false;
    let mut list = list_of(vec![sphere(6.0, 0.0, 0.0, 1.0, 0), sphere(3.0, 0.0, 0.0, 1.0, 1), endless]);
    assert_eq!(BvhNode::partition(&mut list, 0, 3, 0), Err(BvhError::NoBoundingBox));
    let order: Vec<usize> = list.objects.iter().map(|s| s.material).collect();
    assert_eq!(order, vec![0, 1, 2]);
    assert_eq!(BvhNode::partition(&mut list, 0, 2, 0), Ok(1));
    let order: Vec<usize> = list.objects.iter().map(|s| s.material).collect();
    assert_eq!(order, vec![1, 0, 2]);
}

#[test]
fn bvh_reports_the_nearer_of_two_hits() {
    // Along every axis the far sphere comes first, so it hangs on the left
    // and is asked first.
    let mut list = list_of(vec![sphere(0.0, 0.0, 3.0, 1.0, 1), sphere(-0.5, -0.5, -9.0, 1.0, 2)]);
    let node = BvhNode::new(&mut list, 0, 2, 0, 0).unwrap();
    assert!(matches!(node.left, BvhChild::Leaf(1)));
    let r = ray((0.0, 0.0, -20.0), (0.0, 0.0, 1.0));
    let rec = node.hit(&list, &r, key(0.001), key(FAR)).unwrap();
    assert_eq!(rec.material, 2);
    let back = ray((0.0, 0.0, 20.0), (0.0, 0.0, -1.0));
    let rec = node.hit(&list, &back, key(0.001), key(FAR)).unwrap();
    assert_eq!(rec.material, 1);
    assert_eq!(num(rec.t), 16.0);
}

#[test]
fn bvh_prunes_where_the_ray_misses_the_box() {
    let mut list = list_of(vec![sphere(0.0, 0.0, -3.0, 1.0, 1), sphere(0.0, 4.0, -3.0, 1.0, 2)]);
    let node = BvhNode::new(&mut list, 0, 2, 0, 0).unwrap();
    assert!(node.hit(&list, &ray((9.0, 0.0, 0.0), (0.0, 0.0, -1.0)), key(0.001), key(FAR)).is_none());
    assert!(node.hit(&list, &ray((0.0, 0.0, 0.0), (0.0, 0.0, -1.0)), key(0.001), key(1.0)).is_none());
}

#[test]
fn bvh_leaf_past_the_list_reports_nothing() {
    let list = list_of(vec![sphere(0.0, 0.0, -3.0, 1.0, 1)]);
    let node = BvhNode {
        left: BvhChild::Leaf(4),
        right: BvhChild::Leaf(0),
        bounding_box: cube(-10.0, 10.0),
    };
    let rec = node.hit(&list, &ray((0.0, 0.0, 0.0), (0.0, 0.0, -1.0)), key(0.001), key(FAR)).unwrap();
    assert_eq!(rec.material, 1);
}

#[test]
fn bvh_and_scan_find_the_same_nearest_hit() {
    let mut spheres = Vec::new();
    for i in 0..27 {
        let x = (i % 3) as f64 * 4.0;
        let y = ((i / 3) % 3) as f64 * 4.0;
        let z = (i / 9) as f64 * 4.0;
        spheres.push(sphere(x, y, z, 1.0, i));
    }
    let flat = list_of(spheres.clone());
    let mut list = list_of(spheres);
    let node = BvhNode::new(&mut list, 0, 27, 0, 0).unwrap();
    let mut hits = 0;
    let mut misses = 0;
    for a in -6..=6 {
        for b in -6..=6 {
            for (origin, direction) in [
                ((a as f64 * 0.9, b as f64 * 0.9, -10.0), (0.01 * b as f64, 0.02 * a as f64, 1.0)),
                ((-10.0, a as f64 * 0.7 + 4.0, b as f64 * 0.7 + 4.0), (1.0, 0.03 * a as f64, 0.0)),
                ((4.0, 20.0, 4.0), (0.1 * a as f64, -1.0, 0.1 * b as f64)),
            ] {
                let r = ray(origin, direction);
                let by_scan = flat.hit(&r, key(0.001), key(FAR));
                let by_scan_after = list.hit(&r, key(0.001), key(FAR));
                let by_tree = node.hit(&list, &r, key(0.001), key(FAR));
                assert_eq!(by_tree.map(|rec| rec.t), by_scan.map(|rec| rec.t));
                assert_eq!(by_tree, by_scan);
                assert_eq!(by_tree, by_scan_after);
                if by_tree.is_some() {
                    hits += 1;
                } else {
                    misses += 1;
                }
            }
        }
    }
    assert!(hits > 50);
    assert!(misses > 50);
}

#[test]
fn bvh_and_scan_agree_on_a_bounded_interval() {
    let spheres: Vec<Sphere> =
        (0..9).map(|i| sphere(0.0, 0.0, -3.0 * (i as f64 + 1.0), 1.0, i)).collect();
    let flat = list_of(spheres.clone());
    let mut list = list_of(spheres);
    let node = BvhNode::new(&mut list, 0, 9, 0, 0).unwrap();
    let r = ray((0.0, 0.0, 0.0), (0.0, 0.0, -1.0));
    for (t_min, t_max, expected) in [
        (0.001, FAR, Some(2.0)),
        (2.5, FAR, Some(4.0)),
        (4.5, 20.0, Some(5.0)),
        (4.5, 4.9, None),
        (27.5, FAR, Some(28.0)),
        (28.5, FAR, None),
    ] {
        let by_scan = flat.hit(&r, key(t_min), key(t_max));
        let by_tree = node.hit(&list, &r, key(t_min), key(t_max));
        assert_eq!(by_scan.map(|rec| num(rec.t)), expected);
        assert_eq!(by_tree.map(|rec| num(rec.t)), expected);
    }
}

/// The three bytes of a colour: the square root of each channel, held
/// below 1 and scaled to 256.
fn shown(colour: Vec3) -> [u8; 3] {
    let byte = |c: Scalar| (256.0 * num(clamp(key(num(c).sqrt()), key(0.0), key(0.999)))) as u8;
    [byte(colour.x), byte(colour.y), byte(colour.z)]
}

enum Surface {
    /// Gives off light and scatters none.
    Light(f64, f64, f64),
    /// Sends half of the light straight back along the normal.
    Mirror,
}

impl Material for Surface {
    fn may_scatter(&self, r_in: Ray, rec: HitRecord, out: Option<(Vec3, Ray)>) -> bool {
        out == self.scatter(&r_in, &rec)
    }

    fn emitted_spec(&self, u: Scalar, v: Scalar, p: Vec3) -> Vec3 {
        self.emitted(u, v, &p)
    }

    fn blend_spec(emitted: Vec3, attenuation: Vec3, incoming: Vec3) -> Vec3 {
        Self::blend(emitted, attenuation, incoming)
    }

    fn scatter(&self, r_in: &Ray, rec: &HitRecord) -> Option<(Vec3, Ray)> {
        match self {
            Surface::Light(..) => None,
            Surface::Mirror => Some((vec3(0.5, 0.5, 0.5), Ray::new(rec.p, rec.normal, r_in.tm))),
        }
    }

    fn emitted(&self, _u: Scalar, _v: Scalar, _p: &Vec3) -> Vec3 {
        match self {
            Surface::Light(r, g, b) => vec3(*r, *g, *b),
            Surface::Mirror => vec3(0.0, 0.0, 0.0),
        }
    }

    fn blend(emitted: Vec3, attenuation: Vec3, incoming: Vec3) -> Vec3 {
        vec3(
            num(emitted.x) + num(attenuation.x) * num(incoming.x),
            num(emitted.y) + num(attenuation.y) * num(incoming.y),
            num(emitted.z) + num(attenuation.z) * num(incoming.z),
        )
    }
}

/// The ray from a pinhole at (0, 0, 5) through the pixel at column `x` of
/// `width` and row `y` of `height`, looking down the z axis.
fn pixel_ray(x: usize, y: usize, width: u32, height: u32) -> Ray {
    let u = x as f64 / (width - 1) as f64;
    let v = y as f64 / (height - 1) as f64;
    ray((0.0, 0.0, 5.0), (-2.0 + 4.0 * u, -2.0 + 4.0 * v, -5.0))
}

/// Renders `world`, one ray through each pixel.
fn render(
    world: &HittableList<Sphere>,
    materials: &Vec<Surface>,
    background: Vec3,
    max_depth: u32,
    width: u32,
    height: u32,
) -> Vec<u8> {
    let mut bytes = vec![0u8; buffer_len(width, height).unwrap()];
    for (idx, chunk) in bytes.chunks_mut(3).enumerate() {
        let (x, y) = pixel_of(idx, width, height);
        let r = pixel_ray(x, y, width, height);
        let colour = ray_color(&r, &background, world, materials, key(0.001), key(FAR), max_depth);
        chunk.copy_from_slice(&shown(colour));
    }
    bytes
}

#[test]
fn a_light_shows_its_colour_and_the_background_beside_it() {
    let world = list_of(vec![sphere(0.0, 0.0, 0.0, 1.0, 0)]);
    let materials = vec![Surface::Light(4.0, 4.0, 4.0)];
    let (width, height) = (33, 33);
    let bytes = render(&world, &materials, vec3(0.0, 0.0, 0.0), 1, width, height);
    assert_eq!(shown(vec3(4.0, 4.0, 4.0)), [255, 255, 255]);
    let mut lit = 0;
    let mut dark = 0;
    for (idx, pixel) in bytes.chunks(3).enumerate() {
        let (x, y) = pixel_of(idx, width, height);
        let r = pixel_ray(x, y, width, height);
        let colour = ray_color(&r, &vec3(0.0, 0.0, 0.0), &world, &materials, key(0.001), key(FAR), 1);
        if world.hit(&r, key(0.001), key(FAR)).is_some() {
            assert_eq!(colour, vec3(4.0, 4.0, 4.0));
            assert_eq!(pixel, [255, 255, 255]);
            lit += 1;
        } else {
            assert_eq!(colour, vec3(0.0, 0.0, 0.0));
            assert_eq!(pixel, [0, 0, 0]);
            dark += 1;
        }
    }
    assert!(lit > 100);
    assert!(dark > 100);
    // The pixel in the middle looks at the sphere, the corners past it.
    assert_eq!(bytes[3 * (16 * 33 + 16)], 255);
    assert_eq!(bytes[0], 0);
    assert_eq!(bytes[bytes.len() - 1], 0);
}

#[test]
fn a_light_before_a_coloured_background() {
    let world = list_of(vec![sphere(0.0, 0.0, 0.0, 1.0, 0)]);
    let materials = vec![Surface::Light(0.25, 0.25, 0.25)];
    let bytes = render(&world, &materials, vec3(0.7, 0.8, 1.0), 1, 9, 9);
    assert_eq!(&bytes[3 * (4 * 9 + 4)..3 * (4 * 9 + 4) + 3], [128, 128, 128]);
    assert_eq!(&bytes[0..3], shown(vec3(0.7, 0.8, 1.0)));
    assert_eq!(shown(vec3(0.7, 0.8, 1.0)), [214, 228, 255]);
}

#[test]
fn depth_zero_renders_black() {
    let world = list_of(vec![
        sphere(0.0, -1001.0, 0.0, 1000.0, 0),
        sphere(0.0, 0.0, 0.0, 1.0, 1),
    ]);
    let materials = vec![Surface::Mirror, Surface::Mirror];
    let bytes = render(&world, &materials, vec3(0.7, 0.8, 1.0), 0, 17, 17);
    assert_eq!(bytes.len(), 17 * 17 * 3);
    assert!(bytes.iter().all(|b| *b == 0));
    let lights = vec![Surface::Light(4.0, 4.0, 4.0), Surface::Light(1.0, 1.0, 1.0)];
    let bytes = render(&world, &lights, vec3(0.7, 0.8, 1.0), 0, 17, 17);
    assert!(bytes.iter().all(|b| *b == 0));
    // At a depth of one the same view is not black.
    let bytes = render(&world, &materials, vec3(0.7, 0.8, 1.0), 1, 17, 17);
    assert!(bytes.iter().any(|b| *b != 0));
}

#[test]
fn surfaces_that_scatter_show_nothing_at_depth_one() {
    let world = list_of(vec![sphere(0.0, 0.0, 0.0, 1.0, 0)]);
    let materials = vec![Surface::Mirror];
    let white = vec3(1.0, 1.0, 1.0);
    let bytes = render(&world, &materials, white, 1, 9, 9);
    assert_eq!(&bytes[3 * (4 * 9 + 4)..3 * (4 * 9 + 4) + 3], [0, 0, 0]);
    assert_eq!(&bytes[0..3], [255, 255, 255]);
    // One bounce more and the background is seen in the sphere.
    let bytes = render(&world, &materials, white, 2, 9, 9);
    assert_eq!(&bytes[3 * (4 * 9 + 4)..3 * (4 * 9 + 4) + 3], shown(vec3(0.5, 0.5, 0.5)));
}

#[test]
fn emission_and_scattered_light_add_up() {
    // A mirror before a light: half of the light comes back from the mirror.
    let world = list_of(vec![sphere(0.0, 0.0, 0.0, 1.0, 0), sphere(0.0, 0.0, 10.0, 1.0, 1)]);
    let materials = vec![Surface::Mirror, Surface::Light(3.0, 2.0, 1.0)];
    let r = ray((0.0, 0.0, 5.0), (0.0, 0.0, -1.0));
    let black = vec3(0.0, 0.0, 0.0);
    assert_eq!(ray_color(&r, &black, &world, &materials, key(0.001), key(FAR), 2), vec3(1.5, 1.0, 0.5));
    assert_eq!(ray_color(&r, &black, &world, &materials, key(0.001), key(FAR), 50), vec3(1.5, 1.0, 0.5));
    assert_eq!(ray_color(&r, &black, &world, &materials, key(0.001), key(FAR), 1), black);
    assert_eq!(ray_color(&r, &black, &world, &materials, key(0.001), key(FAR), 0), black);
}

#[test]
fn a_ray_between_mirrors_ends_black() {
    // From inside a mirrored sphere no ray gets out.
    let world = list_of(vec![sphere(0.0, 0.0, 0.0, 10.0, 0)]);
    let materials = vec![Surface::Mirror];
    let r = ray((0.0, 0.0, 0.0), (0.3, 0.4, 0.5));
    let white = vec3(1.0, 1.0, 1.0);
    for depth in [0, 1, 2, 50, 500] {
        assert_eq!(
            ray_color(&r, &white, &world, &materials, key(0.001), key(FAR), depth),
            vec3(0.0, 0.0, 0.0)
        );
    }
}

#[test]
fn a_hit_without_a_material_is_black() {
    let world = list_of(vec![sphere(0.0, 0.0, 0.0, 1.0, 7)]);
    let materials = vec![Surface::Light(4.0, 4.0, 4.0)];
    let r = ray((0.0, 0.0, 5.0), (0.0, 0.0, -1.0));
    let sky = vec3(0.7, 0.8, 1.0);
    assert_eq!(ray_color(&r, &sky, &world, &materials, key(0.001), key(FAR), 5), vec3(0.0, 0.0, 0.0));
    let past = ray((0.0, 3.0, 5.0), (0.0, 0.0, -1.0));
    assert_eq!(ray_color(&past, &sky, &world, &materials, key(0.001), key(FAR), 5), sky);
}
