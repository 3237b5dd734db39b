use tracer::aabb::Aabb;
use tracer::hit::{nearest_index, set_face_normal, HitRecord, Hittable};
use tracer::ray::Ray;
use tracer::shapes::{MovingSphere, Sphere, XyPlane};
use tracer::vec3::Vec3;
use tracer::world::{Shape, World};

fn boxed(a: (i64, i64, i64), b: (i64, i64, i64)) -> Aabb {
    Aabb::new(Vec3::new(a.0, a.1, a.2), Vec3::new(b.0, b.1, b.2))
}

fn record(t: i64, material: usize) -> HitRecord {
    let d = Vec3::new(0, 0, 1);
    let n = Vec3::new(0, 0, -1);
    HitRecord::new(t, Vec3::new(0, 0, t), &d, &n, 1, material)
}

#[test]
fn vector_arithmetic() {
    let a = Vec3::new(1, -2, 3);
    let b = Vec3::new(4, 5, -6);
    assert_eq!(a.add(&b), Vec3::new(5, 3, -3));
    assert_eq!(a.sub(&b), Vec3::new(-3, -7, 9));
    assert_eq!(a.neg(), Vec3::new(-1, 2, -3));
    assert_eq!(a.dot(&b), 4 - 10 - 18);
    assert_eq!(Vec3::splat(7), Vec3::new(7, 7, 7));
    assert_eq!(Vec3::zero(), Vec3::new(0, 0, 0));
}

#[test]
fn ray_at_and_timing() {
    let r = Ray::new(Vec3::new(1, 2, 3), Vec3::new(0, -1, 2));
    assert_eq!(r.time, 0);
    assert_eq!(r.at(3), Vec3::new(1, -1, 9));
    assert_eq!(r.at(-2), Vec3::new(1, 4, -1));
    let m = Ray::with_timing(Vec3::zero(), Vec3::new(1, 0, 0), 5);
    assert_eq!(m.time, 5);
    assert_eq!(m.at(0), Vec3::zero());
}

#[test]
fn merge_is_commutative_and_encloses_both() {
    let a = boxed((0, 0, 0), (2, 3, 4));
    let b = boxed((-1, 1, 2), (1, 5, 3));
    let ab = a.merge(&b);
    assert_eq!(ab, b.merge(&a));
    assert_eq!(ab, boxed((-1, 0, 0), (2, 5, 4)));
    let c = boxed((5, -5, 9), (6, -4, 10));
    assert_eq!(ab.merge(&c), a.merge(&b.merge(&c)));
}

#[test]
fn merge_of_far_boxes_does_not_reach_origin() {
    let a = boxed((5, 5, 5), (6, 6, 6));
    let b = boxed((8, 7, 9), (9, 8, 10));
    assert_eq!(a.merge(&b), boxed((5, 5, 5), (9, 8, 10)));
}

#[test]
fn sphere_box() {
    let s = Sphere::new(Vec3::new(1, 2, 3), 2, 0);
    assert_eq!(s.bounding_box(0, 1), Some(boxed((-1, 0, 1), (3, 4, 5))));
}

#[test]
fn world_box_of_two_unit_spheres() {
    let w = World::new(vec![
        Shape::Sphere(Sphere::new(Vec3::new(-10, 0, 0), 1, 0)),
        Shape::Sphere(Sphere::new(Vec3::new(10, 0, 0), 1, 0)),
    ]);
    let b = w.bounding_box(0, 1).unwrap();
    assert!(b.min.x <= -11 && b.max.x >= 11);
    assert_eq!(b, boxed((-11, -1, -1), (11, 1, 1)));
}

#[test]
fn empty_world_has_no_box() {
    let w = World::new(vec![]);
    assert_eq!(w.bounding_box(0, 1), None);
}

#[test]
fn world_box_mixes_primitives() {
    let w = World::new(vec![
        Shape::XyPlane(XyPlane::new(3, 4, 7, 9, 20, 1)),
        Shape::MovingSphere(MovingSphere::new(Vec3::new(0, 0, 0), Vec3::new(10, 0, 0), 0, 10, 1, 2)),
    ]);
    assert_eq!(w.bounding_box(0, 10), Some(boxed((-1, -1, -1), (11, 9, 21))));
}

#[test]
fn moving_center_interpolates() {
    let m = MovingSphere::new(Vec3::new(0, 0, 0), Vec3::new(10, -10, 4), 0, 4, 1, 0);
    assert_eq!(m.moving_center(0), Vec3::new(0, 0, 0));
    assert_eq!(m.moving_center(4), Vec3::new(10, -10, 4));
    assert_eq!(m.moving_center(2), Vec3::new(5, -5, 2));
    assert_eq!(m.moving_center(1), Vec3::new(2, -2, 1));
}

#[test]
fn moving_sphere_box_merges_endpoint_balls() {
    let m = MovingSphere::new(Vec3::new(0, 0, 0), Vec3::new(8, 0, 0), 0, 8, 2, 0);
    assert_eq!(m.bounding_box(2, 6), Some(boxed((0, -2, -2), (8, 2, 2))));
}

#[test]
fn moving_sphere_time_window() {
    let m = MovingSphere::new(Vec3::zero(), Vec3::new(1, 0, 0), 2, 5, 1, 0);
    assert!(!m.covers_time(1));
    assert!(m.covers_time(2));
    assert!(m.covers_time(5));
    assert!(!m.covers_time(6));
}

#[test]
fn plane_box_is_padded_on_depth() {
    let p = XyPlane::new(-2, -3, 4, 5, 7, 0);
    assert_eq!(p.bounding_box(0, 1), Some(boxed((-2, -3, 6), (4, 5, 8))));
}

#[test]
fn plane_contains_its_edges_only() {
    let p = XyPlane::new(0, 0, 4, 2, 1, 0);
    assert!(p.contains_xy(0, 0));
    assert!(p.contains_xy(4, 2));
    assert!(p.contains_xy(2, 1));
    assert!(!p.contains_xy(5, 1));
    assert!(!p.contains_xy(2, -1));
}

#[test]
fn front_face_follows_dot_sign() {
    let out = Vec3::new(0, 0, -1);
    let f = set_face_normal(&Vec3::new(0, 0, 1), &out);
    assert!(f.front_face);
    assert_eq!(f.normal, out);
    let b = set_face_normal(&Vec3::new(0, 0, -1), &out);
    assert!(!b.front_face);
    assert_eq!(b.normal, Vec3::new(0, 0, 1));
    let g = set_face_normal(&Vec3::new(1, 0, 0), &out);
    assert!(!g.front_face);
    assert_eq!(g.normal, Vec3::new(0, 0, 1));
}

#[test]
fn record_on_front_face_keeps_outward_normal() {
    let ray = Ray::new(Vec3::new(0, 0, -4), Vec3::new(0, 0, 1));
    let p = ray.at(2);
    assert_eq!(p, Vec3::new(0, 0, -2));
    let rec = HitRecord::new(2, p, &ray.direction, &Vec3::new(0, 0, -1), 1, 3);
    assert_eq!(rec.normal_scale, 1);
    assert!(rec.front_face);
    assert_eq!(rec.normal, Vec3::new(0, 0, -1));
    assert_eq!(rec.material, 3);
    assert_eq!(rec.t, 2);
}

#[test]
fn nearest_hit_takes_smaller_t() {
    let a = record(3, 1);
    let b = record(5, 2);
    assert_eq!(World::nearest(&vec![Some(a), Some(b)]), Some(a));
    assert_eq!(World::nearest(&vec![Some(b), Some(a)]), Some(a));
    assert_eq!(World::nearest(&vec![None, Some(b), None]), Some(b));
    assert_eq!(World::nearest(&vec![None, None]), None);
    assert_eq!(World::nearest(&vec![]), None);
}

#[test]
fn nearest_hit_ties_go_to_first_member() {
    let a = record(4, 1);
    let b = record(4, 2);
    assert_eq!(nearest_index(&vec![None, Some(a), Some(b)]), Some(1));
    assert_eq!(World::nearest(&vec![Some(b), Some(a)]), Some(b));
}

#[test]
fn world_box_ignores_member_order() {
    let a = Shape::Sphere(Sphere::new(Vec3::new(-10, 0, 0), 1, 0));
    let b = Shape::XyPlane(XyPlane::new(3, 4, 7, 9, 20, 1));
    let c = Shape::MovingSphere(MovingSphere::new(Vec3::new(0, 0, 0), Vec3::new(10, 0, 0), 0, 10, 1, 2));
    let w1 = World::new(vec![a, b, c]);
    let w2 = World::new(vec![c, a, b]);
    let w3 = World::new(vec![b, c, a, b]);
    let expected = Some(boxed((-11, -1, -1), (11, 9, 21)));
    assert_eq!(w1.bounding_box(0, 10), expected);
    assert_eq!(w2.bounding_box(0, 10), expected);
    assert_eq!(w3.bounding_box(0, 10), expected);
}
