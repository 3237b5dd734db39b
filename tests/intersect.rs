use tracer::hit::{HitRecord, Hittable};
use tracer::intersect::{hit_ball, hit_plane};
use tracer::ray::Ray;
use tracer::roots::{ceil_sqrt, floor_div, isqrt};
use tracer::shapes::{MovingSphere, Sphere, XyPlane};
use tracer::vec3::Vec3;
use tracer::world::{Shape, World};

fn axis_ray(r: i64) -> Ray {
    Ray::new(Vec3::new(0, 0, -2 * r), Vec3::new(0, 0, 1))
}

#[test]
fn integer_square_roots() {
    assert_eq!(isqrt(0), 0);
    assert_eq!(isqrt(1), 1);
    assert_eq!(isqrt(15), 3);
    assert_eq!(isqrt(16), 4);
    assert_eq!(isqrt(17), 4);
    assert_eq!(isqrt(1_000_000_000_000), 1_000_000);
    assert_eq!(ceil_sqrt(0), 0);
    assert_eq!(ceil_sqrt(16), 4);
    assert_eq!(ceil_sqrt(17), 5);
}

#[test]
fn flooring_division() {
    assert_eq!(floor_div(7, 2), 3);
    assert_eq!(floor_div(-7, 2), -4);
    assert_eq!(floor_div(-8, 2), -4);
    assert_eq!(floor_div(0, 5), 0);
    assert_eq!(floor_div(-1, 5), -1);
}

#[test]
fn sphere_hit_on_axis_at_radius() {
    for r in [1i64, 2, 5, 100] {
        let s = Sphere::new(Vec3::zero(), r, 4);
        let rec = s.hit(&axis_ray(r), 0, 1_000_000).unwrap();
        assert_eq!(rec.t, r);
        assert_eq!(rec.hit_point, Vec3::new(0, 0, -r));
        assert_eq!(rec.normal, Vec3::new(0, 0, -r));
        assert_eq!(rec.normal_scale, r);
        assert!(rec.front_face);
        assert_eq!(rec.material, 4);
    }
    let unit = Sphere::new(Vec3::zero(), 1, 0).hit(&axis_ray(1), 0, 10).unwrap();
    assert_eq!(unit.normal, Vec3::new(0, 0, -1));
    // The unit normal normal / normal_scale is (0, 0, -1) for every radius.
    let big = Sphere::new(Vec3::zero(), 7, 0).hit(&axis_ray(7), 0, 100).unwrap();
    assert_eq!(big.normal.z / big.normal_scale, -1);
    assert_eq!((big.normal.x, big.normal.y), (0, 0));
}

#[test]
fn sphere_second_root_past_first() {
    let r = 3;
    let s = Sphere::new(Vec3::zero(), r, 0);
    let rec = s.hit(&axis_ray(r), r + 1, 1000).unwrap();
    assert_eq!(rec.t, 3 * r);
    assert_eq!(rec.hit_point, Vec3::new(0, 0, r));
    assert!(!rec.front_face);
    assert_eq!(rec.normal, Vec3::new(0, 0, -r));
    assert_eq!(s.hit(&axis_ray(r), 3 * r + 1, 1000), None);
    assert_eq!(s.hit(&axis_ray(r), 0, r - 1), None);
}

#[test]
fn sphere_roots_are_rounded_down() {
    // From (0,0,-10) along +z toward a ball of radius 3 at (1,0,0):
    // roots at 10 - sqrt(8) = 7.17... and 10 + sqrt(8) = 12.82...
    let s = Sphere::new(Vec3::new(1, 0, 0), 3, 0);
    let ray = Ray::new(Vec3::new(0, 0, -10), Vec3::new(0, 0, 1));
    assert_eq!(s.hit(&ray, 0, 100).unwrap().t, 7);
    assert_eq!(s.hit(&ray, 8, 100).unwrap().t, 12);
    assert_eq!(s.hit(&ray, 13, 100), None);
    assert_eq!(s.hit(&ray, 0, 7), None);
}

#[test]
fn receding_ray_misses_sphere() {
    let s = Sphere::new(Vec3::new(0, 0, 0), 2, 0);
    let away = Ray::new(Vec3::new(0, 0, -5), Vec3::new(0, 0, -1));
    assert_eq!(s.hit(&away, 0, 1_000_000), None);
    let sideways = Ray::new(Vec3::new(3, 3, 0), Vec3::new(1, 1, 0));
    assert_eq!(s.hit(&sideways, 0, 1_000_000), None);
}

#[test]
fn tangent_and_missing_rays() {
    let s = Sphere::new(Vec3::zero(), 2, 0);
    let tangent = Ray::new(Vec3::new(2, 0, -5), Vec3::new(0, 0, 1));
    assert_eq!(s.hit(&tangent, 0, 100).unwrap().t, 5);
    let miss = Ray::new(Vec3::new(3, 0, -5), Vec3::new(0, 0, 1));
    assert_eq!(s.hit(&miss, 0, 100), None);
    let still = Ray::new(Vec3::new(0, 0, -5), Vec3::zero());
    assert_eq!(s.hit(&still, 0, 100), None);
}

#[test]
fn ray_from_inside_meets_back_face() {
    let s = Sphere::new(Vec3::zero(), 4, 0);
    let rec = hit_ball(&Ray::new(Vec3::zero(), Vec3::new(1, 0, 0)), &Vec3::zero(), 4, 0, 100, 2).unwrap();
    assert_eq!(rec.t, 4);
    assert!(!rec.front_face);
    assert_eq!(rec.normal, Vec3::new(-4, 0, 0));
    assert_eq!(s.hit(&Ray::new(Vec3::zero(), Vec3::new(1, 0, 0)), 0, 100), Some(rec_with_material(rec, 0)));
}

fn rec_with_material(r: HitRecord, m: usize) -> HitRecord {
    HitRecord { material: m, ..r }
}

#[test]
fn moving_sphere_hit_follows_center() {
    let m = MovingSphere::new(Vec3::new(0, 0, 0), Vec3::new(10, 0, 0), 0, 10, 1, 1);
    let at5 = Ray::with_timing(Vec3::new(5, 0, -5), Vec3::new(0, 0, 1), 5);
    assert_eq!(m.hit(&at5, 0, 100).unwrap().t, 4);
    let at0 = Ray::with_timing(Vec3::new(5, 0, -5), Vec3::new(0, 0, 1), 0);
    assert_eq!(m.hit(&at0, 0, 100), None);
    let late = Ray::with_timing(Vec3::new(10, 0, -5), Vec3::new(0, 0, 1), 11);
    assert_eq!(m.hit(&late, 0, 100), None);
    let end = Ray::with_timing(Vec3::new(10, 0, -5), Vec3::new(0, 0, 1), 10);
    assert_eq!(m.hit(&end, 0, 100).unwrap().t, 4);
}

#[test]
fn plane_hit_inside_rectangle() {
    let p = XyPlane::new(-2, -2, 2, 2, 5, 7);
    let ray = Ray::new(Vec3::new(0, 0, 0), Vec3::new(0, 0, 1));
    let rec = p.hit(&ray, 0, 100).unwrap();
    assert_eq!(rec.t, 5);
    assert_eq!(rec.hit_point, Vec3::new(0, 0, 5));
    assert!(!rec.front_face);
    assert_eq!(rec.normal, Vec3::new(0, 0, -1));
    assert_eq!(rec.normal_scale, 1);
    assert_eq!(rec.material, 7);
    let down = Ray::new(Vec3::new(1, 1, 9), Vec3::new(0, 0, -2));
    let rec = p.hit(&down, 0, 100).unwrap();
    assert_eq!(rec.t, 2);
    assert!(rec.front_face);
    assert_eq!(rec.normal, Vec3::new(0, 0, 1));
}

#[test]
fn plane_rejects_parallel_outside_and_out_of_range() {
    let p = XyPlane::new(-2, -2, 2, 2, 5, 0);
    assert_eq!(p.hit(&Ray::new(Vec3::zero(), Vec3::new(1, 0, 0)), 0, 100), None);
    assert_eq!(p.hit(&Ray::new(Vec3::new(3, 0, 0), Vec3::new(0, 0, 1)), 0, 100), None);
    assert_eq!(p.hit(&Ray::new(Vec3::zero(), Vec3::new(0, 0, -1)), 0, 100), None);
    assert_eq!(p.hit(&Ray::new(Vec3::zero(), Vec3::new(0, 0, 1)), 0, 4), None);
    // Crosses z = 5 at t = 2.5, x = 2.5: just off the rectangle.
    assert_eq!(hit_plane(&p, &Ray::new(Vec3::zero(), Vec3::new(1, 0, 2)), 0, 100), None);
    // Crosses z = 5 at t = 2.5, x = 2.5 / 2: on it; t is rounded down.
    let slanted = Ray::new(Vec3::new(-1, 0, 0), Vec3::new(1, 0, 2));
    assert_eq!(p.hit(&slanted, 0, 100).unwrap().t, 2);
}

#[test]
fn world_hit_takes_nearest_of_overlapping_spheres() {
    let near = Sphere::new(Vec3::new(0, 0, 0), 3, 1);
    let far = Sphere::new(Vec3::new(0, 0, 2), 3, 2);
    let ray = Ray::new(Vec3::new(0, 0, -10), Vec3::new(0, 0, 1));
    let w = World::new(vec![Shape::Sphere(far), Shape::Sphere(near)]);
    let rec = w.hit(&ray, 0, 1000).unwrap();
    assert_eq!(rec.t, 7);
    assert_eq!(rec.material, 1);
    let w2 = World::new(vec![Shape::Sphere(near), Shape::Sphere(far)]);
    assert_eq!(w2.hit(&ray, 0, 1000), Some(rec));
}

#[test]
fn world_hit_empty_and_missing() {
    let ray = Ray::new(Vec3::new(0, 0, -10), Vec3::new(0, 0, 1));
    assert_eq!(World::new(vec![]).hit(&ray, 0, 1000), None);
    let w = World::new(vec![Shape::Sphere(Sphere::new(Vec3::new(50, 0, 0), 1, 0))]);
    assert_eq!(w.hit(&ray, 0, 1000), None);
}

#[test]
fn world_hit_mixes_primitives() {
    let w = World::new(vec![
        Shape::XyPlane(XyPlane::new(-5, -5, 5, 5, 3, 9)),
        Shape::Sphere(Sphere::new(Vec3::new(0, 0, 6), 1, 8)),
    ]);
    let ray = Ray::new(Vec3::zero(), Vec3::new(0, 0, 1));
    let rec = w.hit(&ray, 0, 100).unwrap();
    assert_eq!(rec.t, 3);
    assert_eq!(rec.material, 9);
    assert_eq!(w.hit(&ray, 4, 100).unwrap().material, 8);
}
