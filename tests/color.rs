use tracer::color::{ray_color, shade, Color, Materials, COLOR_ONE};
use tracer::hit::HitRecord;
use tracer::ray::Ray;
use tracer::shapes::{Sphere, XyPlane};
use tracer::vec3::Vec3;
use tracer::world::{Shape, World};

/// Material 0 glows and absorbs; material 1 halves the light and sends the
/// ray on along its direction from the hit point; material 2 reflects
/// straight back; material 3 sends the ray along the drawn sample.
struct Palette;

impl Materials for Palette {
    fn emit_spec(&self, rec: HitRecord) -> Color {
        self.emit(&rec)
    }

    fn emit(&self, rec: &HitRecord) -> Color {
        if rec.material == 0 {
            Color::new(COLOR_ONE, 2 * COLOR_ONE, 3 * COLOR_ONE)
        } else {
            Color::new(0, 0, 0)
        }
    }

    fn scatter_spec(&self, ray: Ray, rec: HitRecord, sample: Vec3) -> Option<(Color, Ray)> {
        self.scatter(&ray, &rec, &sample)
    }

    fn scatter(&self, ray: &Ray, rec: &HitRecord, sample: &Vec3) -> Option<(Color, Ray)> {
        match rec.material {
            3 => Some((Color::new(COLOR_ONE, COLOR_ONE, COLOR_ONE), Ray::new(rec.hit_point, *sample))),
            1 => Some((Color::new(COLOR_ONE / 2, COLOR_ONE / 2, COLOR_ONE / 2), Ray::new(rec.hit_point, ray.direction))),
            2 => Some((Color::new(COLOR_ONE, COLOR_ONE, COLOR_ONE), Ray::new(rec.hit_point, ray.direction.neg()))),
            _ => None,
        }
    }
}

fn sky() -> Color {
    Color::new(10, 20, 30)
}

/// One sample per bounce, all pointing along -z.
fn draws() -> Vec<Vec3> {
    vec![Vec3::new(0, 0, -1); 16]
}

fn forward() -> Ray {
    Ray::new(Vec3::zero(), Vec3::new(0, 0, 1))
}

#[test]
fn zero_budget_is_black() {
    let w = World::new(vec![Shape::Sphere(Sphere::new(Vec3::new(0, 0, 10), 2, 0))]);
    assert_eq!(ray_color(&forward(), &w, &Palette, 0, &sky(), &draws()), Color::new(0, 0, 0));
    let empty = World::new(vec![]);
    assert_eq!(ray_color(&forward(), &empty, &Palette, 0, &sky(), &draws()), Color::zero());
}

#[test]
fn miss_gives_background() {
    let empty = World::new(vec![]);
    assert_eq!(ray_color(&forward(), &empty, &Palette, 1, &sky(), &draws()), sky());
    let w = World::new(vec![Shape::Sphere(Sphere::new(Vec3::new(50, 0, 10), 2, 0))]);
    assert_eq!(ray_color(&forward(), &w, &Palette, 50, &sky(), &draws()), sky());
}

#[test]
fn absorbing_surface_gives_its_emission() {
    let w = World::new(vec![Shape::Sphere(Sphere::new(Vec3::new(0, 0, 10), 2, 0))]);
    assert_eq!(ray_color(&forward(), &w, &Palette, 5, &sky(), &draws()), Color::new(COLOR_ONE, 2 * COLOR_ONE, 3 * COLOR_ONE));
}

#[test]
fn scattering_attenuates_what_follows() {
    // A half-transmitting plane at z = 5, then a glowing sphere further on.
    let w = World::new(vec![
        Shape::XyPlane(XyPlane::new(-4, -4, 4, 4, 5, 1)),
        Shape::Sphere(Sphere::new(Vec3::new(0, 0, 20), 2, 0)),
    ]);
    let half = Color::new(COLOR_ONE / 2, COLOR_ONE, 3 * COLOR_ONE / 2);
    assert_eq!(ray_color(&forward(), &w, &Palette, 2, &sky(), &draws()), half);
    // With one bounce left the scattered ray gets no budget: black behind the plane.
    assert_eq!(ray_color(&forward(), &w, &Palette, 1, &sky(), &draws()), Color::new(0, 0, 0));
    // Without the sphere the scattered ray sees the sky, halved.
    let lone = World::new(vec![Shape::XyPlane(XyPlane::new(-4, -4, 4, 4, 5, 1))]);
    assert_eq!(ray_color(&forward(), &lone, &Palette, 2, &sky(), &draws()), Color::new(5, 10, 15));
}

#[test]
fn bouncing_between_mirrors_stops_at_budget() {
    let w = World::new(vec![
        Shape::XyPlane(XyPlane::new(-4, -4, 4, 4, 5, 2)),
        Shape::XyPlane(XyPlane::new(-4, -4, 4, 4, -5, 2)),
    ]);
    assert_eq!(ray_color(&forward(), &w, &Palette, 10, &sky(), &draws()), Color::new(0, 0, 0));
}

#[test]
fn shade_mixes_channels() {
    let e = Color::new(1, 2, 3);
    let a = Color::new(COLOR_ONE, COLOR_ONE / 4, 0);
    let t = Color::new(100, 400, 9);
    assert_eq!(shade(&e, &a, &t), Color::new(101, 102, 3));
    let big = Color::new(u64::MAX, 0, 0);
    assert_eq!(shade(&big, &a, &Color::new(5, 0, 0)).r, u64::MAX);
}

#[test]
fn world_on_grid_checks() {
    let ok = World::new(vec![Shape::Sphere(Sphere::new(Vec3::new(0, 0, 10), 2, 0))]);
    assert!(ok.check_grid());
    let far = World::new(vec![Shape::Sphere(Sphere::new(Vec3::new(0, 0, 1 << 40), 2, 0))]);
    assert!(!far.check_grid());
    let off_grid = Ray::new(Vec3::new(0, 0, 1 << 40), Vec3::new(0, 0, 1));
    assert_eq!(ray_color(&off_grid, &ok, &Palette, 3, &sky(), &draws()), sky());
}

#[test]
fn absorbed_hit_with_budget_left_gives_emission_alone() {
    let w = World::new(vec![Shape::Sphere(Sphere::new(Vec3::new(0, 0, 10), 2, 0))]);
    assert_eq!(ray_color(&forward(), &w, &Palette, 7, &sky(), &draws()), Color::new(COLOR_ONE, 2 * COLOR_ONE, 3 * COLOR_ONE));
}

#[test]
fn scatter_follows_the_drawn_sample() {
    // Material 3 at z = 5 sends the ray along the sample for that bounce.
    let w = World::new(vec![
        Shape::XyPlane(XyPlane::new(-4, -4, 4, 4, 5, 3)),
        Shape::Sphere(Sphere::new(Vec3::new(0, 0, 20), 2, 0)),
        Shape::Sphere(Sphere::new(Vec3::new(0, 20, 5), 2, 0)),
    ]);
    let glow = Color::new(COLOR_ONE, 2 * COLOR_ONE, 3 * COLOR_ONE);
    // With depth 2 the first bounce draws samples[1].
    let up = vec![Vec3::zero(), Vec3::new(0, 1, 0)];
    assert_eq!(ray_color(&forward(), &w, &Palette, 2, &sky(), &up), glow);
    let ahead = vec![Vec3::zero(), Vec3::new(0, 0, 1)];
    assert_eq!(ray_color(&forward(), &w, &Palette, 2, &sky(), &ahead), glow);
    let away = vec![Vec3::zero(), Vec3::new(1, 0, 0)];
    assert_eq!(ray_color(&forward(), &w, &Palette, 2, &sky(), &away), sky());
}
