use crate::aabb::{merge_spec, Aabb};
use crate::hit::{HitRecord, Hittable};
use crate::intersect::{ball_query_sized, ball_record, hit_ball, hit_plane, plane_query_sized, plane_record};
use crate::ray::Ray;
use crate::vec3::{fits, Point3, Vec3};
use vstd::prelude::*;

verus! {

/// Integer division rounded toward zero, as `/` on machine integers does.
pub open spec fn trunc_div(a: int, b: int) -> int {
    if a >= 0 { a / b } else { -((-a) / b) }
}

/// The box of a ball of radius `r` around `c`: `c - (r,r,r)` to `c + (r,r,r)`.
pub open spec fn ball_box(c: Point3, r: i64) -> Aabb {
    Aabb {
        min: Vec3 { x: (c.x - r) as i64, y: (c.y - r) as i64, z: (c.z - r) as i64 },
        max: Vec3 { x: (c.x + r) as i64, y: (c.y + r) as i64, z: (c.z + r) as i64 },
    }
}

/// Whether the box of a ball of radius `r` around `c` has representable corners.
pub open spec fn ball_fits(c: Point3, r: i64) -> bool {
    &&& fits(c.x - r) && fits(c.y - r) && fits(c.z - r)
    &&& fits(c.x + r) && fits(c.y + r) && fits(c.z + r)
}

fn ball_bounds(c: &Point3, r: i64) -> (b: Aabb)
    requires
        ball_fits(*c, r),
    ensures
        b == ball_box(*c, r),
{
    let s = Vec3::splat(r);
    Aabb::new(c.sub(&s), c.add(&s))
}

/// A sphere that does not move. `material` is a handle into the scene's materials.
#[derive(Clone, Copy, Debug, PartialEq, Eq, Structural)]
pub struct Sphere {
    pub center: Point3,
    pub radius: i64,
    pub material: usize,
}

impl Sphere {
    pub fn new(center: Point3, radius: i64, material: usize) -> (r: Sphere)
        ensures
            r.center == center && r.radius == radius && r.material == material,
    {
        Sphere { center, radius, material }
    }
}

impl Hittable for Sphere {
    open spec fn hit_sized(&self, ray: Ray) -> bool {
        ball_query_sized(ray, self.center, self.radius)
    }

    open spec fn hit_spec(&self, ray: Ray, t_min: i64, t_max: i64) -> Option<HitRecord> {
        ball_record(ray, self.center, self.radius, t_min, t_max, self.material)
    }

    open spec fn box_fits(&self, t0: i64, t1: i64) -> bool {
        ball_fits(self.center, self.radius)
    }

    /// The box around the sphere; the same at every time.
    open spec fn box_spec(&self, t0: i64, t1: i64) -> Option<Aabb> {
        Some(ball_box(self.center, self.radius))
    }

    fn hit(&self, ray: &Ray, t_min: i64, t_max: i64) -> (r: Option<HitRecord>) {
        hit_ball(ray, &self.center, self.radius, t_min, t_max, self.material)
    }

    fn bounding_box(&self, start_time: i64, end_time: i64) -> (r: Option<Aabb>) {
        Some(ball_bounds(&self.center, self.radius))
    }
}

/// One coordinate of a center moving linearly from `c0` at time `t0` to
/// `c1` at time `t1`, at time `t`, rounded toward `c0` on the grid.
pub open spec fn lerp_coord(c0: int, c1: int, t0: int, t1: int, t: int) -> int {
    c0 + trunc_div((t - t0) * (c1 - c0), t1 - t0)
}

/// Whether the interpolation of one coordinate stays within machine integers.
pub open spec fn lerp_fits(c0: int, c1: int, t0: int, t1: int, t: int) -> bool {
    &&& i128::MIN <= (t - t0) * (c1 - c0) <= i128::MAX
    &&& fits(lerp_coord(c0, c1, t0, t1, t))
}

/// For a time within `[t0, t1]`, the interpolated coordinate lies between
/// `c0` and `c1`, and its product fits an `i128`.
pub proof fn lemma_lerp_between(c0: int, c1: int, t0: int, t1: int, t: int)
    requires
        t0 < t1,
        t0 <= t <= t1,
        -0x1_0000_0000 <= c0 <= 0x1_0000_0000,
        -0x1_0000_0000 <= c1 <= 0x1_0000_0000,
        fits(t0),
        fits(t1),
    ensures
        c0 <= c1 ==> c0 <= lerp_coord(c0, c1, t0, t1, t) <= c1,
        c1 < c0 ==> c1 <= lerp_coord(c0, c1, t0, t1, t) <= c0,
        lerp_fits(c0, c1, t0, t1, t),
{
    let k = t - t0;
    let span = t1 - t0;
    let e = c1 - c0;
    assert(0 <= k <= span);
    if e >= 0 {
        assert(0 <= k * e <= span * e) by (nonlinear_arith) requires 0 <= k <= span, e >= 0;
        vstd::arithmetic::div_mod::lemma_div_pos_is_pos(k * e, span);
        vstd::arithmetic::div_mod::lemma_div_is_ordered(k * e, span * e, span);
        vstd::arithmetic::div_mod::lemma_div_multiples_vanish_fancy(e, 0, span);
        assert(span * e + 0 == span * e);
    } else {
        let m = -e;
        assert(k * e == -(k * m)) by (nonlinear_arith) requires m == -e;
        assert(0 <= k * m <= span * m) by (nonlinear_arith) requires 0 <= k <= span, m > 0;
        vstd::arithmetic::div_mod::lemma_div_pos_is_pos(k * m, span);
        vstd::arithmetic::div_mod::lemma_div_is_ordered(k * m, span * m, span);
        vstd::arithmetic::div_mod::lemma_div_multiples_vanish_fancy(m, 0, span);
        assert(span * m + 0 == span * m);
    }
    assert(-0x1_0000_0000_0000_0000 <= k <= 0x1_0000_0000_0000_0000);
    assert(-0x2_0000_0000 <= e <= 0x2_0000_0000);
    assert(-0x2_0000_0000_0000_0000_0000_0000 <= k * e <= 0x2_0000_0000_0000_0000_0000_0000) by (nonlinear_arith)
        requires
            -0x1_0000_0000_0000_0000 <= k <= 0x1_0000_0000_0000_0000,
            -0x2_0000_0000 <= e <= 0x2_0000_0000,
    ;
}

fn lerp(c0: i64, c1: i64, t0: i64, t1: i64, t: i64) -> (r: i64)
    requires
        t0 < t1,
        lerp_fits(c0 as int, c1 as int, t0 as int, t1 as int, t as int),
    ensures
        r == lerp_coord(c0 as int, c1 as int, t0 as int, t1 as int, t as int),
{
    let dt: i128 = t as i128 - t0 as i128;
    let dc: i128 = c1 as i128 - c0 as i128;
    let span: i128 = t1 as i128 - t0 as i128;
    let step: i128 = (dt * dc) / span;
    (c0 as i128 + step) as i64
}

/// A sphere whose center moves linearly from `start_center` at `start_time`
/// to `end_center` at `end_time`.
#[derive(Clone, Copy, Debug, PartialEq, Eq, Structural)]
pub struct MovingSphere {
    pub start_center: Point3,
    pub end_center: Point3,
    pub start_time: i64,
    pub end_time: i64,
    pub radius: i64,
    pub material: usize,
}

impl MovingSphere {
    pub open spec fn center_at(self, t: int) -> Point3 {
        Vec3 {
            x: lerp_coord(self.start_center.x as int, self.end_center.x as int, self.start_time as int, self.end_time as int, t) as i64,
            y: lerp_coord(self.start_center.y as int, self.end_center.y as int, self.start_time as int, self.end_time as int, t) as i64,
            z: lerp_coord(self.start_center.z as int, self.end_center.z as int, self.start_time as int, self.end_time as int, t) as i64,
        }
    }

    /// Whether the center at time `t` is representable.
    pub open spec fn center_fits(self, t: int) -> bool {
        &&& self.start_time < self.end_time
        &&& lerp_fits(self.start_center.x as int, self.end_center.x as int, self.start_time as int, self.end_time as int, t)
        &&& lerp_fits(self.start_center.y as int, self.end_center.y as int, self.start_time as int, self.end_time as int, t)
        &&& lerp_fits(self.start_center.z as int, self.end_center.z as int, self.start_time as int, self.end_time as int, t)
    }

    pub fn new(
        start_center: Point3,
        end_center: Point3,
        start_time: i64,
        end_time: i64,
        radius: i64,
        material: usize,
    ) -> (r: MovingSphere)
        ensures
            r.start_center == start_center && r.end_center == end_center,
            r.start_time == start_time && r.end_time == end_time,
            r.radius == radius && r.material == material,
    {
        MovingSphere { start_center, end_center, start_time, end_time, radius, material }
    }

    /// The center at time `time`.
    pub fn moving_center(&self, time: i64) -> (r: Point3)
        requires
            self.center_fits(time as int),
        ensures
            r == self.center_at(time as int),
    {
        Vec3 {
            x: lerp(self.start_center.x, self.end_center.x, self.start_time, self.end_time, time),
            y: lerp(self.start_center.y, self.end_center.y, self.start_time, self.end_time, time),
            z: lerp(self.start_center.z, self.end_center.z, self.start_time, self.end_time, time),
        }
    }

    /// Whether a ray at time `time` can meet the sphere: outside its time
    /// window the sphere is never hit.
    pub fn covers_time(&self, time: i64) -> (r: bool)
        ensures
            r == (self.start_time <= time <= self.end_time),
    {
        !(time < self.start_time || time > self.end_time)
    }
}

impl Hittable for MovingSphere {
    /// Intersecting stays within the exact arithmetic when the ray is cast
    /// outside the time window, or against the center at the ray's time.
    open spec fn hit_sized(&self, ray: Ray) -> bool {
        self.start_time <= ray.time <= self.end_time ==> {
            &&& self.center_fits(ray.time as int)
            &&& ball_query_sized(ray, self.center_at(ray.time as int), self.radius)
        }
    }

    /// Nothing outside the time window, else the intersection with the ball
    /// at its center at the ray's time.
    open spec fn hit_spec(&self, ray: Ray, t_min: i64, t_max: i64) -> Option<HitRecord> {
        if self.start_time <= ray.time <= self.end_time {
            ball_record(ray, self.center_at(ray.time as int), self.radius, t_min, t_max, self.material)
        } else {
            None
        }
    }

    open spec fn box_fits(&self, t0: i64, t1: i64) -> bool {
        &&& self.center_fits(t0 as int)
        &&& self.center_fits(t1 as int)
        &&& ball_fits(self.center_at(t0 as int), self.radius)
        &&& ball_fits(self.center_at(t1 as int), self.radius)
    }

    /// The merge of the boxes around the sphere at the two ends of the interval.
    open spec fn box_spec(&self, t0: i64, t1: i64) -> Option<Aabb> {
        Some(merge_spec(ball_box(self.center_at(t0 as int), self.radius), ball_box(self.center_at(t1 as int), self.radius)))
    }

    fn hit(&self, ray: &Ray, t_min: i64, t_max: i64) -> (r: Option<HitRecord>) {
        if !self.covers_time(ray.time) {
            return None;
        }
        let center = self.moving_center(ray.time);
        hit_ball(ray, &center, self.radius, t_min, t_max, self.material)
    }

    fn bounding_box(&self, start_time: i64, end_time: i64) -> (r: Option<Aabb>) {
        let c0 = self.moving_center(start_time);
        let c1 = self.moving_center(end_time);
        let start_ball = ball_bounds(&c0, self.radius);
        let end_ball = ball_bounds(&c1, self.radius);
        Some(start_ball.merge(&end_ball))
    }
}

/// Padding added on both sides of the flat axis of a plane's box.
pub const THICKNESS: i64 = 1;

/// A rectangle `[x0, x1] x [y0, y1]` at depth `k` along z.
#[derive(Clone, Copy, Debug, PartialEq, Eq, Structural)]
pub struct XyPlane {
    pub x0: i64,
    pub x1: i64,
    pub y0: i64,
    pub y1: i64,
    pub k: i64,
    pub material: usize,
}

impl XyPlane {
    pub fn new(x0: i64, y0: i64, x1: i64, y1: i64, k: i64, material: usize) -> (r: XyPlane)
        ensures
            r.x0 == x0 && r.y0 == y0 && r.x1 == x1 && r.y1 == y1,
            r.k == k && r.material == material,
    {
        XyPlane { x0, x1, y0, y1, k, material }
    }

    /// Whether the point `(x, y)` of the plane lies on the rectangle, edges included.
    pub fn contains_xy(&self, x: i64, y: i64) -> (r: bool)
        ensures
            r == (self.x0 <= x <= self.x1 && self.y0 <= y <= self.y1),
    {
        !(x < self.x0 || x > self.x1 || y < self.y0 || y > self.y1)
    }
}

impl Hittable for XyPlane {
    open spec fn hit_sized(&self, ray: Ray) -> bool {
        plane_query_sized(*self, ray)
    }

    /// The normal is `+z` oriented against the ray, so `front_face` tells
    /// which side was hit.
    open spec fn hit_spec(&self, ray: Ray, t_min: i64, t_max: i64) -> Option<HitRecord> {
        plane_record(*self, ray, t_min, t_max)
    }

    open spec fn box_fits(&self, t0: i64, t1: i64) -> bool {
        fits(self.k - THICKNESS) && fits(self.k + THICKNESS)
    }

    /// The rectangle's box, padded by `THICKNESS` along z so that it is never flat.
    open spec fn box_spec(&self, t0: i64, t1: i64) -> Option<Aabb> {
        Some(
            Aabb {
                min: Vec3 { x: self.x0, y: self.y0, z: (self.k - THICKNESS) as i64 },
                max: Vec3 { x: self.x1, y: self.y1, z: (self.k + THICKNESS) as i64 },
            },
        )
    }

    fn hit(&self, ray: &Ray, t_min: i64, t_max: i64) -> (r: Option<HitRecord>) {
        hit_plane(self, ray, t_min, t_max)
    }

    fn bounding_box(&self, start_time: i64, end_time: i64) -> (r: Option<Aabb>) {
        Some(Aabb::new(
            Vec3::new(self.x0, self.y0, self.k - THICKNESS),
            Vec3::new(self.x1, self.y1, self.k + THICKNESS),
        ))
    }
}

/// A moving sphere's box does not depend on the order of the interval's
/// ends.
pub proof fn lemma_moving_box_symmetric(m: MovingSphere, t0: i64, t1: i64)
    ensures
        m.box_spec(t0, t1) == m.box_spec(t1, t0),
{
    crate::aabb::lemma_merge_commutative(
        ball_box(m.center_at(t0 as int), m.radius),
        ball_box(m.center_at(t1 as int), m.radius),
    );
}

/// A moving sphere's box reaches from the smaller coordinate of the two
/// end centers minus the radius to the larger plus the radius, on each axis.
pub proof fn lemma_moving_box_faces(m: MovingSphere, t0: i64, t1: i64)
    requires
        m.box_fits(t0, t1),
    ensures
        ({
            let c0 = m.center_at(t0 as int);
            let c1 = m.center_at(t1 as int);
            let b = m.box_spec(t0, t1)->Some_0;
            &&& b.min.x == crate::aabb::min_int(c0.x as int, c1.x as int) - m.radius
            &&& b.min.y == crate::aabb::min_int(c0.y as int, c1.y as int) - m.radius
            &&& b.min.z == crate::aabb::min_int(c0.z as int, c1.z as int) - m.radius
            &&& b.max.x == crate::aabb::max_int(c0.x as int, c1.x as int) + m.radius
            &&& b.max.y == crate::aabb::max_int(c0.y as int, c1.y as int) + m.radius
            &&& b.max.z == crate::aabb::max_int(c0.z as int, c1.z as int) + m.radius
        }),
{
}

} // verus!
