use crate::hit::{is_front_face, oriented_normal, HitRecord};
use crate::ray::Ray;
use crate::shapes::XyPlane;
use crate::roots::{ceil_sqrt, floor_div, ge_sqrt, isqrt, le_sqrt, lemma_le_sqrt};
use crate::vec3::{Point3, Vec3};
use vstd::prelude::*;

verus! {

/// Largest magnitude of a coordinate or radius in an intersection test.
/// With coordinates up to `2^16` the discriminant stays below `2^71` and a
/// root below `2^37`, so the hit point `origin + t * direction` stays below
/// `2^54` and fits an `i64`; the hit point is what bounds the grid, since
/// the discriminant alone would allow more.
pub const GRID_LIMIT: i64 = 0x1_0000;

/// Every coordinate of `v` lies within `GRID_LIMIT` of zero.
pub open spec fn grid_sized(v: Vec3) -> bool {
    &&& -GRID_LIMIT <= v.x <= GRID_LIMIT
    &&& -GRID_LIMIT <= v.y <= GRID_LIMIT
    &&& -GRID_LIMIT <= v.z <= GRID_LIMIT
}

fn coord_in_grid(v: i64) -> (r: bool)
    ensures
        r == (-GRID_LIMIT <= v <= GRID_LIMIT),
{
    -GRID_LIMIT <= v && v <= GRID_LIMIT
}

/// Whether every coordinate of `v` lies within `GRID_LIMIT` of zero.
pub fn in_grid(v: &Vec3) -> (r: bool)
    ensures
        r == grid_sized(*v),
{
    coord_in_grid(v.x) && coord_in_grid(v.y) && coord_in_grid(v.z)
}

/// Whether the ray's origin and direction lie on the grid.
pub open spec fn ray_sized(ray: Ray) -> bool {
    grid_sized(ray.origin) && grid_sized(ray.direction)
}

pub fn ray_in_grid(ray: &Ray) -> (r: bool)
    ensures
        r == ray_sized(*ray),
{
    in_grid(&ray.origin) && in_grid(&ray.direction)
}

/// Whether `v` lies within `GRID_LIMIT` of zero.
pub fn scalar_in_grid(v: i64) -> (r: bool)
    ensures
        r == (-GRID_LIMIT <= v <= GRID_LIMIT),
{
    coord_in_grid(v)
}

/// The inputs of a ball intersection that the exact arithmetic can hold.
pub open spec fn ball_query_sized(ray: Ray, center: Point3, radius: i64) -> bool {
    grid_sized(ray.origin) && grid_sized(ray.direction) && grid_sized(center) && 0 <= radius <= GRID_LIMIT
}

/// The vector from `center` to the ray's origin.
pub open spec fn offset(ray: Ray, center: Point3) -> Vec3 {
    Vec3 {
        x: (ray.origin.x - center.x) as i64,
        y: (ray.origin.y - center.y) as i64,
        z: (ray.origin.z - center.z) as i64,
    }
}

/// The ray meets the ball at the roots of `a*t*t + 2*h*t + c`; these are
/// `a`, `h` and `c`.
pub open spec fn quad_a(ray: Ray) -> int {
    ray.direction.dot_spec(ray.direction)
}

pub open spec fn quad_h(ray: Ray, center: Point3) -> int {
    ray.direction.dot_spec(offset(ray, center))
}

pub open spec fn quad_c(ray: Ray, center: Point3, radius: i64) -> int {
    offset(ray, center).dot_spec(offset(ray, center)) - radius * radius
}

/// The discriminant `h*h - a*c`; the roots are `(-h - sqrt(d)) / a` and `(-h + sqrt(d)) / a`.
pub open spec fn disc(a: int, h: int, c: int) -> int {
    h * h - a * c
}

/// The nearer root is at least `t`.
pub open spec fn near_ge(a: int, h: int, d: int, t: int) -> bool {
    ge_sqrt(-(a * t + h), d)
}

/// The nearer root is at most `t`.
pub open spec fn near_le(a: int, h: int, d: int, t: int) -> bool {
    le_sqrt(-(a * t + h), d)
}

/// The farther root is at least `t`.
pub open spec fn far_ge(a: int, h: int, d: int, t: int) -> bool {
    le_sqrt(a * t + h, d)
}

/// The farther root is at most `t`.
pub open spec fn far_le(a: int, h: int, d: int, t: int) -> bool {
    ge_sqrt(a * t + h, d)
}

/// Whether a ray with the quadratic `a, h, c` meets the ball at a parameter
/// in `[t_min, t_max]`.
pub open spec fn ball_hit(a: int, h: int, c: int, t_min: int, t_max: int) -> bool {
    let d = disc(a, h, c);
    &&& a != 0
    &&& d >= 0
    &&& (near_ge(a, h, d, t_min) && near_le(a, h, d, t_max)) || (far_ge(a, h, d, t_min) && far_le(a, h, d, t_max))
}

/// Whether the nearer root is the one kept.
pub open spec fn near_kept(a: int, h: int, c: int, t_min: int, t_max: int) -> bool {
    let d = disc(a, h, c);
    near_ge(a, h, d, t_min) && near_le(a, h, d, t_max)
}

/// `t` is the nearer root rounded down.
pub open spec fn is_near_floor(a: int, h: int, d: int, t: int) -> bool {
    near_ge(a, h, d, t) && !near_ge(a, h, d, t + 1)
}

/// `t` is the farther root rounded down.
pub open spec fn is_far_floor(a: int, h: int, d: int, t: int) -> bool {
    far_ge(a, h, d, t) && !far_ge(a, h, d, t + 1)
}

/// The nearer root rounded down.
pub open spec fn near_floor(a: int, h: int, d: int) -> int {
    choose|t: int| is_near_floor(a, h, d, t)
}

/// The farther root rounded down.
pub open spec fn far_floor(a: int, h: int, d: int) -> int {
    choose|t: int| is_far_floor(a, h, d, t)
}

/// The parameter of the kept root, rounded down.
pub open spec fn kept_t(a: int, h: int, c: int, t_min: int, t_max: int) -> int {
    if near_kept(a, h, c, t_min, t_max) {
        near_floor(a, h, disc(a, h, c))
    } else {
        far_floor(a, h, disc(a, h, c))
    }
}

/// The grid point of the ray at parameter `t`.
pub open spec fn point_at(ray: Ray, t: int) -> Point3 {
    Vec3 {
        x: ray.at_spec(t).0 as i64,
        y: ray.at_spec(t).1 as i64,
        z: ray.at_spec(t).2 as i64,
    }
}

/// The record of a ray meeting a surface at parameter `t`, with the outward
/// normal `outward`.
pub open spec fn record_at(ray: Ray, t: int, outward: Vec3, normal_scale: i64, material: usize) -> HitRecord {
    HitRecord {
        normal_scale,
        t: t as i64,
        hit_point: point_at(ray, t),
        normal: oriented_normal(ray.direction, outward),
        front_face: is_front_face(ray.direction, outward),
        material,
    }
}

/// What intersecting the ball of `radius` around `center` gives.
pub open spec fn ball_record(ray: Ray, center: Point3, radius: i64, t_min: i64, t_max: i64, material: usize) -> Option<HitRecord> {
    let a = quad_a(ray);
    let h = quad_h(ray, center);
    let c = quad_c(ray, center, radius);
    if ball_hit(a, h, c, t_min as int, t_max as int) {
        let t = kept_t(a, h, c, t_min as int, t_max as int);
        Some(record_at(ray, t, offset_to(center, point_at(ray, t)), radius, material))
    } else {
        None
    }
}

/// Whether the nearer root is at least `t` holds of every smaller `t` too.
proof fn lemma_near_ge_monotone(a: int, h: int, d: int, t1: int, t2: int)
    requires
        a > 0,
        t1 <= t2,
        near_ge(a, h, d, t2),
    ensures
        near_ge(a, h, d, t1),
{
    let y1 = -(a * t1 + h);
    let y2 = -(a * t2 + h);
    assert(y1 >= y2) by (nonlinear_arith) requires a > 0, t1 <= t2, y1 == -(a * t1 + h), y2 == -(a * t2 + h);
    assert(y1 * y1 >= y2 * y2) by (nonlinear_arith) requires y1 >= y2, y2 >= 0;
}

/// Whether the farther root is at least `t` holds of every smaller `t` too.
proof fn lemma_far_ge_monotone(a: int, h: int, d: int, t1: int, t2: int)
    requires
        a > 0,
        t1 <= t2,
        far_ge(a, h, d, t2),
    ensures
        far_ge(a, h, d, t1),
{
    let z1 = a * t1 + h;
    let z2 = a * t2 + h;
    assert(z1 <= z2) by (nonlinear_arith) requires a > 0, t1 <= t2, z1 == a * t1 + h, z2 == a * t2 + h;
    if z1 > 0 {
        assert(z1 * z1 <= z2 * z2) by (nonlinear_arith) requires 0 < z1 <= z2;
    }
}

/// A root has one rounded-down value.
proof fn lemma_floor_unique(a: int, h: int, d: int, t: int)
    requires
        a > 0,
    ensures
        is_near_floor(a, h, d, t) ==> near_floor(a, h, d) == t,
        is_far_floor(a, h, d, t) ==> far_floor(a, h, d) == t,
{
    if is_near_floor(a, h, d, t) {
        let u = near_floor(a, h, d);
        assert(is_near_floor(a, h, d, u));
        if u < t {
            lemma_near_ge_monotone(a, h, d, u + 1, t);
        } else if t < u {
            lemma_near_ge_monotone(a, h, d, t + 1, u);
        }
    }
    if is_far_floor(a, h, d, t) {
        let u = far_floor(a, h, d);
        assert(is_far_floor(a, h, d, u));
        if u < t {
            lemma_far_ge_monotone(a, h, d, u + 1, t);
        } else if t < u {
            lemma_far_ge_monotone(a, h, d, t + 1, u);
        }
    }
}

/// `|x * y| <= bx * by` when `|x| <= bx` and `|y| <= by`.
proof fn lemma_mul_bound(x: int, y: int, bx: int, by: int)
    requires
        -bx <= x <= bx,
        -by <= y <= by,
    ensures
        -(bx * by) <= x * y <= bx * by,
{
    assert(-(bx * by) <= x * y <= bx * by) by (nonlinear_arith)
        requires -bx <= x <= bx, -by <= y <= by;
}

proof fn lemma_square_nonneg(x: int)
    ensures
        x * x >= 0,
{
    assert(x * x >= 0) by (nonlinear_arith);
}

/// `q == n / a` is the largest integer with `a * q <= n`.
proof fn lemma_floor_div(n: int, a: int, q: int)
    requires
        a > 0,
        q == n / a,
    ensures
        a * q <= n < a * (q + 1),
        n >= 0 ==> 0 <= q <= n,
        n < 0 ==> n - 1 <= q < 0,
{
    vstd::arithmetic::div_mod::lemma_fundamental_div_mod(n, a);
    vstd::arithmetic::div_mod::lemma_mod_bound(n, a);
    let r = n % a;
    assert(a * (q + 1) == a * q + a) by (nonlinear_arith);
    if q > 0 {
        assert(a * q >= q) by (nonlinear_arith) requires a > 0, q > 0;
    }
    if q < -1 {
        assert(a * (q + 1) <= q + 1) by (nonlinear_arith) requires a > 0, q + 1 < 0;
    }
}

/// `a * x <= a * y` with `a > 0` gives `x <= y`.
proof fn lemma_cancel_le(a: int, x: int, y: int)
    requires
        a > 0,
        a * x <= a * y,
    ensures
        x <= y,
{
    if x > y {
        assert(a * x > a * y) by (nonlinear_arith) requires a > 0, x > y;
    }
}

/// `a * x < a * y` with `a > 0` gives `x < y`.
proof fn lemma_cancel_lt(a: int, x: int, y: int)
    requires
        a > 0,
        a * x < a * y,
    ensures
        x < y,
{
    if x >= y {
        assert(a * x >= a * y) by (nonlinear_arith) requires a > 0, x >= y;
    }
}

/// Intersects a ray with the ball of `radius` around `center`. A hit is kept
/// when a root lies in `[t_min, t_max]`, the nearer root first; its record
/// holds that root rounded down, the grid point of the ray there, and the
/// direction from the center to that point as outward normal, with the radius
/// as its scale (the unit normal is `normal / radius`).
pub fn hit_ball(ray: &Ray, center: &Point3, radius: i64, t_min: i64, t_max: i64, material: usize) -> (r: Option<HitRecord>)
    requires
        ball_query_sized(*ray, *center, radius),
    ensures
        ({
            let a = quad_a(*ray);
            let h = quad_h(*ray, *center);
            let c = quad_c(*ray, *center, radius);
            let d = disc(a, h, c);
            &&& r is Some <==> ball_hit(a, h, c, t_min as int, t_max as int)
            &&& r matches Some(rec) ==> {
                &&& t_min <= rec.t <= t_max
                &&& near_kept(a, h, c, t_min as int, t_max as int) ==> is_near_floor(a, h, d, rec.t as int)
                &&& !near_kept(a, h, c, t_min as int, t_max as int) ==> is_far_floor(a, h, d, rec.t as int)
                &&& (rec.hit_point.x as int, rec.hit_point.y as int, rec.hit_point.z as int) == ray.at_spec(rec.t as int)
                &&& rec.front_face == is_front_face(ray.direction, offset_to(*center, rec.hit_point))
                &&& rec.normal == oriented_normal(ray.direction, offset_to(*center, rec.hit_point))
                &&& rec.material == material
            }
            &&& r == ball_record(*ray, *center, radius, t_min, t_max, material)
        }),
{
    let oc = ray.origin.sub(center);
    let dir = ray.direction;
    proof {
        let l = GRID_LIMIT as int;
        lemma_mul_bound(dir.x as int, dir.x as int, l, l);
        lemma_mul_bound(dir.y as int, dir.y as int, l, l);
        lemma_mul_bound(dir.z as int, dir.z as int, l, l);
        lemma_mul_bound(dir.x as int, oc.x as int, l, 2 * l);
        lemma_mul_bound(dir.y as int, oc.y as int, l, 2 * l);
        lemma_mul_bound(dir.z as int, oc.z as int, l, 2 * l);
        lemma_mul_bound(oc.x as int, oc.x as int, 2 * l, 2 * l);
        lemma_mul_bound(oc.y as int, oc.y as int, 2 * l, 2 * l);
        lemma_mul_bound(oc.z as int, oc.z as int, 2 * l, 2 * l);
        lemma_mul_bound(radius as int, radius as int, l, l);
        lemma_square_nonneg(dir.x as int);
        lemma_square_nonneg(dir.y as int);
        lemma_square_nonneg(dir.z as int);
        lemma_square_nonneg(oc.x as int);
        lemma_square_nonneg(oc.y as int);
        lemma_square_nonneg(oc.z as int);
    }
    let a: i128 = dir.dot(&dir);
    let h: i128 = dir.dot(&oc);
    let c: i128 = oc.dot(&oc) - (radius as i128) * (radius as i128);
    proof {
        let l = GRID_LIMIT as int;
        assert(0 <= a <= 3 * l * l);
        assert(-3 * 2 * l * l <= h <= 3 * 2 * l * l);
        assert(-l * l <= c <= 3 * 4 * l * l);
        lemma_mul_bound(h as int, h as int, 0x6_0000_0000, 0x6_0000_0000);
        lemma_mul_bound(a as int, c as int, 0x3_0000_0000, 0xC_0000_0000);
        assert(0x6_0000_0000 * 0x6_0000_0000 == 0x24_0000_0000_0000_0000int);
        assert(0x3_0000_0000 * 0xC_0000_0000 == 0x24_0000_0000_0000_0000int);
    }
    let d: i128 = h * h - a * c;
    if a == 0 || d < 0 {
        return None;
    }
    let s = isqrt(d);
    let cs = ceil_sqrt(d);
    proof {
        assert(d <= 0x48_0000_0000_0000_0000int);
        assert(cs <= 0x10_0000_0000) by (nonlinear_arith)
            requires cs >= 0, cs == 0 || (cs - 1) * (cs - 1) < d, d <= 0x48_0000_0000_0000_0000int;
        assert(s <= cs) by (nonlinear_arith)
            requires 0 <= s, 0 <= cs, s * s <= d, cs * cs >= d, cs == 0 || (cs - 1) * (cs - 1) < d, d < (s + 1) * (s + 1);
        let l = GRID_LIMIT as int;
        lemma_mul_bound(a as int, t_min as int, 3 * l * l, 0x8000_0000_0000_0000);
        lemma_mul_bound(a as int, t_max as int, 3 * l * l, 0x8000_0000_0000_0000);
    }
    let lo: i128 = a * (t_min as i128) + h;
    let hi: i128 = a * (t_max as i128) + h;
    proof {
        lemma_le_sqrt(-(lo as int), d as int, s as int);
        lemma_le_sqrt(-(hi as int), d as int, s as int);
        lemma_le_sqrt(lo as int, d as int, s as int);
        lemma_le_sqrt(hi as int, d as int, s as int);
    }
    // With integer sides, `y >= sqrt(d)` is `y >= cs` and `y <= sqrt(d)` is `y <= s`.
    // The nearer root `(-h - sqrt(d)) / a` is in range when
    // `a * t_min + h <= -sqrt(d) <= a * t_max + h`; the farther one when
    // `a * t_min + h <= sqrt(d) <= a * t_max + h`.
    let near_in = -lo >= cs && -hi <= s;
    let far_in = lo <= s && hi >= cs;
    if !near_in && !far_in {
        return None;
    }
    let n: i128 = if near_in { -h - cs } else { -h + s };
    let t: i128 = floor_div(n, a);
    proof {
        lemma_floor_div(n as int, a as int, t as int);
        let tt = t as int;
        let ai = a as int;
        lemma_le_sqrt(ai * tt + h, d as int, s as int);
        lemma_le_sqrt(ai * (tt + 1) + h, d as int, s as int);
        lemma_cancel_lt(ai, t_min as int, tt + 1);
        lemma_cancel_le(ai, tt, t_max as int);
        let l = GRID_LIMIT as int;
        lemma_mul_bound(tt, dir.x as int, 0x100_0000_0000, l);
        lemma_mul_bound(tt, dir.y as int, 0x100_0000_0000, l);
        lemma_mul_bound(tt, dir.z as int, 0x100_0000_0000, l);
        lemma_floor_unique(a as int, h as int, d as int, t as int);
    }
    let t: i64 = t as i64;
    let p = ray.at(t);
    let outward = p.sub(center);
    Some(HitRecord::new(t, p, &dir, &outward, radius, material))
}

/// The inputs of a plane intersection that the exact arithmetic can hold.
pub open spec fn plane_query_sized(p: XyPlane, ray: Ray) -> bool {
    &&& grid_sized(ray.origin) && grid_sized(ray.direction)
    &&& -GRID_LIMIT <= p.x0 <= GRID_LIMIT && -GRID_LIMIT <= p.x1 <= GRID_LIMIT
    &&& -GRID_LIMIT <= p.y0 <= GRID_LIMIT && -GRID_LIMIT <= p.y1 <= GRID_LIMIT
    &&& -GRID_LIMIT <= p.k <= GRID_LIMIT
}

/// The outward normal of a plane: toward increasing z.
pub open spec fn plane_outward() -> Vec3 {
    Vec3 { x: 0, y: 0, z: 1 }
}

/// The ray meets the plane at `t = n / d` with `d > 0`; these are `n` and `d`.
pub open spec fn plane_num(p: XyPlane, ray: Ray) -> int {
    if ray.direction.z < 0 { ray.origin.z - p.k } else { p.k - ray.origin.z }
}

pub open spec fn plane_den(ray: Ray) -> int {
    if ray.direction.z < 0 { -ray.direction.z } else { ray.direction.z as int }
}

/// Whether a ray meets the rectangle at a parameter in `[t_min, t_max]`.
/// A ray parallel to the plane never does.
pub open spec fn plane_hit(p: XyPlane, ray: Ray, t_min: int, t_max: int) -> bool {
    let n = plane_num(p, ray);
    let d = plane_den(ray);
    &&& ray.direction.z != 0
    &&& t_min * d <= n <= t_max * d
    &&& p.x0 * d <= ray.origin.x * d + n * ray.direction.x <= p.x1 * d
    &&& p.y0 * d <= ray.origin.y * d + n * ray.direction.y <= p.y1 * d
}

/// What intersecting the rectangle gives: the parameter rounded down, and
/// the normal oriented against the ray.
pub open spec fn plane_record(p: XyPlane, ray: Ray, t_min: i64, t_max: i64) -> Option<HitRecord> {
    if plane_hit(p, ray, t_min as int, t_max as int) {
        Some(record_at(ray, plane_num(p, ray) / plane_den(ray), plane_outward(), 1, p.material))
    } else {
        None
    }
}

/// Intersects a ray with a rectangle of the plane `z = k`.
pub fn hit_plane(p: &XyPlane, ray: &Ray, t_min: i64, t_max: i64) -> (r: Option<HitRecord>)
    requires
        plane_query_sized(*p, *ray),
    ensures
        r == plane_record(*p, *ray, t_min, t_max),
        r matches Some(rec) ==> t_min <= rec.t <= t_max,
{
    let dz = ray.direction.z;
    if dz == 0 {
        return None;
    }
    let (n, d): (i128, i128) = if dz < 0 {
        (ray.origin.z as i128 - p.k as i128, -(dz as i128))
    } else {
        (p.k as i128 - ray.origin.z as i128, dz as i128)
    };
    proof {
        let l = GRID_LIMIT as int;
        lemma_mul_bound(t_min as int, d as int, 0x8000_0000_0000_0000, l);
        lemma_mul_bound(t_max as int, d as int, 0x8000_0000_0000_0000, l);
        lemma_mul_bound(p.x0 as int, d as int, l, l);
        lemma_mul_bound(p.x1 as int, d as int, l, l);
        lemma_mul_bound(p.y0 as int, d as int, l, l);
        lemma_mul_bound(p.y1 as int, d as int, l, l);
        lemma_mul_bound(ray.origin.x as int, d as int, l, l);
        lemma_mul_bound(ray.origin.y as int, d as int, l, l);
        lemma_mul_bound(n as int, ray.direction.x as int, 2 * l, l);
        lemma_mul_bound(n as int, ray.direction.y as int, 2 * l, l);
    }
    if n < (t_min as i128) * d || n > (t_max as i128) * d {
        return None;
    }
    let x: i128 = (ray.origin.x as i128) * d + n * (ray.direction.x as i128);
    let y: i128 = (ray.origin.y as i128) * d + n * (ray.direction.y as i128);
    if x < (p.x0 as i128) * d || x > (p.x1 as i128) * d || y < (p.y0 as i128) * d || y > (p.y1 as i128) * d {
        return None;
    }
    let t: i128 = floor_div(n, d);
    proof {
        lemma_floor_div(n as int, d as int, t as int);
        assert((t_min as int) * (d as int) == (d as int) * (t_min as int)) by (nonlinear_arith);
        assert((t_max as int) * (d as int) == (d as int) * (t_max as int)) by (nonlinear_arith);
        lemma_cancel_lt(d as int, t_min as int, t as int + 1);
        lemma_cancel_le(d as int, t as int, t_max as int);
        let l = GRID_LIMIT as int;
        lemma_mul_bound(t as int, ray.direction.x as int, 0x4_0000, l);
        lemma_mul_bound(t as int, ray.direction.y as int, 0x4_0000, l);
        lemma_mul_bound(t as int, ray.direction.z as int, 0x4_0000, l);
    }
    let t: i64 = t as i64;
    let at = ray.at(t);
    let outward = Vec3::new(0, 0, 1);
    Some(HitRecord::new(t, at, &ray.direction, &outward, 1, p.material))
}

/// The vector from `from` to `to`.
pub open spec fn offset_to(from: Point3, to: Point3) -> Vec3 {
    Vec3 { x: (to.x - from.x) as i64, y: (to.y - from.y) as i64, z: (to.z - from.z) as i64 }
}

/// A ray whose origin lies outside a ball and whose direction points away
/// from its center meets the ball at no parameter `t >= 0`.
pub proof fn lemma_receding_ray_misses(ray: Ray, center: Point3, radius: i64, t_min: i64, t_max: i64, material: usize)
    requires
        quad_c(ray, center, radius) > 0,
        quad_h(ray, center) >= 0,
        t_min >= 0,
    ensures
        ball_record(ray, center, radius, t_min, t_max, material) is None,
{
    let a = quad_a(ray);
    let h = quad_h(ray, center);
    let c = quad_c(ray, center, radius);
    let d = disc(a, h, c);
    let tm = t_min as int;
    if a > 0 && d >= 0 {
        let y = a * tm + h;
        assert(y >= h) by (nonlinear_arith) requires a > 0, tm >= 0, y == a * tm + h;
        assert(a * c > 0) by (nonlinear_arith) requires a > 0, c > 0;
        assert(d < h * h);
        if y > 0 {
            assert(y * y >= h * h) by (nonlinear_arith) requires y >= h, h >= 0;
        }
        assert((-y) * (-y) == y * y) by (nonlinear_arith);
        if y == 0 {
            assert(h == 0);
            assert(h * h == 0) by (nonlinear_arith) requires h == 0;
        }
        assert(!near_ge(a, h, d, tm));
        assert(!far_ge(a, h, d, tm));
    } else if a < 0 {
        let dir = ray.direction;
        lemma_square_nonneg(dir.x as int);
        lemma_square_nonneg(dir.y as int);
        lemma_square_nonneg(dir.z as int);
    }
}

/// A ray from `(0, 0, -2r)` along `+z` meets the ball of radius `r` around
/// the origin first at `t = r`, at the point `(0, 0, -r)`, from outside,
/// with the unit normal `(0, 0, -1)`.
pub proof fn lemma_axis_ray_hits_at_radius(r: i64, t_max: i64, material: usize)
    requires
        0 < r <= GRID_LIMIT / 2,
        t_max >= r,
    ensures
        ({
            let ray = Ray { origin: Vec3 { x: 0, y: 0, z: (-2 * r) as i64 }, direction: Vec3 { x: 0, y: 0, z: 1 }, time: 0 };
            let center = Vec3 { x: 0, y: 0, z: 0 };
            &&& ball_record(ray, center, r, 0, t_max, material) == Some(
                HitRecord {
                    t: r,
                    hit_point: Vec3 { x: 0, y: 0, z: (-r) as i64 },
                    normal: Vec3 { x: 0, y: 0, z: (-r) as i64 },
                    normal_scale: r,
                    front_face: true,
                    material,
                },
            )
            &&& ball_record(ray, center, r, 0, t_max, material)->Some_0.unit_normal_is(Vec3 { x: 0, y: 0, z: -1i64 })
        }),
{
    let ray = Ray { origin: Vec3 { x: 0, y: 0, z: (-2 * r) as i64 }, direction: Vec3 { x: 0, y: 0, z: 1 }, time: 0 };
    let center = Vec3 { x: 0, y: 0, z: 0 };
    let ri = r as int;
    let a = quad_a(ray);
    let h = quad_h(ray, center);
    let c = quad_c(ray, center, r);
    assert(a == 1);
    assert(h == -2 * ri);
    assert(c == 3 * (ri * ri)) by (nonlinear_arith)
        requires c == (-2 * ri) * (-2 * ri) - ri * ri;
    let d = disc(a, h, c);
    assert(d == ri * ri) by (nonlinear_arith)
        requires d == h * h - a * c, h == -2 * ri, a == 1, c == 3 * (ri * ri);
    assert(is_near_floor(a, h, d, ri)) by {
        assert(-(a * ri + h) == ri);
        assert(-(a * (ri + 1) + h) == ri - 1);
        assert((ri - 1) * (ri - 1) < ri * ri) by (nonlinear_arith) requires ri > 0;
    }
    assert(near_ge(a, h, d, 0)) by {
        assert(-(a * 0 + h) == 2 * ri);
        assert((2 * ri) * (2 * ri) >= ri * ri) by (nonlinear_arith) requires ri > 0;
    }
    assert(near_le(a, h, d, t_max as int)) by {
        let y = -(a * (t_max as int) + h);
        assert(y <= ri);
        if y > 0 {
            assert(y * y <= ri * ri) by (nonlinear_arith) requires 0 < y <= ri;
        }
    }
    lemma_floor_unique(a, h, d, ri);
    assert(near_kept(a, h, c, 0, t_max as int));
    assert(kept_t(a, h, c, 0, t_max as int) == ri);
    let p = point_at(ray, ri);
    assert(p == Vec3 { x: 0, y: 0, z: (-r) as i64 });
    assert(offset_to(center, p) == Vec3 { x: 0, y: 0, z: (-r) as i64 });
}

/// A sphere's record carries the radius as `normal_scale`, and when its
/// hit point lies on the sphere its normal has exactly that length, so
/// `normal / normal_scale` is a unit vector.
pub proof fn lemma_ball_normal_unit(ray: Ray, center: Point3, radius: i64, t_min: i64, t_max: i64, material: usize)
    requires
        ball_query_sized(ray, center, radius),
        ball_record(ray, center, radius, t_min, t_max, material) is Some,
        ({
            let p = ball_record(ray, center, radius, t_min, t_max, material)->Some_0.hit_point;
            offset_to(center, p).dot_spec(offset_to(center, p)) == radius * radius
        }),
    ensures
        ({
            let rec = ball_record(ray, center, radius, t_min, t_max, material)->Some_0;
            &&& rec.normal_scale == radius
            &&& rec.normal.dot_spec(rec.normal) == rec.normal_scale * rec.normal_scale
        }),
{
    let rec = ball_record(ray, center, radius, t_min, t_max, material)->Some_0;
    let o = offset_to(center, rec.hit_point);
    let n = rec.normal;
    let rr = radius as int;
    lemma_square_nonneg(o.x as int);
    lemma_square_nonneg(o.y as int);
    lemma_square_nonneg(o.z as int);
    assert(rr * rr <= 0x1_0000_0000) by (nonlinear_arith) requires 0 <= rr <= 0x1_0000;
    assert(-0x1_0000 <= o.x <= 0x1_0000) by (nonlinear_arith)
        requires (o.x as int) * (o.x as int) <= 0x1_0000_0000;
    assert(-0x1_0000 <= o.y <= 0x1_0000) by (nonlinear_arith)
        requires (o.y as int) * (o.y as int) <= 0x1_0000_0000;
    assert(-0x1_0000 <= o.z <= 0x1_0000) by (nonlinear_arith)
        requires (o.z as int) * (o.z as int) <= 0x1_0000_0000;
    if !is_front_face(ray.direction, o) {
        assert(n.x * n.x == o.x * o.x) by (nonlinear_arith) requires n.x == -o.x;
        assert(n.y * n.y == o.y * o.y) by (nonlinear_arith) requires n.y == -o.y;
        assert(n.z * n.z == o.z * o.z) by (nonlinear_arith) requires n.z == -o.z;
    }
}

} // verus!
