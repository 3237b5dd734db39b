use crate::color::{sees_background, Color, T_MIN};
use crate::hit::{any_hit, lemma_nearest_exists, Hittable};
use crate::intersect::{grid_sized, in_grid, ray_in_grid, ray_sized, GRID_LIMIT};
use crate::ray::Ray;
use crate::vec3::Vec3;
use crate::world::World;
use vstd::prelude::*;

verus! {

/// How a diffuse bounce picks its new direction from the surface normal and
/// a random sample. The record's normal is the unit normal times
/// `normal_scale`, so the sample is scaled by `normal_scale` too: the
/// direction is `normal_scale` times the unit-normal rule.
#[derive(Clone, Copy, Debug, PartialEq, Eq, Structural)]
pub enum Diffusion {
    /// The normal plus a random unit vector.
    UnitVector,
    /// A random vector of the hemisphere around the normal: the sample,
    /// flipped when it points into the surface.
    Hemisphere,
    /// The normal plus a random vector of the unit ball.
    UnitSphere,
}

/// `sample` times `k`.
pub open spec fn scaled(sample: Vec3, k: i64) -> Vec3 {
    Vec3 { x: (sample.x * k) as i64, y: (sample.y * k) as i64, z: (sample.z * k) as i64 }
}

/// The direction of a bounce off a surface whose unit normal is
/// `normal / scale`, given `sample`.
pub open spec fn bounce_direction(rule: Diffusion, normal: Vec3, scale: i64, sample: Vec3) -> Vec3 {
    let s = scaled(sample, scale);
    match rule {
        Diffusion::Hemisphere => if normal.dot_spec(sample) > 0 {
            s
        } else {
            Vec3 { x: -s.x as i64, y: -s.y as i64, z: -s.z as i64 }
        },
        _ => Vec3 { x: (normal.x + s.x) as i64, y: (normal.y + s.y) as i64, z: (normal.z + s.z) as i64 },
    }
}

fn scale_sample(sample: &Vec3, k: i64) -> (r: Vec3)
    requires
        grid_sized(*sample),
        0 <= k <= GRID_LIMIT,
    ensures
        r == scaled(*sample, k),
        -0x1_0000_0000 <= r.x <= 0x1_0000_0000,
        -0x1_0000_0000 <= r.y <= 0x1_0000_0000,
        -0x1_0000_0000 <= r.z <= 0x1_0000_0000,
{
    proof {
        let (x, y, z, kk) = (sample.x as int, sample.y as int, sample.z as int, k as int);
        assert(-0x1_0000_0000 <= x * kk <= 0x1_0000_0000) by (nonlinear_arith)
            requires -0x1_0000 <= x <= 0x1_0000, 0 <= kk <= 0x1_0000;
        assert(-0x1_0000_0000 <= y * kk <= 0x1_0000_0000) by (nonlinear_arith)
            requires -0x1_0000 <= y <= 0x1_0000, 0 <= kk <= 0x1_0000;
        assert(-0x1_0000_0000 <= z * kk <= 0x1_0000_0000) by (nonlinear_arith)
            requires -0x1_0000 <= z <= 0x1_0000, 0 <= kk <= 0x1_0000;
    }
    Vec3 { x: sample.x * k, y: sample.y * k, z: sample.z * k }
}

/// Where a diffuse path ends.
#[derive(Clone, Copy, Debug, PartialEq, Eq, Structural)]
pub enum PathEnd {
    /// The bounce budget ran out, or the next bounce would start off the grid.
    Absorbed,
    /// `ray` meets nothing after `bounces` bounces; each bounce halves the light.
    Escaped { ray: Ray, bounces: u32 },
}

/// Where the diffuse path of `ray` ends with `depth` bounces left.
pub open spec fn path_end(world: World, ray: Ray, depth: u32, rule: Diffusion, samples: Seq<Vec3>) -> PathEnd
    decreases depth,
{
    if depth == 0 {
        PathEnd::Absorbed
    } else if sees_background(world, ray) {
        PathEnd::Escaped { ray, bounces: 0 }
    } else {
        let rec = world.hit_spec(ray, T_MIN, i64::MAX)->Some_0;
        if !grid_sized(rec.hit_point) || !grid_sized(rec.normal) || !(0 <= rec.normal_scale <= GRID_LIMIT) {
            PathEnd::Absorbed
        } else {
            let next = Ray { origin: rec.hit_point, direction: bounce_direction(rule, rec.normal, rec.normal_scale, samples[depth - 1]), time: 0 };
            match path_end(world, next, (depth - 1) as u32, rule, samples) {
                PathEnd::Absorbed => PathEnd::Absorbed,
                PathEnd::Escaped { ray: out, bounces } => PathEnd::Escaped { ray: out, bounces: (bounces + 1) as u32 },
            }
        }
    }
}

/// Follows a ray through diffuse bounces. The bounce made with `depth`
/// bounces left uses `samples[depth - 1]`.
pub fn diffuse_path(ray: &Ray, world: &World, depth: u32, rule: Diffusion, samples: &Vec<Vec3>) -> (r: PathEnd)
    requires
        world.on_grid(),
        samples.len() >= depth,
        forall|i: int| 0 <= i < samples.len() ==> grid_sized(#[trigger] samples@[i]),
    ensures
        depth == 0 ==> r == PathEnd::Absorbed,
        depth > 0 && sees_background(*world, *ray) ==> r == (PathEnd::Escaped { ray: *ray, bounces: 0 }),
        r matches PathEnd::Escaped { bounces, .. } ==> bounces < depth,
        r == path_end(*world, *ray, depth, rule, samples@),
    decreases depth,
{
    if depth == 0 {
        return PathEnd::Absorbed;
    }
    if !ray_in_grid(ray) {
        return PathEnd::Escaped { ray: *ray, bounces: 0 };
    }
    proof {
        assert forall|i: int| 0 <= i < world.objects@.len() implies #[trigger] world.objects@[i].hit_sized(*ray) by {
            world.objects@[i].lemma_on_grid_hit_sized(*ray);
        }
    }
    let found = world.hit(ray, T_MIN, i64::MAX);
    proof {
        if any_hit(world.hits(*ray, T_MIN, i64::MAX)) {
            lemma_nearest_exists(world.hits(*ray, T_MIN, i64::MAX));
        }
    }
    match found {
        None => PathEnd::Escaped { ray: *ray, bounces: 0 },
        Some(rec) => {
            if !in_grid(&rec.hit_point) || !in_grid(&rec.normal) || !(0 <= rec.normal_scale && rec.normal_scale <= GRID_LIMIT) {
                return PathEnd::Absorbed;
            }
            let sample = samples[(depth - 1) as usize];
            let direction = match rule {
                Diffusion::Hemisphere => if rec.normal.dot(&sample) > 0 {
                    scale_sample(&sample, rec.normal_scale)
                } else {
                    scale_sample(&sample, rec.normal_scale).neg()
                },
                _ => rec.normal.add(&scale_sample(&sample, rec.normal_scale)),
            };
            let next = Ray::new(rec.hit_point, direction);
            match diffuse_path(&next, world, depth - 1, rule, samples) {
                PathEnd::Absorbed => PathEnd::Absorbed,
                PathEnd::Escaped { ray: out, bounces } => PathEnd::Escaped { ray: out, bounces: bounces + 1 },
            }
        },
    }
}

/// `v` halved `n` times, each time rounding down.
pub open spec fn halved(v: u64, n: nat) -> u64
    decreases n,
{
    if n == 0 { v } else { halved(v / 2, (n - 1) as nat) }
}

fn halve_channel(v: u64, n: u32) -> (r: u64)
    ensures
        r == halved(v, n as nat),
{
    let mut cur: u64 = v;
    let mut i: u32 = 0;
    while i < n
        invariant
            i <= n,
            halved(cur, (n - i) as nat) == halved(v, n as nat),
        decreases n - i,
    {
        cur = cur / 2;
        i = i + 1;
    }
    cur
}

/// The light that reaches the eye from a path that escaped after
/// `bounces` bounces: `c` halved once per bounce.
pub fn dim(c: &Color, bounces: u32) -> (r: Color)
    ensures
        r.r == halved(c.r, bounces as nat),
        r.g == halved(c.g, bounces as nat),
        r.b == halved(c.b, bounces as nat),
{
    Color { r: halve_channel(c.r, bounces), g: halve_channel(c.g, bounces), b: halve_channel(c.b, bounces) }
}

} // verus!
