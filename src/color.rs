use crate::hit::{any_hit, lemma_nearest_exists, HitRecord, Hittable};
use crate::intersect::{ray_in_grid, ray_sized};
use crate::ray::Ray;
use crate::vec3::Vec3;
use crate::world::World;
use vstd::prelude::*;

verus! {

/// The channel value that stands for full intensity.
pub const COLOR_ONE: u64 = 0x1_0000;

/// A color; each channel counts in units of `1 / COLOR_ONE`.
#[derive(Clone, Copy, Debug, PartialEq, Eq, Structural)]
pub struct Color {
    pub r: u64,
    pub g: u64,
    pub b: u64,
}

impl Color {
    pub fn new(r: u64, g: u64, b: u64) -> (c: Color)
        ensures
            c.r == r && c.g == g && c.b == b,
    {
        Color { r, g, b }
    }

    /// Black.
    pub fn zero() -> (c: Color)
        ensures
            c == black(),
    {
        Color { r: 0, g: 0, b: 0 }
    }
}

pub open spec fn black() -> Color {
    Color { r: 0, g: 0, b: 0 }
}

/// `v`, or the largest channel value when `v` is larger.
pub open spec fn saturate(v: int) -> u64 {
    if v > u64::MAX { u64::MAX } else { v as u64 }
}

/// One channel of `emitted + attenuation * traced`.
pub open spec fn shade_channel(emitted: u64, attenuation: u64, traced: u64) -> u64 {
    saturate(emitted + (attenuation * traced) / (COLOR_ONE as int))
}

fn shade_one(emitted: u64, attenuation: u64, traced: u64) -> (r: u64)
    ensures
        r == shade_channel(emitted, attenuation, traced),
{
    proof {
        assert(0 <= (attenuation as int) * (traced as int) <= (u64::MAX as int) * (u64::MAX as int)) by (nonlinear_arith);
        assert((u64::MAX as int) * (u64::MAX as int) <= u128::MAX);
        vstd::arithmetic::div_mod::lemma_div_pos_is_pos((attenuation as int) * (traced as int), COLOR_ONE as int);
        vstd::arithmetic::div_mod::lemma_div_is_ordered(
            (attenuation as int) * (traced as int),
            (u64::MAX as int) * (u64::MAX as int),
            COLOR_ONE as int,
        );
    }
    let scaled: u128 = (attenuation as u128) * (traced as u128) / (COLOR_ONE as u128);
    let sum: u128 = emitted as u128 + scaled;
    if sum > u64::MAX as u128 {
        u64::MAX
    } else {
        sum as u64
    }
}

/// `emitted + attenuation * traced`, channel by channel.
pub open spec fn shade_spec(emitted: Color, attenuation: Color, traced: Color) -> Color {
    Color {
        r: shade_channel(emitted.r, attenuation.r, traced.r),
        g: shade_channel(emitted.g, attenuation.g, traced.g),
        b: shade_channel(emitted.b, attenuation.b, traced.b),
    }
}

/// The emitted light plus the attenuation times the traced light, channel
/// by channel, saturating at the largest channel value.
pub fn shade(emitted: &Color, attenuation: &Color, traced: &Color) -> (c: Color)
    ensures
        c == shade_spec(*emitted, *attenuation, *traced),
{
    Color {
        r: shade_one(emitted.r, attenuation.r, traced.r),
        g: shade_one(emitted.g, attenuation.g, traced.g),
        b: shade_one(emitted.b, attenuation.b, traced.b),
    }
}

/// Adding the attenuated light of a black ray leaves the emitted light as it is.
pub proof fn lemma_shade_black(emitted: Color, attenuation: Color)
    ensures
        shade_spec(emitted, attenuation, black()) == emitted,
{
    assert((attenuation.r as int) * 0 == 0);
    assert((attenuation.g as int) * 0 == 0);
    assert((attenuation.b as int) * 0 == 0);
}

/// The materials of a scene, looked up by the handle in a hit record.
pub trait Materials {
    /// The light that the surface of a hit emits by itself; it depends on
    /// the record alone, not on the incoming ray.
    spec fn emit_spec(&self, rec: HitRecord) -> Color;

    /// The light that the surface of the hit emits by itself.
    fn emit(&self, rec: &HitRecord) -> (c: Color)
        ensures
            c == self.emit_spec(*rec),
    ;

    /// The attenuation and the scattered ray for `ray` meeting the surface of
    /// `rec`, or none when the surface absorbs it. The material's randomness
    /// comes in as `sample`, drawn by the caller, so the answer depends on the
    /// arguments alone.
    spec fn scatter_spec(&self, ray: Ray, rec: HitRecord, sample: Vec3) -> Option<(Color, Ray)>;

    fn scatter(&self, ray: &Ray, rec: &HitRecord, sample: &Vec3) -> (r: Option<(Color, Ray)>)
        ensures
            r == self.scatter_spec(*ray, *rec, *sample),
    ;
}

/// Lower bound of the parameter range searched for the next surface; it
/// keeps a scattered ray from meeting the surface it leaves at once. Ray
/// parameters are integers, so a surface whose root lies below 1 (closer
/// to the origin than one length of the direction) is not seen.
pub const T_MIN: i64 = 1;

/// The ray is answered with the background: either no member is hit at a
/// parameter from `T_MIN` on (a surface closer than that is not seen), or the ray lies off the grid, where the exact
/// arithmetic cannot follow it and it is not traced (whether or not it would
/// meet a surface).
pub open spec fn sees_background(world: World, ray: Ray) -> bool {
    !ray_sized(ray) || !any_hit(world.hits(ray, T_MIN, i64::MAX))
}

/// The light emitted at the nearest surface that `ray` meets.
pub open spec fn emitted_at<M: Materials>(materials: M, world: World, ray: Ray) -> Color {
    materials.emit_spec(world.hit_spec(ray, T_MIN, i64::MAX)->Some_0)
}

/// The color seen along `ray` with `depth` bounces left, the bounce made
/// with `depth` left drawing `samples[depth - 1]`: black once the budget is
/// spent; the background when nothing is hit; else the light the nearest
/// surface emits, plus the attenuation times the color of the scattered ray
/// when the material scatters it.
pub open spec fn color_spec<M: Materials>(
    materials: M,
    world: World,
    ray: Ray,
    depth: u32,
    background: Color,
    samples: Seq<Vec3>,
) -> Color
    decreases depth,
{
    if depth == 0 {
        black()
    } else if sees_background(world, ray) {
        background
    } else {
        let rec = world.hit_spec(ray, T_MIN, i64::MAX)->Some_0;
        let e = materials.emit_spec(rec);
        match materials.scatter_spec(ray, rec, samples[depth - 1]) {
            None => e,
            Some((a, out)) => shade_spec(e, a, color_spec(materials, world, out, (depth - 1) as u32, background, samples)),
        }
    }
}

/// The color seen along `ray` with `depth` bounces left (see `color_spec`).
/// The bounce made with `depth` bounces left hands `samples[depth - 1]` to
/// the material.
pub fn ray_color<M: Materials>(
    ray: &Ray,
    world: &World,
    materials: &M,
    depth: u32,
    background: &Color,
    samples: &Vec<Vec3>,
) -> (c: Color)
    requires
        world.on_grid(),
        samples.len() >= depth,
    ensures
        c == color_spec(*materials, *world, *ray, depth, *background, samples@),
        depth == 0 ==> c == black(),
        depth > 0 && sees_background(*world, *ray) ==> c == *background,
        depth == 1 && !sees_background(*world, *ray) ==> c == emitted_at(*materials, *world, *ray),
    decreases depth,
{
    if depth == 0 {
        return Color::zero();
    }
    if !ray_in_grid(ray) {
        return *background;
    }
    proof {
        assert forall|i: int| 0 <= i < world.objects@.len() implies #[trigger] world.objects@[i].hit_sized(*ray) by {
            world.objects@[i].lemma_on_grid_hit_sized(*ray);
        }
    }
    let found = world.hit(ray, T_MIN, i64::MAX);
    proof {
        if any_hit(world.hits(*ray, T_MIN, i64::MAX)) {
            lemma_nearest_exists(world.hits(*ray, T_MIN, i64::MAX));
        }
    }
    match found {
        None => *background,
        Some(rec) => {
            let emitted = materials.emit(&rec);
            match materials.scatter(ray, &rec, &samples[(depth - 1) as usize]) {
                Some((attenuation, scattered)) => {
                    let traced = ray_color(&scattered, world, materials, depth - 1, background, samples);
                    proof {
                        if depth == 1 {
                            lemma_shade_black(emitted, attenuation);
                        }
                    }
                    shade(&emitted, &attenuation, &traced)
                },
                None => emitted,
            }
        },
    }
}

} // verus!
