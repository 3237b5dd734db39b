use vstd::prelude::*;

verus! {

/// Whether an integer fits an `i64` coordinate.
pub open spec fn fits(v: int) -> bool {
    i64::MIN <= v <= i64::MAX
}

/// A point or vector with coordinates on an integer grid.
#[derive(Clone, Copy, Debug, PartialEq, Eq, Structural)]
pub struct Vec3 {
    pub x: i64,
    pub y: i64,
    pub z: i64,
}

/// Point and vector share one representation.
pub type Point3 = Vec3;

/// Largest magnitude of a coordinate for which a dot product fits an `i128`.
pub const DOT_LIMIT: i64 = 0x4000_0000_0000_0000;

/// Whether `v` lies within `DOT_LIMIT` of zero.
pub open spec fn dot_sized(v: int) -> bool {
    -DOT_LIMIT <= v <= DOT_LIMIT
}

/// The product of two coordinates within `DOT_LIMIT` lies within 2^124 of zero.
proof fn lemma_product_bound(a: int, b: int)
    requires
        dot_sized(a),
        dot_sized(b),
    ensures
        -0x1000_0000_0000_0000_0000_0000_0000_0000 <= a * b <= 0x1000_0000_0000_0000_0000_0000_0000_0000,
{
    assert(-0x1000_0000_0000_0000_0000_0000_0000_0000 <= a * b <= 0x1000_0000_0000_0000_0000_0000_0000_0000) by (nonlinear_arith)
        requires
            -0x4000_0000_0000_0000 <= a <= 0x4000_0000_0000_0000,
            -0x4000_0000_0000_0000 <= b <= 0x4000_0000_0000_0000,
    ;
}

/// The product of two `i64` values lies within 2^126 of zero.
pub proof fn lemma_i64_product_fits(a: int, b: int)
    requires
        fits(a),
        fits(b),
    ensures
        -0x4000_0000_0000_0000_0000_0000_0000_0000 <= a * b <= 0x4000_0000_0000_0000_0000_0000_0000_0000,
{
    assert(-0x4000_0000_0000_0000_0000_0000_0000_0000 <= a * b <= 0x4000_0000_0000_0000_0000_0000_0000_0000) by (nonlinear_arith)
        requires
            -0x8000_0000_0000_0000 <= a <= 0x8000_0000_0000_0000,
            -0x8000_0000_0000_0000 <= b <= 0x8000_0000_0000_0000,
    ;
}

impl Vec3 {
    pub open spec fn dot_spec(self, o: Vec3) -> int {
        self.x * o.x + self.y * o.y + self.z * o.z
    }

    /// Every coordinate lies within `DOT_LIMIT` of zero, so dot products fit.
    pub open spec fn dot_sized(self) -> bool {
        dot_sized(self.x as int) && dot_sized(self.y as int) && dot_sized(self.z as int)
    }

    pub open spec fn can_add(self, o: Vec3) -> bool {
        fits(self.x + o.x) && fits(self.y + o.y) && fits(self.z + o.z)
    }

    pub open spec fn can_sub(self, o: Vec3) -> bool {
        fits(self.x - o.x) && fits(self.y - o.y) && fits(self.z - o.z)
    }

    pub open spec fn can_neg(self) -> bool {
        self.x != i64::MIN && self.y != i64::MIN && self.z != i64::MIN
    }

    pub fn new(x: i64, y: i64, z: i64) -> (r: Vec3)
        ensures
            r.x == x && r.y == y && r.z == z,
    {
        Vec3 { x, y, z }
    }

    /// The vector with all three coordinates equal to `v`.
    pub fn splat(v: i64) -> (r: Vec3)
        ensures
            r.x == v && r.y == v && r.z == v,
    {
        Vec3 { x: v, y: v, z: v }
    }

    pub fn zero() -> (r: Vec3)
        ensures
            r.x == 0 && r.y == 0 && r.z == 0,
    {
        Vec3 { x: 0, y: 0, z: 0 }
    }

    pub fn add(&self, o: &Vec3) -> (r: Vec3)
        requires
            self.can_add(*o),
        ensures
            r.x == self.x + o.x,
            r.y == self.y + o.y,
            r.z == self.z + o.z,
    {
        Vec3 { x: self.x + o.x, y: self.y + o.y, z: self.z + o.z }
    }

    pub fn sub(&self, o: &Vec3) -> (r: Vec3)
        requires
            self.can_sub(*o),
        ensures
            r.x == self.x - o.x,
            r.y == self.y - o.y,
            r.z == self.z - o.z,
    {
        Vec3 { x: self.x - o.x, y: self.y - o.y, z: self.z - o.z }
    }

    pub fn neg(&self) -> (r: Vec3)
        requires
            self.can_neg(),
        ensures
            r.x == -self.x,
            r.y == -self.y,
            r.z == -self.z,
    {
        Vec3 { x: -self.x, y: -self.y, z: -self.z }
    }

    /// The exact dot product.
    pub fn dot(&self, o: &Vec3) -> (r: i128)
        requires
            self.dot_sized(),
            o.dot_sized(),
        ensures
            r == self.dot_spec(*o),
    {
        proof {
            lemma_product_bound(self.x as int, o.x as int);
            lemma_product_bound(self.y as int, o.y as int);
            lemma_product_bound(self.z as int, o.z as int);
        }
        let px: i128 = (self.x as i128) * (o.x as i128);
        let py: i128 = (self.y as i128) * (o.y as i128);
        let pz: i128 = (self.z as i128) * (o.z as i128);
        px + py + pz
    }
}

} // verus!
