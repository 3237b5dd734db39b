use crate::vec3::{fits, Point3, Vec3};
use vstd::prelude::*;

verus! {

/// A ray with an origin, a direction and the time at which it is cast.
#[derive(Clone, Copy, Debug, PartialEq, Eq, Structural)]
pub struct Ray {
    pub origin: Point3,
    pub direction: Vec3,
    pub time: i64,
}

impl Ray {
    /// The point `origin + t * direction`.
    pub open spec fn at_spec(self, t: int) -> (int, int, int) {
        (
            self.origin.x + t * self.direction.x,
            self.origin.y + t * self.direction.y,
            self.origin.z + t * self.direction.z,
        )
    }

    /// A ray cast at time zero.
    pub fn new(origin: Point3, direction: Vec3) -> (r: Ray)
        ensures
            r.origin == origin && r.direction == direction && r.time == 0,
    {
        Ray { origin, direction, time: 0 }
    }

    pub fn with_timing(origin: Point3, direction: Vec3, time: i64) -> (r: Ray)
        ensures
            r.origin == origin && r.direction == direction && r.time == time,
    {
        Ray { origin, direction, time }
    }

    /// The point at parameter `t` along the ray.
    pub fn at(&self, t: i64) -> (r: Point3)
        requires
            ({
                let p = self.at_spec(t as int);
                fits(p.0) && fits(p.1) && fits(p.2)
            }),
        ensures
            (r.x as int, r.y as int, r.z as int) == self.at_spec(t as int),
    {
        let t: i128 = t as i128;
        proof {
            crate::vec3::lemma_i64_product_fits(t as int, self.direction.x as int);
            crate::vec3::lemma_i64_product_fits(t as int, self.direction.y as int);
            crate::vec3::lemma_i64_product_fits(t as int, self.direction.z as int);
        }
        Vec3 {
            x: (self.origin.x as i128 + t * self.direction.x as i128) as i64,
            y: (self.origin.y as i128 + t * self.direction.y as i128) as i64,
            z: (self.origin.z as i128 + t * self.direction.z as i128) as i64,
        }
    }
}

} // verus!
