use crate::vec3::Vec3;
use vstd::prelude::*;

verus! {

pub open spec fn min_int(a: int, b: int) -> int {
    if a <= b { a } else { b }
}

pub open spec fn max_int(a: int, b: int) -> int {
    if a >= b { a } else { b }
}

fn min_i64(a: i64, b: i64) -> (r: i64)
    ensures
        r == min_int(a as int, b as int),
{
    if a <= b { a } else { b }
}

fn max_i64(a: i64, b: i64) -> (r: i64)
    ensures
        r == max_int(a as int, b as int),
{
    if a >= b { a } else { b }
}

/// An axis-aligned box given by its lower and upper corners. A box may be
/// flat (zero thickness) along any axis.
#[derive(Clone, Copy, Debug, PartialEq, Eq, Structural)]
pub struct Aabb {
    pub min: Vec3,
    pub max: Vec3,
}

/// The smallest box that holds both `a` and `b`.
pub open spec fn merge_spec(a: Aabb, b: Aabb) -> Aabb {
    Aabb {
        min: Vec3 {
            x: min_int(a.min.x as int, b.min.x as int) as i64,
            y: min_int(a.min.y as int, b.min.y as int) as i64,
            z: min_int(a.min.z as int, b.min.z as int) as i64,
        },
        max: Vec3 {
            x: max_int(a.max.x as int, b.max.x as int) as i64,
            y: max_int(a.max.y as int, b.max.y as int) as i64,
            z: max_int(a.max.z as int, b.max.z as int) as i64,
        },
    }
}

impl Aabb {
    /// Every point of `inner` lies in `self`.
    pub open spec fn encloses(self, inner: Aabb) -> bool {
        &&& self.min.x <= inner.min.x && inner.max.x <= self.max.x
        &&& self.min.y <= inner.min.y && inner.max.y <= self.max.y
        &&& self.min.z <= inner.min.z && inner.max.z <= self.max.z
    }

    /// The point `p` lies in `self`.
    pub open spec fn holds(self, p: Vec3) -> bool {
        &&& self.min.x <= p.x <= self.max.x
        &&& self.min.y <= p.y <= self.max.y
        &&& self.min.z <= p.z <= self.max.z
    }

    pub fn new(min: Vec3, max: Vec3) -> (r: Aabb)
        ensures
            r.min == min && r.max == max,
    {
        Aabb { min, max }
    }

    /// The smallest box containing both `self` and `other`.
    pub fn merge(&self, other: &Aabb) -> (r: Aabb)
        ensures
            r == merge_spec(*self, *other),
    {
        Aabb {
            min: Vec3 {
                x: min_i64(self.min.x, other.min.x),
                y: min_i64(self.min.y, other.min.y),
                z: min_i64(self.min.z, other.min.z),
            },
            max: Vec3 {
                x: max_i64(self.max.x, other.max.x),
                y: max_i64(self.max.y, other.max.y),
                z: max_i64(self.max.z, other.max.z),
            },
        }
    }
}

/// Merging is commutative: the order of the two boxes does not matter.
pub proof fn lemma_merge_commutative(a: Aabb, b: Aabb)
    ensures
        merge_spec(a, b) == merge_spec(b, a),
{
}

/// Merging is associative.
pub proof fn lemma_merge_associative(a: Aabb, b: Aabb, c: Aabb)
    ensures
        merge_spec(merge_spec(a, b), c) == merge_spec(a, merge_spec(b, c)),
{
}

/// The merged box contains both inputs, and it is the smallest such box:
/// every box that contains both inputs contains it.
pub proof fn lemma_merge_encloses(a: Aabb, b: Aabb)
    ensures
        merge_spec(a, b).encloses(a),
        merge_spec(a, b).encloses(b),
        forall|c: Aabb| c.encloses(a) && c.encloses(b) ==> #[trigger] c.encloses(merge_spec(a, b)),
{
}

/// Every point of either input lies in the merged box.
pub proof fn lemma_merge_holds_points(a: Aabb, b: Aabb, p: Vec3)
    requires
        a.holds(p) || b.holds(p),
    ensures
        merge_spec(a, b).holds(p),
{
}

} // verus!
