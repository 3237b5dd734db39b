use crate::aabb::Aabb;
use crate::ray::Ray;
use crate::vec3::{Point3, Vec3};
use vstd::prelude::*;

verus! {

/// A surface normal oriented against the incoming ray.
#[derive(Clone, Copy, Debug, PartialEq, Eq, Structural)]
pub struct FaceNormal {
    pub normal: Vec3,
    pub front_face: bool,
}

/// The ray comes from the outward side when its direction and the outward
/// normal have a negative dot product.
pub open spec fn is_front_face(direction: Vec3, outward: Vec3) -> bool {
    direction.dot_spec(outward) < 0
}

/// The normal stored for a hit: the outward normal on the front face, its
/// negation on the back face.
pub open spec fn oriented_normal(direction: Vec3, outward: Vec3) -> Vec3 {
    if is_front_face(direction, outward) {
        outward
    } else {
        Vec3 { x: -outward.x as i64, y: -outward.y as i64, z: -outward.z as i64 }
    }
}

/// Orients `outward` against a ray travelling along `direction`.
pub fn set_face_normal(direction: &Vec3, outward: &Vec3) -> (r: FaceNormal)
    requires
        direction.dot_sized(),
        outward.dot_sized(),
    ensures
        r.front_face == is_front_face(*direction, *outward),
        r.normal == oriented_normal(*direction, *outward),
{
    if direction.dot(outward) < 0 {
        FaceNormal { normal: *outward, front_face: true }
    } else {
        FaceNormal { normal: outward.neg(), front_face: false }
    }
}

/// The record of a ray meeting a surface.
#[derive(Clone, Copy, Debug, PartialEq, Eq, Structural)]
pub struct HitRecord {
    /// The ray parameter of the intersection, rounded down.
    pub t: i64,
    /// The grid point of the ray at `t`.
    pub hit_point: Point3,
    /// The outward normal oriented against the ray, times `normal_scale`:
    /// the unit normal is `normal / normal_scale`. For a sphere `normal` runs
    /// from the center to `hit_point` and `normal_scale` is the radius.
    pub normal: Vec3,
    /// The length that `normal` has when `hit_point` lies on the surface.
    pub normal_scale: i64,
    /// Whether the ray came from the outward side.
    pub front_face: bool,
    /// Handle of the surface's material.
    pub material: usize,
}

impl HitRecord {
    /// The unit normal of the record is `n`: `normal == normal_scale * n`.
    pub open spec fn unit_normal_is(self, n: Vec3) -> bool {
        &&& self.normal.x == self.normal_scale * n.x
        &&& self.normal.y == self.normal_scale * n.y
        &&& self.normal.z == self.normal_scale * n.z
    }

    /// A record whose normal is `outward` oriented against `direction`, with
    /// `outward / normal_scale` the unit outward normal.
    pub fn new(t: i64, hit_point: Point3, direction: &Vec3, outward: &Vec3, normal_scale: i64, material: usize) -> (r: HitRecord)
        requires
            direction.dot_sized(),
            outward.dot_sized(),
        ensures
            r.t == t && r.hit_point == hit_point && r.material == material,
            r.normal_scale == normal_scale,
            r.front_face == is_front_face(*direction, *outward),
            r.normal == oriented_normal(*direction, *outward),
    {
        let face = set_face_normal(direction, outward);
        HitRecord { t, hit_point, normal: face.normal, normal_scale, front_face: face.front_face, material }
    }
}

/// The intersection contract shared by every object of a scene.
pub trait Hittable {
    /// Whether intersecting with `ray` stays within the exact arithmetic.
    spec fn hit_sized(&self, ray: Ray) -> bool;

    /// What intersecting with `ray` over `[t_min, t_max]` gives.
    spec fn hit_spec(&self, ray: Ray, t_min: i64, t_max: i64) -> Option<HitRecord>;

    /// Whether the box over `[t0, t1]` has representable corners.
    spec fn box_fits(&self, t0: i64, t1: i64) -> bool;

    /// The box covering every position over the time interval `[t0, t1]`.
    spec fn box_spec(&self, t0: i64, t1: i64) -> Option<Aabb>;

    /// The nearest intersection with a parameter in `[t_min, t_max]`.
    fn hit(&self, ray: &Ray, t_min: i64, t_max: i64) -> (r: Option<HitRecord>)
        requires
            self.hit_sized(*ray),
        ensures
            r == self.hit_spec(*ray, t_min, t_max),
    ;

    fn bounding_box(&self, start_time: i64, end_time: i64) -> (r: Option<Aabb>)
        requires
            self.box_fits(start_time, end_time),
        ensures
            r == self.box_spec(start_time, end_time),
    ;
}

/// `i` is the first of the hits with the smallest `t`.
pub open spec fn is_first_nearest(hits: Seq<Option<HitRecord>>, i: int) -> bool {
    &&& 0 <= i < hits.len()
    &&& hits[i] is Some
    &&& forall|j: int| 0 <= j < hits.len() && #[trigger] hits[j] is Some ==> hits[i]->Some_0.t <= hits[j]->Some_0.t
    &&& forall|j: int| 0 <= j < i && #[trigger] hits[j] is Some ==> hits[i]->Some_0.t < hits[j]->Some_0.t
}

/// Some member was hit.
pub open spec fn any_hit(hits: Seq<Option<HitRecord>>) -> bool {
    exists|j: int| 0 <= j < hits.len() && #[trigger] hits[j] is Some
}

/// The index of the nearest hit among `hits`, the first one on a tie.
pub fn nearest_index(hits: &Vec<Option<HitRecord>>) -> (r: Option<usize>)
    ensures
        r is None <==> !any_hit(hits@),
        r matches Some(i) ==> is_first_nearest(hits@, i as int),
{
    let mut best: Option<usize> = None;
    let mut i: usize = 0;
    while i < hits.len()
        invariant
            i <= hits.len(),
            best is None <==> !any_hit(hits@.take(i as int)),
            best matches Some(b) ==> b < i && is_first_nearest(hits@.take(i as int), b as int),
        decreases hits.len() - i,
    {
        assert(hits@.take(i as int + 1) =~= hits@.take(i as int).push(hits@[i as int]));
        match &hits[i] {
            Some(rec) => {
                let better = match best {
                    None => true,
                    Some(b) => match &hits[b] {
                        Some(cur) => rec.t < cur.t,
                        None => false,
                    },
                };
                if better {
                    best = Some(i);
                }
            },
            None => {},
        }
        i = i + 1;
    }
    assert(hits@.take(hits.len() as int) =~= hits@);
    best
}

/// The nearest of `hits`: the first of those with the smallest `t`, or none
/// when there is no hit.
pub open spec fn nearest_spec(hits: Seq<Option<HitRecord>>) -> Option<HitRecord> {
    if any_hit(hits) {
        hits[choose|i: int| is_first_nearest(hits, i)]
    } else {
        None
    }
}

/// At most one index is the first of the nearest hits.
pub proof fn lemma_first_nearest_unique(hits: Seq<Option<HitRecord>>, i: int, j: int)
    requires
        is_first_nearest(hits, i),
        is_first_nearest(hits, j),
    ensures
        i == j,
{
    if i < j {
        assert(hits[i] is Some);
    } else if j < i {
        assert(hits[j] is Some);
    }
}

/// When some member is hit, a first nearest hit exists, so the nearest
/// of the hits is some record.
pub proof fn lemma_nearest_exists(hits: Seq<Option<HitRecord>>)
    requires
        any_hit(hits),
    ensures
        exists|i: int| is_first_nearest(hits, i),
        nearest_spec(hits) is Some,
    decreases hits.len(),
{
    let n = hits.len() - 1;
    let init = hits.drop_last();
    if any_hit(init) {
        lemma_nearest_exists(init);
        let i = choose|i: int| is_first_nearest(init, i);
        assert(forall|j: int| 0 <= j < n ==> init[j] == hits[j]);
        if hits[n] matches Some(l) && l.t < hits[i]->Some_0.t {
            assert(is_first_nearest(hits, n));
        } else {
            assert(is_first_nearest(hits, i));
        }
    } else {
        let k = choose|k: int| 0 <= k < hits.len() && #[trigger] hits[k] is Some;
        if k < n {
            assert(init[k] is Some);
        }
        assert(forall|j: int| 0 <= j < n ==> init[j] == hits[j]);
        assert(is_first_nearest(hits, n));
    }
    let w = choose|i: int| is_first_nearest(hits, i);
    assert(hits[w] is Some);
}

} // verus!
