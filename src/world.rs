use crate::aabb::{lemma_merge_encloses, merge_spec, Aabb};
use crate::hit::{any_hit, is_first_nearest, lemma_first_nearest_unique, nearest_index, nearest_spec, HitRecord, Hittable};
use crate::intersect::{
    ball_query_sized, ball_record, grid_sized, in_grid, plane_query_sized, plane_record, ray_sized, scalar_in_grid, GRID_LIMIT,
};
use crate::shapes::lemma_lerp_between;
use crate::ray::Ray;
use crate::shapes::{MovingSphere, Sphere, XyPlane};
use crate::vec3::{fits, Vec3};
use vstd::prelude::*;

verus! {

/// A primitive of the scene.
#[derive(Clone, Copy, Debug, PartialEq, Eq, Structural)]
pub enum Shape {
    Sphere(Sphere),
    MovingSphere(MovingSphere),
    XyPlane(XyPlane),
}

impl Shape {
    /// The primitive lies on the grid: its coordinates and radius within
    /// `GRID_LIMIT`, and a moving sphere's time window not empty.
    pub open spec fn on_grid(self) -> bool {
        match self {
            Shape::Sphere(s) => grid_sized(s.center) && 0 <= s.radius <= GRID_LIMIT,
            Shape::MovingSphere(m) => {
                &&& grid_sized(m.start_center) && grid_sized(m.end_center)
                &&& 0 <= m.radius <= GRID_LIMIT
                &&& m.start_time < m.end_time
            },
            Shape::XyPlane(p) => {
                &&& -GRID_LIMIT <= p.x0 <= GRID_LIMIT && -GRID_LIMIT <= p.x1 <= GRID_LIMIT
                &&& -GRID_LIMIT <= p.y0 <= GRID_LIMIT && -GRID_LIMIT <= p.y1 <= GRID_LIMIT
                &&& -GRID_LIMIT <= p.k <= GRID_LIMIT
            },
        }
    }

    pub fn check_grid(&self) -> (r: bool)
        ensures
            r == self.on_grid(),
    {
        match self {
            Shape::Sphere(s) => in_grid(&s.center) && 0 <= s.radius && s.radius <= GRID_LIMIT,
            Shape::MovingSphere(m) => {
                in_grid(&m.start_center) && in_grid(&m.end_center) && 0 <= m.radius && m.radius <= GRID_LIMIT
                    && m.start_time < m.end_time
            },
            Shape::XyPlane(p) => {
                scalar_in_grid(p.x0) && scalar_in_grid(p.x1) && scalar_in_grid(p.y0) && scalar_in_grid(p.y1)
                    && scalar_in_grid(p.k)
            },
        }
    }

    /// Intersecting a primitive on the grid with a ray on the grid stays
    /// within the exact arithmetic.
    pub proof fn lemma_on_grid_hit_sized(self, ray: Ray)
        requires
            self.on_grid(),
            ray_sized(ray),
        ensures
            self.hit_sized(ray),
    {
        if let Shape::MovingSphere(m) = self {
            if m.start_time <= ray.time <= m.end_time {
                let (t0, t1, t) = (m.start_time as int, m.end_time as int, ray.time as int);
                lemma_lerp_between(m.start_center.x as int, m.end_center.x as int, t0, t1, t);
                lemma_lerp_between(m.start_center.y as int, m.end_center.y as int, t0, t1, t);
                lemma_lerp_between(m.start_center.z as int, m.end_center.z as int, t0, t1, t);
            }
        }
    }
}

impl Hittable for Shape {
    open spec fn hit_sized(&self, ray: Ray) -> bool {
        match *self {
            Shape::Sphere(s) => s.hit_sized(ray),
            Shape::MovingSphere(m) => m.hit_sized(ray),
            Shape::XyPlane(p) => p.hit_sized(ray),
        }
    }

    open spec fn hit_spec(&self, ray: Ray, t_min: i64, t_max: i64) -> Option<HitRecord> {
        match *self {
            Shape::Sphere(s) => s.hit_spec(ray, t_min, t_max),
            Shape::MovingSphere(m) => m.hit_spec(ray, t_min, t_max),
            Shape::XyPlane(p) => p.hit_spec(ray, t_min, t_max),
        }
    }

    open spec fn box_fits(&self, t0: i64, t1: i64) -> bool {
        match *self {
            Shape::Sphere(s) => s.box_fits(t0, t1),
            Shape::MovingSphere(m) => m.box_fits(t0, t1),
            Shape::XyPlane(p) => p.box_fits(t0, t1),
        }
    }

    open spec fn box_spec(&self, t0: i64, t1: i64) -> Option<Aabb> {
        match *self {
            Shape::Sphere(s) => s.box_spec(t0, t1),
            Shape::MovingSphere(m) => m.box_spec(t0, t1),
            Shape::XyPlane(p) => p.box_spec(t0, t1),
        }
    }

    fn hit(&self, ray: &Ray, t_min: i64, t_max: i64) -> (r: Option<HitRecord>) {
        match self {
            Shape::Sphere(s) => s.hit(ray, t_min, t_max),
            Shape::MovingSphere(m) => m.hit(ray, t_min, t_max),
            Shape::XyPlane(p) => p.hit(ray, t_min, t_max),
        }
    }

    fn bounding_box(&self, start_time: i64, end_time: i64) -> (r: Option<Aabb>) {
        match self {
            Shape::Sphere(s) => s.bounding_box(start_time, end_time),
            Shape::MovingSphere(m) => m.bounding_box(start_time, end_time),
            Shape::XyPlane(p) => p.bounding_box(start_time, end_time),
        }
    }
}

/// Adds one member's box to an accumulated box; a member without a box
/// leaves it as it is, and the first box found starts it.
pub open spec fn merge_opt(acc: Option<Aabb>, b: Option<Aabb>) -> Option<Aabb> {
    match (acc, b) {
        (None, _) => b,
        (Some(a), None) => Some(a),
        (Some(a), Some(c)) => Some(merge_spec(a, c)),
    }
}

/// The box around all the boxes of `s`, or none when no member has one.
pub open spec fn surround(s: Seq<Option<Aabb>>) -> Option<Aabb>
    decreases s.len(),
{
    if s.len() == 0 {
        None
    } else {
        merge_opt(surround(s.drop_last()), s.last())
    }
}

/// An ordered collection of primitives, itself intersectable as a whole.
#[derive(Debug)]
pub struct World {
    pub objects: Vec<Shape>,
}

impl World {
    /// The members' boxes over `[t0, t1]`, in order.
    pub open spec fn boxes(self, t0: i64, t1: i64) -> Seq<Option<Aabb>> {
        self.objects@.map_values(|o: Shape| o.box_spec(t0, t1))
    }

    pub fn new(objects: Vec<Shape>) -> (r: World)
        ensures
            r.objects@ == objects@,
    {
        World { objects }
    }

    /// Every member lies on the grid.
    pub open spec fn on_grid(self) -> bool {
        forall|i: int| 0 <= i < self.objects@.len() ==> #[trigger] self.objects@[i].on_grid()
    }

    pub fn check_grid(&self) -> (r: bool)
        ensures
            r == self.on_grid(),
    {
        let mut i: usize = 0;
        while i < self.objects.len()
            invariant
                i <= self.objects.len(),
                forall|k: int| 0 <= k < i ==> #[trigger] self.objects@[k].on_grid(),
            decreases self.objects.len() - i,
        {
            if !self.objects[i].check_grid() {
                return false;
            }
            i = i + 1;
        }
        true
    }

    /// The members' intersections with `ray`, in order.
    pub open spec fn hits(self, ray: Ray, t_min: i64, t_max: i64) -> Seq<Option<HitRecord>> {
        self.objects@.map_values(|o: Shape| o.hit_spec(ray, t_min, t_max))
    }

    /// The nearest of the members' hits, given in member order: the first
    /// of those with the smallest `t`, or none when no member was hit.
    pub fn nearest(hits: &Vec<Option<HitRecord>>) -> (r: Option<HitRecord>)
        ensures
            r == nearest_spec(hits@),
    {
        match nearest_index(hits) {
            None => None,
            Some(i) => {
                proof {
                    let j = choose|j: int| is_first_nearest(hits@, j);
                    lemma_first_nearest_unique(hits@, i as int, j);
                }
                hits[i]
            },
        }
    }
}

impl Hittable for World {
    open spec fn hit_sized(&self, ray: Ray) -> bool {
        forall|i: int| 0 <= i < self.objects@.len() ==> #[trigger] self.objects@[i].hit_sized(ray)
    }

    open spec fn hit_spec(&self, ray: Ray, t_min: i64, t_max: i64) -> Option<HitRecord> {
        nearest_spec(self.hits(ray, t_min, t_max))
    }

    open spec fn box_fits(&self, t0: i64, t1: i64) -> bool {
        forall|i: int| 0 <= i < self.objects@.len() ==> #[trigger] self.objects@[i].box_fits(t0, t1)
    }

    open spec fn box_spec(&self, t0: i64, t1: i64) -> Option<Aabb> {
        surround(self.boxes(t0, t1))
    }

    /// The nearest intersection among the members: the first member's record
    /// among those with the smallest `t`, or none when no member is hit.
    fn hit(&self, ray: &Ray, t_min: i64, t_max: i64) -> (r: Option<HitRecord>)
    {
        let ghost all = self.hits(*ray, t_min, t_max);
        let mut hits: Vec<Option<HitRecord>> = Vec::new();
        let mut i: usize = 0;
        while i < self.objects.len()
            invariant
                i <= self.objects.len(),
                all == self.hits(*ray, t_min, t_max),
                forall|k: int| 0 <= k < self.objects@.len() ==> #[trigger] self.objects@[k].hit_sized(*ray),
                hits@ == all.take(i as int),
            decreases self.objects.len() - i,
        {
            let h = self.objects[i].hit(ray, t_min, t_max);
            hits.push(h);
            assert(hits@ =~= all.take(i as int + 1));
            i = i + 1;
        }
        assert(hits@ =~= all);
        World::nearest(&hits)
    }

    /// The box around every member's box over the interval, or none for a
    /// world without members.
    fn bounding_box(&self, start_time: i64, end_time: i64) -> (r: Option<Aabb>)
    {
        let ghost boxes = self.boxes(start_time, end_time);
        let mut acc: Option<Aabb> = None;
        let mut i: usize = 0;
        while i < self.objects.len()
            invariant
                i <= self.objects.len(),
                boxes == self.boxes(start_time, end_time),
                forall|k: int| 0 <= k < self.objects@.len() ==> #[trigger] self.objects@[k].box_fits(start_time, end_time),
                acc == surround(boxes.take(i as int)),
            decreases self.objects.len() - i,
        {
            let b = self.objects[i].bounding_box(start_time, end_time);
            assert(boxes.take(i as int + 1).drop_last() =~= boxes.take(i as int));
            acc = match (acc, b) {
                (None, _) => b,
                (Some(a), None) => Some(a),
                (Some(a), Some(c)) => Some(a.merge(&c)),
            };
            i = i + 1;
        }
        assert(boxes.take(self.objects.len() as int) =~= boxes);
        acc
    }
}

/// The accumulated box encloses the box of every member that has one.
pub proof fn lemma_surround_encloses(s: Seq<Option<Aabb>>, i: int)
    requires
        0 <= i < s.len(),
        s[i] is Some,
    ensures
        surround(s) is Some,
        surround(s)->Some_0.encloses(s[i]->Some_0),
    decreases s.len(),
{
    let init = s.drop_last();
    if i == s.len() - 1 {
        if let Some(a) = surround(init) {
            lemma_merge_encloses(a, s[i]->Some_0);
        }
    } else {
        lemma_surround_encloses(init, i);
        let a = surround(init)->Some_0;
        if let Some(c) = s.last() {
            lemma_merge_encloses(a, c);
        }
    }
}

/// The accumulated box is none exactly when no member has a box.
pub proof fn lemma_surround_none(s: Seq<Option<Aabb>>)
    ensures
        surround(s) is None <==> forall|i: int| 0 <= i < s.len() ==> #[trigger] s[i] is None,
    decreases s.len(),
{
    if s.len() > 0 {
        lemma_surround_none(s.drop_last());
        assert forall|i: int| 0 <= i < s.len() - 1 implies s.drop_last()[i] == s[i] by {}
    }
}

/// Of two hits, the nearest is the one with the strictly smaller `t`,
/// whichever order the members come in.
pub proof fn lemma_nearest_of_two(a: HitRecord, b: HitRecord)
    requires
        a.t < b.t,
    ensures
        nearest_spec(seq![Some(a), Some(b)]) == Some(a),
        nearest_spec(seq![Some(b), Some(a)]) == Some(a),
{
    let ab = seq![Some(a), Some(b)];
    let ba = seq![Some(b), Some(a)];
    assert(ab[0] is Some);
    assert(is_first_nearest(ab, 0));
    let i = choose|i: int| is_first_nearest(ab, i);
    lemma_first_nearest_unique(ab, 0, i);
    assert(ba[1] is Some);
    assert(is_first_nearest(ba, 1));
    let j = choose|j: int| is_first_nearest(ba, j);
    lemma_first_nearest_unique(ba, 1, j);
}

/// Face `k` of a box: its lower x, y, z for `k` = 0, 1, 2 and its upper
/// x, y, z for `k` = 3, 4, 5.
pub open spec fn face(b: Aabb, k: int) -> int {
    if k == 0 {
        b.min.x as int
    } else if k == 1 {
        b.min.y as int
    } else if k == 2 {
        b.min.z as int
    } else if k == 3 {
        b.max.x as int
    } else if k == 4 {
        b.max.y as int
    } else {
        b.max.z as int
    }
}

/// Each face of the accumulated box is the same face of some member's box.
proof fn lemma_surround_attained(s: Seq<Option<Aabb>>, k: int)
    requires
        0 <= k < 6,
        surround(s) is Some,
    ensures
        exists|i: int| 0 <= i < s.len() && #[trigger] s[i] is Some && face(s[i]->Some_0, k) == face(surround(s)->Some_0, k),
    decreases s.len(),
{
    let n = s.len() - 1;
    let init = s.drop_last();
    assert(forall|j: int| 0 <= j < n ==> init[j] == s[j]);
    match surround(init) {
        None => {
            assert(s[n] is Some && face(s[n]->Some_0, k) == face(surround(s)->Some_0, k));
        },
        Some(a) => {
            lemma_surround_attained(init, k);
            let i = choose|i: int| 0 <= i < init.len() && #[trigger] init[i] is Some && face(init[i]->Some_0, k) == face(surround(init)->Some_0, k);
            assert(s[i] is Some);
            if face(surround(s)->Some_0, k) != face(a, k) {
                assert(s[n] is Some && face(s[n]->Some_0, k) == face(surround(s)->Some_0, k));
            }
        },
    }
}

/// Two sequences of boxes hold the same boxes, in whatever order or number.
pub open spec fn same_boxes(s1: Seq<Option<Aabb>>, s2: Seq<Option<Aabb>>) -> bool {
    &&& forall|i: int| 0 <= i < s1.len() && #[trigger] s1[i] is Some ==> exists|j: int| 0 <= j < s2.len() && s2[j] == s1[i]
    &&& forall|j: int| 0 <= j < s2.len() && #[trigger] s2[j] is Some ==> exists|i: int| 0 <= i < s1.len() && s1[i] == s2[j]
}

/// One face of the accumulated box is at least as far out as the other's
/// when every box of the second is a box of the first.
proof fn lemma_face_outward(s1: Seq<Option<Aabb>>, s2: Seq<Option<Aabb>>, k: int)
    requires
        0 <= k < 6,
        same_boxes(s1, s2),
        surround(s1) is Some,
        surround(s2) is Some,
    ensures
        k < 3 ==> face(surround(s1)->Some_0, k) <= face(surround(s2)->Some_0, k),
        k >= 3 ==> face(surround(s1)->Some_0, k) >= face(surround(s2)->Some_0, k),
{
    lemma_surround_attained(s2, k);
    let j = choose|j: int| 0 <= j < s2.len() && #[trigger] s2[j] is Some && face(s2[j]->Some_0, k) == face(surround(s2)->Some_0, k);
    let i = choose|i: int| 0 <= i < s1.len() && s1[i] == s2[j];
    lemma_surround_encloses(s1, i);
}

/// The accumulated box depends only on which boxes occur, not on their
/// order: sequences with the same boxes give the same box.
pub proof fn lemma_surround_same_boxes(s1: Seq<Option<Aabb>>, s2: Seq<Option<Aabb>>)
    requires
        same_boxes(s1, s2),
    ensures
        surround(s1) == surround(s2),
{
    lemma_surround_none(s1);
    lemma_surround_none(s2);
    if surround(s1) is Some {
        if surround(s2) is None {
            let i = choose|i: int| 0 <= i < s1.len() && !(#[trigger] s1[i] is None);
            let j = choose|j: int| 0 <= j < s2.len() && s2[j] == s1[i];
            assert(s2[j] is Some);
        }
        assert forall|k: int| 0 <= k < 6 implies face(surround(s1)->Some_0, k) == face(surround(s2)->Some_0, k) by {
            lemma_face_outward(s1, s2, k);
            lemma_face_outward(s2, s1, k);
        }
        let b1 = surround(s1)->Some_0;
        let b2 = surround(s2)->Some_0;
        assert(face(b1, 0) == face(b2, 0) && face(b1, 1) == face(b2, 1) && face(b1, 2) == face(b2, 2));
        assert(face(b1, 3) == face(b2, 3) && face(b1, 4) == face(b2, 4) && face(b1, 5) == face(b2, 5));
        assert(b1.min == b2.min);
        assert(b1.max == b2.max);
    } else if surround(s2) is Some {
        let j = choose|j: int| 0 <= j < s2.len() && !(#[trigger] s2[j] is None);
        let i = choose|i: int| 0 <= i < s1.len() && s1[i] == s2[j];
        assert(s1[i] is Some);
    }
}

/// A world's box does not depend on the order of its members: two worlds
/// with the same members, in any order, have the same box.
pub proof fn lemma_world_box_order_free(w1: World, w2: World, t0: i64, t1: i64)
    requires
        forall|i: int| 0 <= i < w1.objects@.len() ==> exists|j: int| 0 <= j < w2.objects@.len() && w2.objects@[j] == #[trigger] w1.objects@[i],
        forall|j: int| 0 <= j < w2.objects@.len() ==> exists|i: int| 0 <= i < w1.objects@.len() && w1.objects@[i] == #[trigger] w2.objects@[j],
    ensures
        w1.box_spec(t0, t1) == w2.box_spec(t0, t1),
{
    let s1 = w1.boxes(t0, t1);
    let s2 = w2.boxes(t0, t1);
    assert forall|i: int| 0 <= i < s1.len() && #[trigger] s1[i] is Some implies exists|j: int| 0 <= j < s2.len() && s2[j] == s1[i] by {
        let j = choose|j: int| 0 <= j < w2.objects@.len() && w2.objects@[j] == w1.objects@[i];
        assert(s2[j] == s1[i]);
    }
    assert forall|j: int| 0 <= j < s2.len() && #[trigger] s2[j] is Some implies exists|i: int| 0 <= i < s1.len() && s1[i] == s2[j] by {
        let i = choose|i: int| 0 <= i < w1.objects@.len() && w1.objects@[i] == w2.objects@[j];
        assert(s1[i] == s2[j]);
    }
    lemma_surround_same_boxes(s1, s2);
}

} // verus!
