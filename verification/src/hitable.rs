//! What a ray can hit, and what is known of a hit.

use vstd::prelude::*;
use crate::aabb::Aabb;
use crate::ray::Ray;
use crate::scalar::Scalar;
use crate::vec::{Point3, Vec3};

verus! {

/// A record of a ray meeting a surface.
#[derive(Debug)]
pub struct HitRecord<M> {
    /// The distance along the ray at which it meets the surface.
    pub t: Scalar,
    /// The point at which it meets the surface.
    pub hit_point: Point3,
    /// The surface normal there.
    pub normal: Vec3,
    /// The texture coordinates there.
    pub texture_coordinates: (Scalar, Scalar),
    /// Whether the ray met the surface from outside.
    pub front_face: bool,
    /// The material of the surface.
    pub material: M,
}

impl<M> HitRecord<M> {
    /// A record of a hit from outside.
    pub fn new(
        t: Scalar,
        hit_point: Point3,
        normal: Vec3,
        texture_coordinates: (Scalar, Scalar),
        material: M,
    ) -> (record: Self)
        ensures
            record == (HitRecord {
                t,
                hit_point,
                normal,
                texture_coordinates,
                front_face: true,
                material,
            }),
    {
        HitRecord { t, hit_point, normal, texture_coordinates, front_face: true, material }
    }

    /// Turns the normal against the ray. `facing` is the dot product of the
    /// ray's direction with the normal as it stands: where it is negative the
    /// ray comes from outside and the normal stays, else the ray comes from
    /// inside and the normal is reversed.
    pub fn set_face_normal(&mut self, facing: Scalar)
        ensures
            final(self).front_face == facing.spec_lt(Scalar::spec_zero()),
            final(self).normal == if facing.spec_lt(Scalar::spec_zero()) {
                old(self).normal
            } else {
                old(self).normal.spec_neg()
            },
            final(self).t == old(self).t,
            final(self).hit_point == old(self).hit_point,
            final(self).texture_coordinates == old(self).texture_coordinates,
            final(self).material == old(self).material,
    {
        self.front_face = facing.lt(Scalar::zero());
        if !self.front_face {
            self.normal = self.normal.neg();
        }
    }

    /// The distance along the ray at which it meets the surface.
    pub fn t(&self) -> (t: Scalar)
        ensures
            t == self.t,
    {
        self.t
    }

    /// Replaces the distance.
    pub fn set_t(&mut self, t: Scalar)
        ensures
            *final(self) == (HitRecord { t, ..*old(self) }),
    {
        self.t = t;
    }

    /// The point at which the ray meets the surface.
    pub fn hit_point(&self) -> (hit_point: &Point3)
        ensures
            *hit_point == self.hit_point,
    {
        &self.hit_point
    }

    /// Replaces the point.
    pub fn set_hit_point(&mut self, hit_point: Point3)
        ensures
            *final(self) == (HitRecord { hit_point, ..*old(self) }),
    {
        self.hit_point = hit_point;
    }

    /// The surface normal at the hit.
    pub fn normal(&self) -> (normal: &Vec3)
        ensures
            *normal == self.normal,
    {
        &self.normal
    }

    /// Replaces the normal.
    pub fn set_normal(&mut self, normal: Vec3)
        ensures
            *final(self) == (HitRecord { normal, ..*old(self) }),
    {
        self.normal = normal;
    }

    /// The texture coordinates at the hit.
    pub fn texture_coordinates(&self) -> (coordinates: (Scalar, Scalar))
        ensures
            coordinates == self.texture_coordinates,
    {
        self.texture_coordinates
    }

    /// Whether the ray met the surface from outside.
    pub fn front_face(&self) -> (front_face: bool)
        ensures
            front_face == self.front_face,
    {
        self.front_face
    }

    /// The material of the surface.
    pub fn material(&self) -> (material: &M)
        ensures
            *material == self.material,
    {
        &self.material
    }
}

/// Something a ray can hit, with a box around it.
///
/// Both questions have one answer: `hit_model` and `bounding_box_model` say
/// what it is, and the two methods give it. An implementation that draws on
/// chance does not fit them.
pub trait Hitable {
    /// What a record says of the surface that was hit.
    type Material;

    /// The closest meeting of the ray with the object at a distance
    /// strictly between `t_min` and `t_max`, if there is one.
    open spec fn hit_model(&self, ray: Ray, t_min: Scalar, t_max: Scalar) -> Option<
        HitRecord<Self::Material>,
    > {
        arbitrary()
    }

    /// A box that holds the object throughout a span of time, if one does.
    open spec fn bounding_box_model(&self, time_interval: (Scalar, Scalar)) -> Option<Aabb> {
        arbitrary()
    }

    /// The closest meeting of the ray with the object at a distance
    /// strictly between `t_min` and `t_max`, if there is one.
    fn hit(&self, ray: &Ray, t_min: Scalar, t_max: Scalar) -> (record: Option<
        HitRecord<Self::Material>,
    >)
        ensures
            record == self.hit_model(*ray, t_min, t_max),
            record matches Some(found) ==> t_min.spec_lt(found.t) && found.t.spec_lt(t_max),
    ;

    /// A box that holds the object throughout a span of time, if one does.
    fn bounding_box(&self, time_interval: (Scalar, Scalar)) -> (bbox: Option<Aabb>)
        ensures
            bbox == self.bounding_box_model(time_interval),
            bbox matches Some(b) ==> b.wf(),
    ;
}

/// The distance that bounds the search once `found` is in hand: that of the
/// record, or the bound as it was.
pub open spec fn tightened<M>(found: Option<HitRecord<M>>, t_max: Scalar) -> Scalar {
    match found {
        Some(record) => record.t,
        None => t_max,
    }
}

/// One object after another, each asked only for what is nearer than the
/// closest hit so far; the last to answer is the result.
pub open spec fn scan<H: Hitable>(objects: Seq<H>, ray: Ray, t_min: Scalar, t_max: Scalar) -> Option<
    HitRecord<H::Material>,
>
    decreases objects.len(),
{
    if objects.len() == 0 {
        None
    } else {
        let before = scan(objects.drop_last(), ray, t_min, t_max);
        match objects.last().hit_model(ray, t_min, tightened(before, t_max)) {
            Some(record) => Some(record),
            None => before,
        }
    }
}

/// The box around the boxes of all the objects: there is none where there is
/// no object, or where one of them has no box.
pub open spec fn bounds<H: Hitable>(objects: Seq<H>, time_interval: (Scalar, Scalar)) -> Option<Aabb>
    decreases objects.len(),
{
    if objects.len() == 0 {
        None
    } else if objects.len() == 1 {
        objects[0].bounding_box_model(time_interval)
    } else {
        match (
            bounds(objects.drop_last(), time_interval),
            objects.last().bounding_box_model(time_interval),
        ) {
            (Some(a), Some(b)) => Some(Aabb::union(a, b)),
            _ => None,
        }
    }
}

/// Where the first objects have no box around them, no longer run of them has.
pub proof fn lemma_bounds_stay_none<H: Hitable>(
    objects: Seq<H>,
    time_interval: (Scalar, Scalar),
    n: int,
)
    requires
        0 < n <= objects.len(),
        bounds(objects.take(n), time_interval) is None,
    ensures
        bounds(objects, time_interval) is None,
    decreases objects.len() - n,
{
    if n < objects.len() {
        assert(objects.take(n + 1).drop_last() =~= objects.take(n));
        lemma_bounds_stay_none(objects, time_interval, n + 1);
    } else {
        assert(objects.take(n) =~= objects);
    }
}

/// The box of two boxes that may be missing: the box around both, if both
/// are there.
pub open spec fn join(a: Option<Aabb>, b: Option<Aabb>) -> Option<Aabb> {
    match (a, b) {
        (Some(a), Some(b)) => Some(Aabb::union(a, b)),
        _ => None,
    }
}

/// Whether each box that the objects of a run have is a box.
pub open spec fn boxes_wf<H: Hitable>(objects: Seq<H>, time_interval: (Scalar, Scalar)) -> bool {
    forall|i: int|
        0 <= i < objects.len() ==> ((#[trigger] objects[i]).bounding_box_model(time_interval) matches Some(
            b,
        ) ==> b.wf())
}

/// The box around boxes is a box.
pub proof fn lemma_bounds_wf<H: Hitable>(objects: Seq<H>, time_interval: (Scalar, Scalar))
    requires
        boxes_wf(objects, time_interval),
    ensures
        bounds(objects, time_interval) matches Some(b) ==> b.wf(),
    decreases objects.len(),
{
    if objects.len() > 1 {
        let head = objects.drop_last();
        assert forall|i: int| 0 <= i < head.len() implies ((#[trigger] head[i]).bounding_box_model(
            time_interval,
        ) matches Some(b) ==> b.wf()) by {
            assert(head[i] == objects[i]);
        }
        lemma_bounds_wf(head, time_interval);
        match (bounds(head, time_interval), objects.last().bounding_box_model(time_interval)) {
            (Some(a), Some(b)) => Aabb::lemma_union(a, b),
            _ => {},
        }
    }
}

/// The box around two runs of objects, one after the other, is the box
/// around the boxes of the two runs.
pub proof fn lemma_bounds_concat<H: Hitable>(
    head: Seq<H>,
    tail: Seq<H>,
    time_interval: (Scalar, Scalar),
)
    requires
        head.len() > 0,
        tail.len() > 0,
        boxes_wf(head, time_interval),
        boxes_wf(tail, time_interval),
    ensures
        bounds(head + tail, time_interval) == join(
            bounds(head, time_interval),
            bounds(tail, time_interval),
        ),
    decreases tail.len(),
{
    let all = head + tail;
    let last = tail.last();
    assert(all.last() == last);
    if tail.len() == 1 {
        assert(all.drop_last() =~= head);
        assert(tail[0] == last);
    } else {
        let shorter = tail.drop_last();
        assert(all.drop_last() =~= head + shorter);
        assert forall|i: int| 0 <= i < shorter.len() implies ((#[trigger] shorter[i]).bounding_box_model(
            time_interval,
        ) matches Some(b) ==> b.wf()) by {
            assert(shorter[i] == tail[i]);
        }
        lemma_bounds_concat(head, shorter, time_interval);
        lemma_bounds_wf(head, time_interval);
        lemma_bounds_wf(shorter, time_interval);
        assert(tail[tail.len() - 1] == last);
        match (
            bounds(head, time_interval),
            bounds(shorter, time_interval),
            last.bounding_box_model(time_interval),
        ) {
            (Some(a), Some(b), Some(c)) => Aabb::lemma_union_associates(a, b, c),
            _ => {},
        }
    }
}

/// The box around a run of objects stays what it is where one of them is
/// moved to the end.
pub proof fn lemma_bounds_move_last<H: Hitable>(
    objects: Seq<H>,
    i: int,
    time_interval: (Scalar, Scalar),
)
    requires
        0 <= i < objects.len(),
        boxes_wf(objects, time_interval),
    ensures
        bounds(objects, time_interval) == bounds(
            objects.remove(i).push(objects[i]),
            time_interval,
        ),
{
    let x = objects[i];
    let head = objects.take(i);
    let tail = objects.skip(i + 1);
    let moved = objects.remove(i).push(x);
    assert forall|k: int| 0 <= k < head.len() implies ((#[trigger] head[k]).bounding_box_model(
        time_interval,
    ) matches Some(b) ==> b.wf()) by {
        assert(head[k] == objects[k]);
    }
    assert forall|k: int| 0 <= k < tail.len() implies ((#[trigger] tail[k]).bounding_box_model(
        time_interval,
    ) matches Some(b) ==> b.wf()) by {
        assert(tail[k] == objects[i + 1 + k]);
    }
    assert(seq![x][0] == x);
    lemma_bounds_wf(head, time_interval);
    lemma_bounds_wf(tail, time_interval);
    if tail.len() == 0 {
        assert(moved =~= objects);
    } else if head.len() == 0 {
        assert(objects =~= seq![x] + tail);
        assert(moved =~= tail + seq![x]);
        lemma_bounds_concat(seq![x], tail, time_interval);
        lemma_bounds_concat(tail, seq![x], time_interval);
        match (x.bounding_box_model(time_interval), bounds(tail, time_interval)) {
            (Some(a), Some(b)) => Aabb::lemma_union_commutes(a, b),
            _ => {},
        }
    } else {
        assert(objects =~= (head + seq![x]) + tail);
        assert(moved =~= (head + tail) + seq![x]);
        assert forall|k: int| 0 <= k < (head + seq![x]).len() implies ((#[trigger] (head + seq![
            x,
        ])[k]).bounding_box_model(time_interval) matches Some(b) ==> b.wf()) by {
            assert((head + seq![x])[k] == objects[k]);
        }
        assert forall|k: int| 0 <= k < (head + tail).len() implies ((#[trigger] (head
            + tail)[k]).bounding_box_model(time_interval) matches Some(b) ==> b.wf()) by {
            if k < head.len() {
                assert((head + tail)[k] == head[k]);
            } else {
                assert((head + tail)[k] == tail[k - head.len()]);
            }
        }
        lemma_bounds_concat(head + seq![x], tail, time_interval);
        lemma_bounds_concat(head, seq![x], time_interval);
        lemma_bounds_concat(head + tail, seq![x], time_interval);
        lemma_bounds_concat(head, tail, time_interval);
        match (
            bounds(head, time_interval),
            x.bounding_box_model(time_interval),
            bounds(tail, time_interval),
        ) {
            (Some(a), Some(b), Some(c)) => {
                Aabb::lemma_union_associates(a, b, c);
                Aabb::lemma_union_commutes(b, c);
                Aabb::lemma_union_associates(a, c, b);
            },
            _ => {},
        }
    }
}

/// The box around a run of objects does not depend on their order.
pub proof fn lemma_bounds_any_order<H: Hitable>(
    one: Seq<H>,
    other: Seq<H>,
    time_interval: (Scalar, Scalar),
)
    requires
        one.to_multiset() == other.to_multiset(),
        boxes_wf(one, time_interval),
        boxes_wf(other, time_interval),
    ensures
        bounds(one, time_interval) == bounds(other, time_interval),
    decreases one.len(),
{
    broadcast use {vstd::seq_lib::group_to_multiset_ensures, vstd::multiset::group_multiset_axioms};

    vstd::seq_lib::to_multiset_len(one);
    vstd::seq_lib::to_multiset_len(other);
    if one.len() > 0 {
        let x = one.last();
        let last = one.len() - 1;
        assert(one.contains(x)) by {
            assert(one[last] == x);
        }
        vstd::seq_lib::to_multiset_contains(one, x);
        vstd::seq_lib::to_multiset_contains(other, x);
        let i = choose|i: int| 0 <= i < other.len() && other[i] == x;
        let shorter = one.drop_last();
        let rest = other.remove(i);
        assert(shorter =~= one.remove(last));
        vstd::seq_lib::to_multiset_remove(one, last);
        vstd::seq_lib::to_multiset_remove(other, i);
        assert(shorter.to_multiset() == rest.to_multiset());
        assert forall|k: int| 0 <= k < shorter.len() implies ((#[trigger] shorter[k]).bounding_box_model(
            time_interval,
        ) matches Some(b) ==> b.wf()) by {
            assert(shorter[k] == one[k]);
        }
        assert forall|k: int| 0 <= k < rest.len() implies ((#[trigger] rest[k]).bounding_box_model(
            time_interval,
        ) matches Some(b) ==> b.wf()) by {
            if k < i {
                assert(rest[k] == other[k]);
            } else {
                assert(rest[k] == other[k + 1]);
            }
        }
        lemma_bounds_any_order(shorter, rest, time_interval);
        lemma_bounds_move_last(other, i, time_interval);
        vstd::seq_lib::to_multiset_len(shorter);
        vstd::seq_lib::to_multiset_len(rest);
        assert(rest.push(x).drop_last() =~= rest);
        assert(rest.push(x).last() == x);
        if shorter.len() == 0 {
            assert(rest.push(x)[0] == x);
            assert(one[0] == x);
        }
    } else {
        assert(other.len() == 0);
    }
}

impl<H: Hitable> Hitable for Vec<H> {
    type Material = H::Material;

    open spec fn hit_model(&self, ray: Ray, t_min: Scalar, t_max: Scalar) -> Option<
        HitRecord<H::Material>,
    > {
        scan(self@, ray, t_min, t_max)
    }

    open spec fn bounding_box_model(&self, time_interval: (Scalar, Scalar)) -> Option<Aabb> {
        bounds(self@, time_interval)
    }

    fn hit(&self, ray: &Ray, t_min: Scalar, t_max: Scalar) -> (record: Option<
        HitRecord<H::Material>,
    >) {
        let mut closest_record: Option<HitRecord<H::Material>> = None;
        let mut closest_t = t_max;
        let mut i: usize = 0;
        while i < self.len()
            invariant
                i <= self.len(),
                closest_record == scan(self@.take(i as int), *ray, t_min, t_max),
                closest_t == tightened(closest_record, t_max),
                closest_record matches Some(found) ==> t_min.spec_lt(found.t) && found.t.spec_lt(
                    t_max,
                ),
            decreases self.len() - i,
        {
            proof {
                assert(self@.take(i + 1).drop_last() =~= self@.take(i as int));
                assert(self@.take(i + 1).last() == self@[i as int]);
            }
            match self[i].hit(ray, t_min, closest_t) {
                Some(record) => {
                    closest_t = record.t;
                    closest_record = Some(record);
                },
                None => {},
            }
            i += 1;
        }
        proof {
            assert(self@.take(i as int) =~= self@);
        }
        closest_record
    }

    fn bounding_box(&self, time_interval: (Scalar, Scalar)) -> (bbox: Option<Aabb>) {
        if self.len() == 0 {
            return None;
        }
        let mut acc = match self[0].bounding_box(time_interval) {
            Some(first) => first,
            None => {
                proof {
                    assert(self@.take(1) =~= seq![self@[0]]);
                    lemma_bounds_stay_none(self@, time_interval, 1);
                }
                return None;
            },
        };
        let mut i: usize = 1;
        proof {
            assert(self@.take(1) =~= seq![self@[0]]);
        }
        while i < self.len()
            invariant
                1 <= i <= self.len(),
                bounds(self@.take(i as int), time_interval) == Some(acc),
                acc.wf(),
            decreases self.len() - i,
        {
            proof {
                assert(self@.take(i + 1).drop_last() =~= self@.take(i as int));
                assert(self@.take(i + 1).last() == self@[i as int]);
            }
            match self[i].bounding_box(time_interval) {
                Some(bounding_box) => {
                    acc = Aabb::surrounding_box(&acc, &bounding_box);
                },
                None => {
                    proof {
                        lemma_bounds_stay_none(self@, time_interval, i + 1);
                    }
                    return None;
                },
            }
            i += 1;
        }
        proof {
            assert(self@.take(i as int) =~= self@);
            Aabb::lemma_corners(acc.spec_min(), acc.spec_max());
        }
        Some(acc)
    }
}

} // verus!
