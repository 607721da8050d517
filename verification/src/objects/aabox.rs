//! Boxes with sides along the axes.

use vstd::prelude::*;
use vstd::pervasive::cloned;
use crate::aabb::Aabb;
use crate::hitable::{tightened, HitRecord};
use crate::objects::aarect::{XyRect, XzRect, YzRect};
use crate::ray::Ray;
use crate::scalar::Scalar;
use crate::vec::Point3;

verus! {

/// The number of faces of a box.
pub const FACES: usize = 6;

/// Whether a function can be asked for the hit of every ray on each face of
/// a box within every range, and answers the same question always alike.
/// The faces are counted from the back: back, front, bottom, top, left,
/// right.
pub open spec fn face_source<M, F: Fn(usize, Ray, Scalar, Scalar) -> Option<HitRecord<M>>>(
    face: F,
) -> bool {
    &&& forall|index: usize, ray: Ray, t_min: Scalar, t_max: Scalar|
        index < FACES ==> call_requires(face, (index, ray, t_min, t_max))
    &&& forall|
        index: usize,
        ray: Ray,
        t_min: Scalar,
        t_max: Scalar,
        a: Option<HitRecord<M>>,
        b: Option<HitRecord<M>>,
    |
        call_ensures(face, (index, ray, t_min, t_max), a) && call_ensures(
            face,
            (index, ray, t_min, t_max),
            b,
        ) ==> a == b
}

/// What a function answers for the hit of a ray on a face.
pub open spec fn face_hit<M, F: Fn(usize, Ray, Scalar, Scalar) -> Option<HitRecord<M>>>(
    face: F,
    index: usize,
    ray: Ray,
    t_min: Scalar,
    t_max: Scalar,
) -> Option<HitRecord<M>> {
    choose|record: Option<HitRecord<M>>| call_ensures(face, (index, ray, t_min, t_max), record)
}

/// The nearest hit of a ray on the first faces of a box: one face after
/// another, each asked only for what is nearer than the closest hit so far;
/// the last to answer is the result.
pub open spec fn nearest_face<M, F: Fn(usize, Ray, Scalar, Scalar) -> Option<HitRecord<M>>>(
    face: F,
    count: nat,
    ray: Ray,
    t_min: Scalar,
    t_max: Scalar,
) -> Option<HitRecord<M>>
    decreases count,
{
    if count == 0 {
        None
    } else {
        let before = nearest_face(face, (count - 1) as nat, ray, t_min, t_max);
        match face_hit(face, (count - 1) as usize, ray, t_min, tightened(before, t_max)) {
            Some(record) => Some(record),
            None => before,
        }
    }
}

/// A box with sides along the axes: six rectangles, one for each face.
#[derive(Debug)]
pub struct AaBox<M> {
    /// The corner with the smallest coordinates.
    pub min: Point3,
    /// The corner with the largest coordinates.
    pub max: Point3,
    /// The face at the smallest z.
    pub back: XyRect<M>,
    /// The face at the largest z.
    pub front: XyRect<M>,
    /// The face at the smallest y.
    pub bottom: XzRect<M>,
    /// The face at the largest y.
    pub top: XzRect<M>,
    /// The face at the smallest x.
    pub left: YzRect<M>,
    /// The face at the largest x.
    pub right: YzRect<M>,
}

impl<M: Clone> AaBox<M> {
    /// Each face lies in the plane of one corner, and spans between the two
    /// corners along the two axes of that plane.
    pub open spec fn wf(&self) -> bool {
        let min = self.min;
        let max = self.max;
        &&& min.wf() && max.wf() && min.all_le(max)
        &&& self.back.x == (min.x, max.x) && self.back.y == (min.y, max.y) && self.back.k == min.z
        &&& self.front.x == (min.x, max.x) && self.front.y == (min.y, max.y) && self.front.k
            == max.z
        &&& self.bottom.x == (min.x, max.x) && self.bottom.z == (min.z, max.z) && self.bottom.k
            == min.y
        &&& self.top.x == (min.x, max.x) && self.top.z == (min.z, max.z) && self.top.k == max.y
        &&& self.left.y == (min.y, max.y) && self.left.z == (min.z, max.z) && self.left.k == min.x
        &&& self.right.y == (min.y, max.y) && self.right.z == (min.z, max.z) && self.right.k
            == max.x
    }

    /// The box between two opposite corners, the smaller one first, of one
    /// material on all its faces: each face has the material or a clone of
    /// it.
    pub fn new(min: Point3, max: Point3, material: M) -> (aabox: Self)
        requires
            min.wf(),
            max.wf(),
            min.all_le(max),
        ensures
            aabox.wf(),
            aabox.min == min,
            aabox.max == max,
            cloned(material, aabox.back.material),
            cloned(material, aabox.front.material),
            cloned(material, aabox.bottom.material),
            cloned(material, aabox.top.material),
            cloned(material, aabox.left.material),
            aabox.right.material == material,
    {
        AaBox {
            min,
            max,
            back: XyRect::new((min.x, max.x), (min.y, max.y), min.z, material.clone()),
            front: XyRect::new((min.x, max.x), (min.y, max.y), max.z, material.clone()),
            bottom: XzRect::new((min.x, max.x), (min.z, max.z), min.y, material.clone()),
            top: XzRect::new((min.x, max.x), (min.z, max.z), max.y, material.clone()),
            left: YzRect::new((min.y, max.y), (min.z, max.z), min.x, material.clone()),
            right: YzRect::new((min.y, max.y), (min.z, max.z), max.x, material),
        }
    }

    /// The nearest hit of a ray on the six faces, at a distance strictly
    /// between `t_min` and `t_max`. `face` tells the hit of a ray on one face
    /// within a range; the faces are asked one after another, each only for
    /// what is nearer than the closest hit so far.
    pub fn hit<F: Fn(usize, Ray, Scalar, Scalar) -> Option<HitRecord<M>>>(
        &self,
        ray: &Ray,
        t_min: Scalar,
        t_max: Scalar,
        face: &F,
    ) -> (record: Option<HitRecord<M>>)
        requires
            face_source(*face),
        ensures
            record == nearest_face(*face, FACES as nat, *ray, t_min, t_max),
    {
        let mut closest_record: Option<HitRecord<M>> = None;
        let mut closest_t = t_max;
        let mut i: usize = 0;
        while i < FACES
            invariant
                i <= FACES,
                face_source(*face),
                closest_record == nearest_face(*face, i as nat, *ray, t_min, t_max),
                closest_t == tightened(closest_record, t_max),
            decreases FACES - i,
        {
            match face(i, *ray, t_min, closest_t) {
                Some(record) => {
                    closest_t = record.t;
                    closest_record = Some(record);
                },
                None => {},
            }
            i += 1;
        }
        closest_record
    }

    /// The box around it: the box between its two corners.
    pub fn bounding_box(&self) -> (bbox: Option<Aabb>)
        requires
            self.wf(),
        ensures
            bbox == Some(Aabb::from_corners(self.min, self.max)),
    {
        Some(Aabb::new(self.min, self.max))
    }
}

} // verus!
