//! A volume together with the box around it.

use vstd::prelude::*;
use crate::aabb::Aabb;
use crate::hitable::{HitRecord, Hitable};
use crate::ray::Ray;
use crate::scalar::Scalar;

verus! {

/// The pattern of the moment at which the span of time ends over which an
/// object's box is taken: a tenth.
pub const SPAN_END_BITS: u32 = 0x3dcc_cccd;

/// The span of time over which an object's box is taken.
pub open spec fn span() -> (Scalar, Scalar) {
    (Scalar { bits: 0 }, Scalar { bits: SPAN_END_BITS })
}

/// A volume, and the box around it, worked out once.
#[derive(Debug)]
pub struct Object<H: Hitable> {
    volume: H,
    bbox: Option<Aabb>,
}

impl<H: Hitable> Object<H> {
    #[verifier::type_invariant]
    pub open spec fn inv(self) -> bool {
        self.wf()
    }

    /// The volume.
    pub closed spec fn volume(self) -> H {
        self.volume
    }

    /// The box around the volume, if it has one.
    pub closed spec fn bbox(self) -> Option<Aabb> {
        self.bbox
    }

    /// The box, where there is one, is a box.
    pub open spec fn wf(self) -> bool {
        self.bbox() matches Some(b) ==> b.wf()
    }

    /// An object of a volume; its box is the volume's over the span from zero
    /// to a tenth.
    pub fn new(volume: H) -> (object: Self)
        ensures
            object.volume() == volume,
            object.bbox() == volume.bounding_box_model(span()),
            object.wf(),
    {
        let bbox = volume.bounding_box((Scalar::from_bits(0), Scalar::from_bits(SPAN_END_BITS)));
        Object { volume, bbox }
    }
}

impl<H: Hitable> Hitable for Object<H> {
    type Material = H::Material;

    /// What the volume answers.
    open spec fn hit_model(&self, ray: Ray, t_min: Scalar, t_max: Scalar) -> Option<
        HitRecord<H::Material>,
    > {
        self.volume().hit_model(ray, t_min, t_max)
    }

    /// The box worked out when the object was made, whatever the span.
    open spec fn bounding_box_model(&self, time_interval: (Scalar, Scalar)) -> Option<Aabb> {
        self.bbox()
    }

    fn hit(&self, ray: &Ray, t_min: Scalar, t_max: Scalar) -> (record: Option<
        HitRecord<H::Material>,
    >) {
        self.volume.hit(ray, t_min, t_max)
    }

    fn bounding_box(&self, _time_interval: (Scalar, Scalar)) -> (bbox: Option<Aabb>) {
        proof {
            use_type_invariant(self);
        }
        self.bbox
    }
}

} // verus!
