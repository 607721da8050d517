//! What a surface pattern answers.

use vstd::prelude::*;
use crate::hitable::HitRecord;
use crate::scalar::Scalar;
use crate::vec::{Point3, Vec3};

verus! {

/// A pattern: a colour for each place on a surface.
///
/// The colour at a place is one: `value_model` says which, and `value` gives
/// it.
pub trait Texture {
    /// The colour at a pair of texture coordinates and a point in space.
    open spec fn value_model(&self, texture_coordinates: (Scalar, Scalar), p: Point3) -> Vec3 {
        arbitrary()
    }

    /// The colour at a pair of texture coordinates and a point in space.
    fn value(&self, texture_coordinates: (Scalar, Scalar), p: &Point3) -> (color: Vec3)
        ensures
            color == self.value_model(texture_coordinates, *p),
    ;

    /// The colour at the place of a hit.
    fn value_from_hit<M>(&self, record: &HitRecord<M>) -> (color: Vec3)
        ensures
            color == self.value_model(record.texture_coordinates, record.hit_point),
    {
        self.value(record.texture_coordinates(), record.hit_point())
    }
}

} // verus!
