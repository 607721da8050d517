//! What a material does with a ray.

use vstd::prelude::*;
use crate::hitable::HitRecord;
use crate::ray::Ray;
use crate::scalar::Scalar;
use crate::vec::{Point3, Vec3};

verus! {

/// A material: it may send a ray that hits it on in a new direction, and it
/// may give off light of its own. Which way a ray goes on may be left to
/// chance, so nothing is promised of that answer. A material gives off no
/// light unless it says that it glows; one that glows says itself what light
/// it gives off.
pub trait Material: Sized {
    /// Whether the material gives off light of its own: it does not, unless
    /// the material says otherwise.
    open spec fn glows(&self) -> bool {
        false
    }

    /// The ray that goes on from a hit, and how much of each colour it keeps;
    /// or nothing, where the ray ends at the surface.
    fn scatter(&self, ray: &Ray, record: &HitRecord<Self>) -> (scattered: Option<(Ray, Vec3)>);

    /// The light that the material gives off at a place: none, for a
    /// material that does not glow.
    fn emitted(&self, texture_coordinates: (Scalar, Scalar), p: &Point3) -> (color: Vec3)
        ensures
            !self.glows() ==> color == Vec3::spec_zero(),
    {
        Vec3::zero()
    }
}

} // verus!
