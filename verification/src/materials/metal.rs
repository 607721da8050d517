//! A mirroring surface.

use vstd::prelude::*;
use crate::hitable::HitRecord;
use crate::ray::Ray;
use crate::scalar::Scalar;
use crate::vec::{Color3, Vec3};

verus! {

/// A mirroring material, more or less blurred.
#[derive(Clone, Copy, Debug)]
pub struct Metal {
    albedo: Color3,
    fuzziness: Scalar,
}

impl Metal {
    /// The colour that the mirror tints with.
    pub closed spec fn albedo(&self) -> Color3 {
        self.albedo
    }

    /// How far the mirrored direction is blurred, from zero to one.
    pub closed spec fn fuzziness(&self) -> Scalar {
        self.fuzziness
    }

    /// A mirroring material of a colour. The blur is held between zero and
    /// one.
    pub fn new(albedo: Color3, fuzziness: Scalar) -> (material: Self)
        ensures
            material.albedo() == albedo,
            material.fuzziness() == fuzziness.spec_clamp(Scalar::spec_zero(), Scalar::spec_one()),
            !fuzziness.spec_is_nan() ==> Scalar::spec_zero().spec_le(material.fuzziness())
                && material.fuzziness().spec_le(Scalar::spec_one()),
    {
        Metal { albedo, fuzziness: fuzziness.clamp(Scalar::zero(), Scalar::one()) }
    }

    /// How far the mirrored direction is blurred.
    pub fn get_fuzziness(&self) -> (fuzziness: Scalar)
        ensures
            fuzziness == self.fuzziness(),
    {
        self.fuzziness
    }

    /// The ray that goes on from a hit. `direction` is the mirrored direction
    /// with its blur, and `facing` its dot product with the normal: the ray
    /// goes on where that is above zero, and ends in the surface otherwise.
    /// It starts at the hit, at the time of the ray that came in, and keeps
    /// the mirror's colour.
    pub fn scatter<R>(
        &self,
        ray: &Ray,
        record: &HitRecord<R>,
        direction: Vec3,
        facing: Scalar,
    ) -> (scattered: Option<(Ray, Vec3)>)
        ensures
            scattered is Some <==> Scalar::spec_zero().spec_lt(facing) && !direction.same(
                Vec3::spec_zero(),
            ),
            scattered matches Some((onward, attenuation)) ==> {
                &&& onward.origin() == record.hit_point
                &&& onward.direction() == direction
                &&& onward.time() == ray.time()
                &&& attenuation == self.albedo()
            },
    {
        if facing.gt(Scalar::zero()) && !direction.is_zero() {
            Some((Ray::new(*record.hit_point(), direction, ray.get_time()), self.albedo))
        } else {
            None
        }
    }
}

impl Default for Metal {
    /// A black mirror without blur.
    fn default() -> (material: Self)
        ensures
            material.albedo() == Vec3::spec_zero(),
            material.fuzziness() == Scalar::spec_zero(),
    {
        Metal { albedo: Vec3::zero(), fuzziness: Scalar::zero() }
    }
}

} // verus!
