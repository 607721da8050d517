//! The stuff of a fog.

use vstd::prelude::*;
use crate::hitable::HitRecord;
use crate::ray::Ray;
use crate::textures::texture::Texture;
use crate::vec::Vec3;

verus! {

/// A material that sends a ray on in any direction alike, tinted by a
/// pattern.
#[derive(Debug)]
pub struct Isotropic<T: Texture> {
    albedo: T,
}

impl<T: Texture> Isotropic<T> {
    /// The pattern that tints what the material sends on.
    pub closed spec fn albedo(&self) -> T {
        self.albedo
    }

    /// A material tinted by a pattern.
    pub fn new(texture: T) -> (material: Self)
        ensures
            material.albedo() == texture,
    {
        Isotropic { albedo: texture }
    }

    /// The ray that goes on from a hit in `direction`, a point drawn at
    /// random from within the unit sphere, which is not the zero vector. It
    /// starts at the hit, at the time of the ray that came in, and keeps the
    /// pattern's colour at the hit.
    pub fn scatter<R>(&self, ray: &Ray, record: &HitRecord<R>, direction: Vec3) -> (scattered: Option<
        (Ray, Vec3),
    >)
        requires
            !direction.same(Vec3::spec_zero()),
        ensures
            scattered matches Some((onward, attenuation)) && {
                &&& onward.origin() == record.hit_point
                &&& onward.direction() == direction
                &&& onward.time() == ray.time()
                &&& attenuation == self.albedo().value_model(
                    record.texture_coordinates,
                    record.hit_point,
                )
            },
    {
        Some(
            (
                Ray::new(*record.hit_point(), direction, ray.get_time()),
                self.albedo.value_from_hit(record),
            ),
        )
    }
}

} // verus!
