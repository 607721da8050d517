//! A matt surface.

use vstd::prelude::*;
use crate::hitable::HitRecord;
use crate::ray::Ray;
use crate::scalar::Scalar;
use crate::textures::monochrome::Monochrome;
use crate::textures::texture::Texture;
use crate::vec::Vec3;

verus! {

/// A matt material: it sends a ray on in a direction spread about the
/// normal, tinted by a pattern.
#[derive(Debug)]
pub struct Lambertian<T: Texture> {
    albedo: T,
}

impl<T: Texture> Lambertian<T> {
    /// The pattern that tints what the surface sends on.
    pub closed spec fn albedo(&self) -> T {
        self.albedo
    }

    /// A matt material tinted by a pattern.
    pub fn new(texture: T) -> (material: Self)
        ensures
            material.albedo() == texture,
    {
        Lambertian { albedo: texture }
    }

    /// The ray that goes on from a hit. `candidate` is the normal plus a
    /// unit vector drawn at random; where it is near zero the ray goes on
    /// along the normal instead. The ray starts at the hit, at the time of
    /// the ray that came in, and keeps the pattern's colour at the hit. The
    /// normal is not the zero vector.
    pub fn scatter<R>(&self, ray: &Ray, record: &HitRecord<R>, candidate: Vec3) -> (scattered: Option<
        (Ray, Vec3),
    >)
        requires
            !record.normal.same(Vec3::spec_zero()),
        ensures
            scattered matches Some((onward, attenuation)) && {
                &&& onward.origin() == record.hit_point
                &&& onward.direction() == if candidate.near_zero() {
                    record.normal
                } else {
                    candidate
                }
                &&& onward.time() == ray.time()
                &&& attenuation == self.albedo().value_model(
                    record.texture_coordinates,
                    record.hit_point,
                )
            },
    {
        let mut scatter_direction = candidate;
        if scatter_direction.is_near_zero() {
            scatter_direction = *record.normal();
        }
        proof {
            if candidate.same(Vec3::spec_zero()) {
                Vec3::lemma_zero_is_near_zero(candidate);
            }
        }
        Some(
            (
                Ray::new(*record.hit_point(), scatter_direction, ray.get_time()),
                self.albedo.value_from_hit(record),
            ),
        )
    }
}

impl Lambertian<Monochrome> {
    /// A matt material of one colour, given by its red, green and blue, each
    /// a number.
    pub fn from_rgb(red: Scalar, green: Scalar, blue: Scalar) -> (material: Self)
        requires
            !red.spec_is_nan(),
            !green.spec_is_nan(),
            !blue.spec_is_nan(),
        ensures
            material.albedo().color() == (Vec3 { x: red, y: green, z: blue }),
    {
        Self::new(Monochrome::from_rgb(red, green, blue))
    }
}

impl Default for Lambertian<Monochrome> {
    /// A matt black.
    fn default() -> (material: Self)
        ensures
            material.albedo().color() == Vec3::spec_zero(),
    {
        Self::from_rgb(Scalar::zero(), Scalar::zero(), Scalar::zero())
    }
}

} // verus!
