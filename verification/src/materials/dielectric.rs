//! A clear surface.

use vstd::prelude::*;
use crate::hitable::HitRecord;
use crate::ray::Ray;
use crate::scalar::Scalar;
use crate::vec::Vec3;

verus! {

/// The pattern of the refractive index of water.
pub const WATER_REFRACTIVE_INDEX_BITS: u32 = 0x3faa_9fbe;

/// The pattern of the refractive index of diamond.
pub const DIAMOND_REFRACTIVE_INDEX_BITS: u32 = 0x401a_b021;

/// A clear material, which bends some rays and mirrors others.
#[derive(Clone, Copy, Debug)]
pub struct Dielectric {
    refractive_index: Scalar,
}

impl Dielectric {
    /// The refractive index.
    pub closed spec fn refractive_index(&self) -> Scalar {
        self.refractive_index
    }

    /// A clear material of a refractive index, which is at least one.
    pub fn new(refractive_index: Scalar) -> (material: Self)
        requires
            Scalar::spec_one().spec_le(refractive_index),
        ensures
            material.refractive_index() == refractive_index,
    {
        Dielectric { refractive_index }
    }

    /// Water.
    pub fn water() -> (material: Self)
        ensures
            material.refractive_index().bits == WATER_REFRACTIVE_INDEX_BITS,
    {
        let index = Scalar::from_bits(WATER_REFRACTIVE_INDEX_BITS);
        proof {
            assert(0x3faa_9fbeu32 & 0x7fff_ffffu32 == 0x3faa_9fbeu32) by (bit_vector);
            assert(0x3faa_9fbeu32 & 0x8000_0000u32 == 0) by (bit_vector);
            assert(0x3f80_0000u32 & 0x7fff_ffffu32 == 0x3f80_0000u32) by (bit_vector);
            assert(0x3f80_0000u32 & 0x8000_0000u32 == 0) by (bit_vector);
        }
        Self::new(index)
    }

    /// Diamond.
    pub fn diamond() -> (material: Self)
        ensures
            material.refractive_index().bits == DIAMOND_REFRACTIVE_INDEX_BITS,
    {
        let index = Scalar::from_bits(DIAMOND_REFRACTIVE_INDEX_BITS);
        proof {
            assert(0x401a_b021u32 & 0x7fff_ffffu32 == 0x401a_b021u32) by (bit_vector);
            assert(0x401a_b021u32 & 0x8000_0000u32 == 0) by (bit_vector);
            assert(0x3f80_0000u32 & 0x7fff_ffffu32 == 0x3f80_0000u32) by (bit_vector);
            assert(0x3f80_0000u32 & 0x8000_0000u32 == 0) by (bit_vector);
        }
        Self::new(index)
    }

    /// The refractive index.
    pub fn get_refractive_index(&self) -> (index: Scalar)
        ensures
            index == self.refractive_index(),
    {
        self.refractive_index
    }

    /// Whether a ray is mirrored rather than bent: it is where it cannot be
    /// bent at all, and else where the share of light that the surface
    /// mirrors at this angle lies above a number drawn at random.
    pub fn reflects(cannot_refract: bool, reflectance: Scalar, draw: Scalar) -> (mirrored: bool)
        ensures
            mirrored == (cannot_refract || draw.spec_lt(reflectance)),
    {
        cannot_refract || reflectance.gt(draw)
    }

    /// The ray that goes on from a hit in `direction`, the mirrored or the
    /// bent one, which is not the zero vector. It starts at the hit, at the
    /// time of the ray that came in, and keeps all of its light: a clear
    /// material darkens nothing.
    pub fn scatter<R>(&self, ray: &Ray, record: &HitRecord<R>, direction: Vec3) -> (scattered: Option<
        (Ray, Vec3),
    >)
        requires
            !direction.same(Vec3::spec_zero()),
        ensures
            scattered matches Some((onward, attenuation)) && {
                &&& onward.origin() == record.hit_point
                &&& onward.direction() == direction
                &&& onward.time() == ray.time()
                &&& attenuation == Vec3::spec_white()
            },
    {
        let attenuation = Vec3::white();
        let scattered = Ray::new(*record.hit_point(), direction, ray.get_time());
        Some((scattered, attenuation))
    }
}

} // verus!
