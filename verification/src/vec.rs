//! Vectors of three numbers.

use vstd::prelude::*;
use crate::scalar::Scalar;

verus! {

/// The pattern of the bound below which a coordinate counts as near zero.
pub const NEAR_ZERO_BITS: u32 = 0x322b_cc77;

/// A vector of three numbers.
#[derive(Clone, Copy, Debug)]
pub struct Vec3 {
    /// Coordinate along the x-axis.
    pub x: Scalar,
    /// Coordinate along the y-axis.
    pub y: Scalar,
    /// Coordinate along the z-axis.
    pub z: Scalar,
}

/// A point in space.
pub type Point3 = Vec3;

/// A colour, one number for each of red, green and blue.
pub type Color3 = Vec3;

impl Vec3 {
    /// Every coordinate is a number.
    pub open spec fn wf(self) -> bool {
        !self.x.spec_is_nan() && !self.y.spec_is_nan() && !self.z.spec_is_nan()
    }

    /// The coordinate along an axis: 0 for x, 1 for y, 2 for z.
    pub open spec fn axis(self, index: int) -> Scalar {
        if index == 0 {
            self.x
        } else if index == 1 {
            self.y
        } else {
            self.z
        }
    }

    /// The vector of three zeros.
    pub open spec fn spec_zero() -> Vec3 {
        Vec3 { x: Scalar::spec_zero(), y: Scalar::spec_zero(), z: Scalar::spec_zero() }
    }

    /// Coordinate by coordinate, the opposite sign.
    pub open spec fn spec_neg(self) -> Vec3 {
        Vec3 { x: self.x.spec_neg(), y: self.y.spec_neg(), z: self.z.spec_neg() }
    }

    /// Coordinate by coordinate, the sign removed.
    pub open spec fn spec_abs(self) -> Vec3 {
        Vec3 { x: self.x.spec_abs(), y: self.y.spec_abs(), z: self.z.spec_abs() }
    }

    /// Coordinate by coordinate, the smaller.
    pub open spec fn spec_min(self, v: Vec3) -> Vec3 {
        Vec3 { x: self.x.spec_min(v.x), y: self.y.spec_min(v.y), z: self.z.spec_min(v.z) }
    }

    /// Coordinate by coordinate, the larger.
    pub open spec fn spec_max(self, v: Vec3) -> Vec3 {
        Vec3 { x: self.x.spec_max(v.x), y: self.y.spec_max(v.y), z: self.z.spec_max(v.z) }
    }

    /// Coordinate by coordinate, less or equal.
    pub open spec fn all_le(self, v: Vec3) -> bool {
        self.x.spec_le(v.x) && self.y.spec_le(v.y) && self.z.spec_le(v.z)
    }

    /// Coordinate by coordinate, equal as numbers.
    pub open spec fn same(self, v: Vec3) -> bool {
        self.x.same(v.x) && self.y.same(v.y) && self.z.same(v.z)
    }

    /// Whether every coordinate is a number that lies, without its sign,
    /// below the bound near zero.
    pub open spec fn near_zero(&self) -> bool {
        &&& self.wf()
        &&& self.x.magnitude() < NEAR_ZERO_BITS
        &&& self.y.magnitude() < NEAR_ZERO_BITS
        &&& self.z.magnitude() < NEAR_ZERO_BITS
    }

    /// The vector of three ones: as a colour, white.
    pub open spec fn spec_white() -> Vec3 {
        Vec3 { x: Scalar::spec_one(), y: Scalar::spec_one(), z: Scalar::spec_one() }
    }

    /// A vector of zeros, of either sign, is near zero.
    pub proof fn lemma_zero_is_near_zero(v: Vec3)
        requires
            v.same(Self::spec_zero()),
        ensures
            v.near_zero(),
    {
        Scalar::lemma_key_range(v.x);
        Scalar::lemma_key_range(v.y);
        Scalar::lemma_key_range(v.z);
        assert(0u32 & 0x7fff_ffffu32 == 0) by (bit_vector);
        assert(0u32 & 0x8000_0000u32 == 0) by (bit_vector);
    }

    /// A vector from its three coordinates, each of them a number.
    pub fn new(x: Scalar, y: Scalar, z: Scalar) -> (v: Self)
        requires
            !x.spec_is_nan(),
            !y.spec_is_nan(),
            !z.spec_is_nan(),
        ensures
            v == (Vec3 { x, y, z }),
            v.wf(),
    {
        Vec3 { x, y, z }
    }

    /// The vector of three zeros.
    #[verifier::when_used_as_spec(spec_zero)]
    pub fn zero() -> (v: Self)
        ensures
            v == Self::spec_zero(),
            v.wf(),
    {
        Vec3 { x: Scalar::zero(), y: Scalar::zero(), z: Scalar::zero() }
    }

    /// The vector of three ones: as a colour, white.
    pub fn white() -> (v: Self)
        ensures
            v == Self::spec_white(),
            v.wf(),
    {
        Vec3 { x: Scalar::one(), y: Scalar::one(), z: Scalar::one() }
    }

    /// Whether every coordinate is a zero, of either sign.
    pub fn is_zero(&self) -> (b: bool)
        ensures
            b == (self.x.key() == 0 && self.y.key() == 0 && self.z.key() == 0),
            b == self.same(Self::spec_zero()),
    {
        self.x.is_zero() && self.y.is_zero() && self.z.is_zero()
    }

    /// Whether every coordinate is, without its sign, below the bound near
    /// zero.
    pub fn is_near_zero(&self) -> (b: bool)
        ensures
            b == self.near_zero(),
    {
        let bound = Scalar::from_bits(NEAR_ZERO_BITS);
        proof {
            assert(0x322b_cc77u32 & 0x7fff_ffffu32 == 0x322b_cc77u32) by (bit_vector);
            assert(0x322b_cc77u32 & 0x8000_0000u32 == 0) by (bit_vector);
            assert(bound.key() == NEAR_ZERO_BITS);
            Scalar::lemma_key_range(self.x);
            Scalar::lemma_key_range(self.y);
            Scalar::lemma_key_range(self.z);
        }
        self.x.abs().lt(bound) && self.y.abs().lt(bound) && self.z.abs().lt(bound)
    }

    /// Coordinate by coordinate, the sign removed.
    pub fn abs(&self) -> (v: Self)
        ensures
            v == self.spec_abs(),
            self.wf() ==> v.wf(),
    {
        Vec3 { x: self.x.abs(), y: self.y.abs(), z: self.z.abs() }
    }

    /// Coordinate by coordinate, the opposite sign.
    pub fn neg(&self) -> (v: Self)
        ensures
            v == self.spec_neg(),
            self.wf() ==> v.wf(),
    {
        Vec3 { x: self.x.neg(), y: self.y.neg(), z: self.z.neg() }
    }

    /// Coordinate by coordinate, the smaller.
    pub fn min(&self, v: &Self) -> (m: Self)
        ensures
            m == self.spec_min(*v),
            self.wf() && v.wf() ==> m.wf(),
    {
        proof {
            if self.wf() && v.wf() {
                Scalar::lemma_min_max(self.x, v.x);
                Scalar::lemma_min_max(self.y, v.y);
                Scalar::lemma_min_max(self.z, v.z);
            }
        }
        Vec3 { x: self.x.min(v.x), y: self.y.min(v.y), z: self.z.min(v.z) }
    }

    /// Coordinate by coordinate, the larger.
    pub fn max(&self, v: &Self) -> (m: Self)
        ensures
            m == self.spec_max(*v),
            self.wf() && v.wf() ==> m.wf(),
    {
        proof {
            if self.wf() && v.wf() {
                Scalar::lemma_min_max(self.x, v.x);
                Scalar::lemma_min_max(self.y, v.y);
                Scalar::lemma_min_max(self.z, v.z);
            }
        }
        Vec3 { x: self.x.max(v.x), y: self.y.max(v.y), z: self.z.max(v.z) }
    }

    /// The coordinate along an axis: 0 for x, 1 for y, 2 for z.
    pub fn index(&self, index: usize) -> (c: Scalar)
        requires
            index < 3,
        ensures
            c == self.axis(index as int),
    {
        [self.x, self.y, self.z][index]
    }

    /// The coordinate along an axis, to be written.
    pub fn index_mut(&mut self, index: usize) -> (c: &mut Scalar)
        requires
            index < 3,
        ensures
            *c == old(self).axis(index as int),
            index == 0 ==> *final(self) == (Vec3 { x: *final(c), ..*old(self) }),
            index == 1 ==> *final(self) == (Vec3 { y: *final(c), ..*old(self) }),
            index == 2 ==> *final(self) == (Vec3 { z: *final(c), ..*old(self) }),
    {
        if index == 0 {
            &mut self.x
        } else if index == 1 {
            &mut self.y
        } else {
            &mut self.z
        }
    }
}

impl Default for Vec3 {
    /// The vector of three zeros.
    fn default() -> (v: Self)
        ensures
            v == Self::spec_zero(),
    {
        Vec3::zero()
    }
}

impl PartialEq for Vec3 {
    /// Equality of the coordinates as numbers.
    fn eq(&self, other: &Self) -> (b: bool) {
        self.x.equals(other.x) && self.y.equals(other.y) && self.z.equals(other.z)
    }
}

impl vstd::std_specs::cmp::PartialEqSpecImpl for Vec3 {
    open spec fn obeys_eq_spec() -> bool {
        true
    }

    open spec fn eq_spec(&self, other: &Self) -> bool {
        self.same(*other)
    }
}

} // verus!
