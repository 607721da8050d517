//! Rectangles that lie in a plane across one axis.

use vstd::prelude::*;
use crate::scalar::Scalar;
use crate::vec::Vec3;

verus! {

/// Whether a coordinate lies between two bounds, both counted in.
pub open spec fn between(c: Scalar, bounds: (Scalar, Scalar)) -> bool {
    !c.spec_lt(bounds.0) && !bounds.1.spec_lt(c)
}

/// Whether a ray meets a rectangle: it reaches the rectangle's plane at a
/// distance within the range, neither end counted in, and passes it at a
/// place within the rectangle's sides, both ends of a side counted in.
pub open spec fn meets(
    t: Scalar,
    t_min: Scalar,
    t_max: Scalar,
    a: Scalar,
    side_a: (Scalar, Scalar),
    b: Scalar,
    side_b: (Scalar, Scalar),
) -> bool {
    &&& t_min.spec_lt(t) && t.spec_lt(t_max)
    &&& between(a, side_a)
    &&& between(b, side_b)
}

/// Whether a ray meets a rectangle, given the distance at which it reaches
/// the rectangle's plane and the two coordinates at which it passes it.
fn rect_meets(
    t: Scalar,
    t_min: Scalar,
    t_max: Scalar,
    a: Scalar,
    side_a: (Scalar, Scalar),
    b: Scalar,
    side_b: (Scalar, Scalar),
) -> (met: bool)
    ensures
        met == meets(t, t_min, t_max, a, side_a, b, side_b),
{
    if !(t_min.lt(t) && t.lt(t_max)) {
        return false;
    }
    if a.lt(side_a.0) || a.gt(side_a.1) || b.lt(side_b.0) || b.gt(side_b.1) {
        return false;
    }
    true
}

/// A rectangle in a plane of constant z.
#[derive(Debug)]
pub struct XyRect<M> {
    /// From where to where the rectangle runs along x.
    pub x: (Scalar, Scalar),
    /// From where to where it runs along y.
    pub y: (Scalar, Scalar),
    /// The z of its plane.
    pub k: Scalar,
    /// What it is made of.
    pub material: M,
}

impl<M> XyRect<M> {
    /// The normal of the rectangle before it is turned against a ray: the
    /// unit vector along z, across its plane.
    pub fn normal(&self) -> (n: Vec3)
        ensures
            n == (Vec3 { x: Scalar::spec_zero(), y: Scalar::spec_zero(), z: Scalar::spec_one() }),
            n.wf(),
            !n.same(Vec3::spec_zero()),
    {
        proof {
            assert(0x3f80_0000u32 & 0x7fff_ffffu32 == 0x3f80_0000u32) by (bit_vector);
            assert(0x3f80_0000u32 & 0x8000_0000u32 == 0) by (bit_vector);
            assert(0u32 & 0x7fff_ffffu32 == 0) by (bit_vector);
            assert(0u32 & 0x8000_0000u32 == 0) by (bit_vector);
        }
        Vec3 { x: Scalar::zero(), y: Scalar::zero(), z: Scalar::one() }
    }

    /// A rectangle from its sides along x and y, and the z of its plane.
    pub fn new(x: (Scalar, Scalar), y: (Scalar, Scalar), k: Scalar, material: M) -> (rect: Self)
        ensures
            rect == (XyRect { x, y, k, material }),
    {
        XyRect { x, y, k, material }
    }

    /// Whether a ray meets the rectangle, given the distance `t` at which it
    /// reaches the plane and the `x` and `y` at which it passes it.
    pub fn meets(&self, t: Scalar, t_min: Scalar, t_max: Scalar, x: Scalar, y: Scalar) -> (met: bool)
        ensures
            met == meets(t, t_min, t_max, x, self.x, y, self.y),
    {
        rect_meets(t, t_min, t_max, x, self.x, y, self.y)
    }
}

/// A rectangle in a plane of constant y.
#[derive(Debug)]
pub struct XzRect<M> {
    /// From where to where the rectangle runs along x.
    pub x: (Scalar, Scalar),
    /// From where to where it runs along z.
    pub z: (Scalar, Scalar),
    /// The y of its plane.
    pub k: Scalar,
    /// What it is made of.
    pub material: M,
}

impl<M> XzRect<M> {
    /// The normal of the rectangle before it is turned against a ray: the
    /// unit vector along y, across its plane.
    pub fn normal(&self) -> (n: Vec3)
        ensures
            n == (Vec3 { x: Scalar::spec_zero(), y: Scalar::spec_one(), z: Scalar::spec_zero() }),
            n.wf(),
            !n.same(Vec3::spec_zero()),
    {
        proof {
            assert(0x3f80_0000u32 & 0x7fff_ffffu32 == 0x3f80_0000u32) by (bit_vector);
            assert(0x3f80_0000u32 & 0x8000_0000u32 == 0) by (bit_vector);
            assert(0u32 & 0x7fff_ffffu32 == 0) by (bit_vector);
            assert(0u32 & 0x8000_0000u32 == 0) by (bit_vector);
        }
        Vec3 { x: Scalar::zero(), y: Scalar::one(), z: Scalar::zero() }
    }

    /// A rectangle from its sides along x and z, and the y of its plane.
    pub fn new(x: (Scalar, Scalar), z: (Scalar, Scalar), k: Scalar, material: M) -> (rect: Self)
        ensures
            rect == (XzRect { x, z, k, material }),
    {
        XzRect { x, z, k, material }
    }

    /// Whether a ray meets the rectangle, given the distance `t` at which it
    /// reaches the plane and the `x` and `z` at which it passes it.
    pub fn meets(&self, t: Scalar, t_min: Scalar, t_max: Scalar, x: Scalar, z: Scalar) -> (met: bool)
        ensures
            met == meets(t, t_min, t_max, x, self.x, z, self.z),
    {
        rect_meets(t, t_min, t_max, x, self.x, z, self.z)
    }
}

/// A rectangle in a plane of constant x.
#[derive(Debug)]
pub struct YzRect<M> {
    /// From where to where the rectangle runs along y.
    pub y: (Scalar, Scalar),
    /// From where to where it runs along z.
    pub z: (Scalar, Scalar),
    /// The x of its plane.
    pub k: Scalar,
    /// What it is made of.
    pub material: M,
}

impl<M> YzRect<M> {
    /// The normal of the rectangle before it is turned against a ray: the
    /// unit vector along x, across its plane.
    pub fn normal(&self) -> (n: Vec3)
        ensures
            n == (Vec3 { x: Scalar::spec_one(), y: Scalar::spec_zero(), z: Scalar::spec_zero() }),
            n.wf(),
            !n.same(Vec3::spec_zero()),
    {
        proof {
            assert(0x3f80_0000u32 & 0x7fff_ffffu32 == 0x3f80_0000u32) by (bit_vector);
            assert(0x3f80_0000u32 & 0x8000_0000u32 == 0) by (bit_vector);
            assert(0u32 & 0x7fff_ffffu32 == 0) by (bit_vector);
            assert(0u32 & 0x8000_0000u32 == 0) by (bit_vector);
        }
        Vec3 { x: Scalar::one(), y: Scalar::zero(), z: Scalar::zero() }
    }

    /// A rectangle from its sides along y and z, and the x of its plane.
    pub fn new(y: (Scalar, Scalar), z: (Scalar, Scalar), k: Scalar, material: M) -> (rect: Self)
        ensures
            rect == (YzRect { y, z, k, material }),
    {
        YzRect { y, z, k, material }
    }

    /// Whether a ray meets the rectangle, given the distance `t` at which it
    /// reaches the plane and the `y` and `z` at which it passes it.
    pub fn meets(&self, t: Scalar, t_min: Scalar, t_max: Scalar, y: Scalar, z: Scalar) -> (met: bool)
        ensures
            met == meets(t, t_min, t_max, y, self.y, z, self.z),
    {
        rect_meets(t, t_min, t_max, y, self.y, z, self.z)
    }
}

} // verus!
