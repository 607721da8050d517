//! Spheres.

use vstd::prelude::*;
use crate::scalar::Scalar;
use crate::vec::Point3;

verus! {

/// Whether a distance lies within a range, neither end counted in. What is
/// not a number lies in no range.
pub open spec fn within_range(t: Scalar, t_min: Scalar, t_max: Scalar) -> bool {
    t_min.spec_lt(t) && t.spec_lt(t_max)
}

/// The distance at which a ray hits a sphere, of the two at which its line
/// crosses it: none where the discriminant of the crossing is negative, else
/// the nearer one where it lies within the range, else the farther one where
/// that does, else none.
pub open spec fn root_model(
    discriminant: Scalar,
    near: Scalar,
    far: Scalar,
    t_min: Scalar,
    t_max: Scalar,
) -> Option<Scalar> {
    if discriminant.spec_lt(Scalar::spec_zero()) {
        None
    } else if within_range(near, t_min, t_max) {
        Some(near)
    } else if within_range(far, t_min, t_max) {
        Some(far)
    } else {
        None
    }
}

/// A sphere of some material.
#[derive(Debug)]
pub struct Sphere<M> {
    center: Point3,
    radius: Scalar,
    material: M,
}

impl<M> Sphere<M> {
    /// The centre.
    pub closed spec fn spec_center(&self) -> Point3 {
        self.center
    }

    /// The radius.
    pub closed spec fn spec_radius(&self) -> Scalar {
        self.radius
    }

    /// The material.
    pub closed spec fn spec_material(&self) -> M {
        self.material
    }

    /// A sphere about a centre, with a radius above zero.
    pub fn new(center: Point3, radius: Scalar, material: M) -> (sphere: Self)
        requires
            Scalar::spec_zero().spec_lt(radius),
        ensures
            sphere.spec_center() == center,
            sphere.spec_radius() == radius,
            sphere.spec_material() == material,
    {
        Sphere { center, radius, material }
    }

    /// The centre.
    pub fn center(&self) -> (center: &Point3)
        ensures
            *center == self.spec_center(),
    {
        &self.center
    }

    /// The radius.
    pub fn radius(&self) -> (radius: Scalar)
        ensures
            radius == self.spec_radius(),
    {
        self.radius
    }

    /// The material.
    pub fn material(&self) -> (material: &M)
        ensures
            *material == self.spec_material(),
    {
        &self.material
    }

    /// The distance at which a ray hits a sphere, given the discriminant of
    /// the crossing of its line with the sphere and the two distances at
    /// which the line crosses it, the nearer first.
    pub fn root(discriminant: Scalar, near: Scalar, far: Scalar, t_min: Scalar, t_max: Scalar) -> (root:
        Option<Scalar>)
        ensures
            root == root_model(discriminant, near, far, t_min, t_max),
    {
        if discriminant.lt(Scalar::zero()) {
            return None;
        }
        let mut root = near;
        if !(t_min.lt(root) && root.lt(t_max)) {
            root = far;
            if !(t_min.lt(root) && root.lt(t_max)) {
                return None;
            }
        }
        Some(root)
    }
}

} // verus!
