//! Rays.

use vstd::prelude::*;
use crate::scalar::Scalar;
use crate::vec::{Point3, Vec3};

verus! {

/// A ray: the points `origin + t * direction`, cast at a moment in time.
#[derive(Clone, Copy, Debug)]
pub struct Ray {
    origin: Point3,
    direction: Vec3,
    time: Scalar,
}

impl Ray {
    /// The point the ray starts from.
    pub closed spec fn origin(&self) -> Point3 {
        self.origin
    }

    /// The direction the ray travels in.
    pub closed spec fn direction(&self) -> Vec3 {
        self.direction
    }

    /// The moment the ray was cast at.
    pub closed spec fn time(&self) -> Scalar {
        self.time
    }

    /// A ray from its origin, its direction and its time. The direction is
    /// not the zero vector.
    pub fn new(origin: Point3, direction: Vec3, time: Scalar) -> (ray: Self)
        requires
            !direction.same(Vec3::spec_zero()),
        ensures
            ray.origin() == origin,
            ray.direction() == direction,
            ray.time() == time,
    {
        Ray { origin, direction, time }
    }

    /// The point the ray starts from.
    pub fn get_origin(&self) -> (origin: &Point3)
        ensures
            *origin == self.origin(),
    {
        &self.origin
    }

    /// The direction the ray travels in.
    pub fn get_direction(&self) -> (direction: &Vec3)
        ensures
            *direction == self.direction(),
    {
        &self.direction
    }

    /// The moment the ray was cast at.
    pub fn get_time(&self) -> (time: Scalar)
        ensures
            time == self.time(),
    {
        self.time
    }
}

} // verus!
