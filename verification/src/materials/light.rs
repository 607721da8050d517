//! A material that gives off light.

use vstd::prelude::*;
use crate::hitable::HitRecord;
use crate::materials::material::Material;
use crate::ray::Ray;
use crate::scalar::Scalar;
use crate::textures::texture::Texture;
use crate::vec::{Point3, Vec3};

verus! {

/// A material that sends no ray on and gives off the colours of a pattern.
#[derive(Debug)]
pub struct Light<T: Texture> {
    emit: T,
}

impl<T: Texture> Light<T> {
    /// The pattern of the light given off.
    pub closed spec fn emit(&self) -> T {
        self.emit
    }

    /// A light that gives off a pattern.
    pub fn new(emit: T) -> (light: Self)
        ensures
            light.emit() == emit,
    {
        Light { emit }
    }

    /// What becomes of a ray that meets the light, whatever the surface it is
    /// on is recorded as: no ray goes on from a light.
    pub fn takes_in<R>(&self, _ray: &Ray, _record: &HitRecord<R>) -> (scattered: Option<(Ray, Vec3)>)
        ensures
            scattered is None,
    {
        None
    }
}

impl<T: Texture> Material for Light<T> {
    /// A light glows.
    open spec fn glows(&self) -> bool {
        true
    }

    /// No ray goes on from a light.
    fn scatter(&self, ray: &Ray, record: &HitRecord<Self>) -> (scattered: Option<(Ray, Vec3)>)
        ensures
            scattered is None,
    {
        self.takes_in(ray, record)
    }

    /// The pattern's colour at the place.
    fn emitted(&self, texture_coordinates: (Scalar, Scalar), p: &Point3) -> (color: Vec3)
        ensures
            color == self.emit().value_model(texture_coordinates, *p),
    {
        self.emit.value(texture_coordinates, p)
    }
}

} // verus!
