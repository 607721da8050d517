//! The pattern of a single colour.

use vstd::prelude::*;
use crate::scalar::Scalar;
use crate::textures::texture::Texture;
use crate::vec::{Color3, Point3, Vec3};

verus! {

/// A pattern that is one colour everywhere.
#[derive(Debug)]
pub struct Monochrome {
    color: Color3,
}

impl Monochrome {
    /// The colour.
    pub closed spec fn color(&self) -> Color3 {
        self.color
    }

    /// The pattern of a colour.
    pub fn new(color: Color3) -> (texture: Self)
        ensures
            texture.color() == color,
    {
        Monochrome { color }
    }

    /// The pattern of the colour with the given red, green and blue, each a
    /// number.
    pub fn from_rgb(red: Scalar, green: Scalar, blue: Scalar) -> (texture: Self)
        requires
            !red.spec_is_nan(),
            !green.spec_is_nan(),
            !blue.spec_is_nan(),
        ensures
            texture.color() == (Vec3 { x: red, y: green, z: blue }),
    {
        Self::new(Color3::new(red, green, blue))
    }
}

impl Texture for Monochrome {
    /// The colour, wherever it is asked for.
    open spec fn value_model(&self, texture_coordinates: (Scalar, Scalar), p: Point3) -> Vec3 {
        self.color()
    }

    fn value(&self, _texture_coordinates: (Scalar, Scalar), _p: &Point3) -> (color: Vec3) {
        self.color
    }
}

} // verus!
