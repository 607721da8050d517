//! The things a scene is made of.

pub mod aabox;
pub mod aarect;
pub mod constant_medium;
pub mod object;
pub mod rotate;
pub mod sphere;

pub use aabox::AaBox;
pub use aarect::{XyRect, XzRect, YzRect};
pub use constant_medium::ConstantMedium;
pub use object::Object;
pub use rotate::RotateY;
pub use sphere::Sphere;
