//! What surfaces are made of.

pub mod dielectric;
pub mod isotropic;
pub mod lambertian;
pub mod light;
pub mod material;
pub mod metal;

pub use dielectric::Dielectric;
pub use isotropic::Isotropic;
pub use lambertian::Lambertian;
pub use light::Light;
pub use material::Material;
pub use metal::Metal;
