//! The core of an offline path tracer.
//!
//! Coordinates, distances and colour channels are binary32 numbers. The crate
//! holds each of them by its bit pattern and does on them only what the
//! pattern decides exactly: ordering, minimum and maximum, negation, absolute
//! value. Sums, products and roots are the caller's; wherever the tracer needs
//! one in the middle of its work, it takes it as an argument or asks a
//! function that the caller hands in.

pub mod aabb;
pub mod bvh;
mod chance;
pub mod hitable;
pub mod materials;
pub mod nearest;
pub mod objects;
pub mod perlin;
pub mod ray;
pub mod raytracer;
pub mod scalar;
pub mod scene;
pub mod textures;
pub mod vec;
