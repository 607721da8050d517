//! Surface patterns.

pub mod image;
pub mod monochrome;
pub mod texture;

pub use self::image::Image;
pub use monochrome::Monochrome;
pub use texture::Texture;
