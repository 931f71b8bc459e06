//! Core of an offline ray-traced renderer.
//!
//! The renderer's discrete logic lives here, verified: the bounding-volume
//! hierarchy built over totally ordered coordinate keys, the deduplicating
//! resource cache, the texture configuration model, the row partitioning of
//! the parallel render scheduler, and the image pixel buffer. The
//! floating-point sampling arithmetic around it is the caller's side.

pub mod bvh;
pub mod color;
pub mod image;
pub mod perlin;
pub mod resources_manager;
mod rng;
pub mod scheduler;
pub mod texture;

pub use bvh::Aabb;
pub use bvh::BVHNode;
pub use bvh::BvhBuildError;
pub use bvh::BvhChild;
pub use color::Color;
pub use image::Image;
pub use image::ImageFormat;
pub use image::PixelFormat;
pub use image::Serializable;
pub use perlin::Perlin;
pub use resources_manager::Resource;
pub use resources_manager::ResourceConfig;
pub use resources_manager::ResourceHandle;
pub use resources_manager::ResourceManager;
pub use texture::ImageTexture;
pub use texture::TextureConfig;
pub use texture::TextureKind;
pub use texture::TextureResource;
