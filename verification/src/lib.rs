//! An asset registry for a real-time graphics application.
//!
//! The registry indexes image files under a base directory into an in-memory
//! file tree, decodes PNG files into GPU-ready RGBA8 payloads, and memoizes
//! GPU upload handles per logical path.

pub mod asset;
pub mod decode;
pub mod path;
pub mod registry;
pub mod texture;

pub use registry::{AssetRegistry, AssetRegistryError};
