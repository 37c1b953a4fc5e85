//! Verified core of a raster-to-tile-pyramid renderer.
//!
//! The crate holds the integer side of the pipeline: tile addressing, the
//! bookkeeping around partially covered tiles, palette construction and pixel
//! packing, and the framing of images and store records. Every executable
//! function carries a contract that Verus proves.

pub mod array;
pub mod color;
pub mod colorspec;
pub mod hexcode;
pub mod png;
pub mod reader;
pub mod render;
pub mod store;
pub mod text;
pub mod tileid;
pub mod worker;
