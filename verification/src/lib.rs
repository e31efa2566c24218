//! Conversion of Doom WAD files: a verified reader for the WAD container,
//! its map lumps and its graphics lumps, and the integer side of turning a
//! map into glTF geometry.

pub mod binary;
pub mod wad;
pub mod texture;
pub mod util;
pub mod polygon;
pub mod gen;
pub mod gltf;
pub mod export;
pub mod mime;
pub mod laws;
