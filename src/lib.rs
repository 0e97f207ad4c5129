//! Cloud-optimized GeoTIFF metadata decoding over byte ranges fetched on demand.
//!
//! The library never performs I/O itself: the [`reader::Reader`] says which byte range
//! it needs, the caller fetches it from the remote resource and hands the bytes back.

pub mod codec;
pub mod errors;
pub mod value;
pub mod entry;
pub mod reader;
pub mod cog;
pub mod parser;
pub mod tile;
