//! Compression pipeline and container format of the PBIN multi-platform
//! binary packager.

pub mod bcj;
pub mod container;
pub mod delta;
pub mod dict;
pub mod endian;
pub mod error;
pub mod hash;
pub mod header;
pub mod manifest;
pub mod pipeline;
pub mod segment;
pub mod stub;
pub mod target;
pub mod text;
