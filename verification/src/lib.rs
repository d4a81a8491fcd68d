//! Tilesheet maintenance core: a stable spiral position allocator, an atlas
//! raster composer with lossless growth, and the reconciliation logic that
//! diffs a local tile inventory against a remote registry.
pub mod codec;
pub mod fmt;
pub mod laws;
pub mod manager;
pub mod model;
pub mod parse;
pub mod pos;
pub mod raster;
pub mod sheet;
pub mod text;
pub mod upload;
