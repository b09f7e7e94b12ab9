//! Scan a Paradox game installation for DLC metadata and build the
//! consolidated list file consumed by a Steam emulation layer.
//!
//! Paths and file contents are handled as byte strings throughout, so every
//! result is stated and proved over plain `Seq<u8>` values.  All filesystem
//! and network work lives outside this crate; callers enumerate directories
//! and read files, and this library decides what those bytes mean.

pub mod bytes;
pub mod error;
pub mod game;
pub mod order;
pub mod parse;
pub mod patch;
pub mod paths;
pub mod pipeline;
pub mod render;
pub mod scan;
