//! Engine for "universal" (multi-architecture) executable container files.
//!
//! A container starts with a fixed four-byte magic, a big-endian descriptor
//! count, and a table of fixed-size descriptors, each locating one embedded
//! architecture-specific binary slice inside the same byte stream.  This crate
//! parses and validates that layout, extracts the embedded slices, and builds
//! such containers from thin per-architecture payloads.

pub mod arch;
pub mod builder;
pub mod codec;
pub mod fat_binary;
pub mod render;
pub mod ripo_error;
