//! A verified library for the chunk-based container format of PNG images:
//! validated 4-byte type codes, checksummed chunk records, and a container
//! that parses, mutates, and re-serializes whole files byte-identically.

pub mod chunk;
pub mod chunk_type;
pub mod png;
pub mod text;
pub mod wire;
