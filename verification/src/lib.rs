//! A verified model of the PNG chunk container format: chunk type codes with
//! case-derived flags, length-prefixed CRC-checked chunks, and a container
//! that parses, mutates and serializes a whole PNG byte stream.

pub mod args;
pub mod chunk;
pub mod chunk_type;
pub mod encoding;
pub mod error;
pub mod png;
