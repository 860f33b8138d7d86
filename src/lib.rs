//! Hide messages in PNG files.
//!
//! A PNG file is an eight-byte signature followed by a sequence of chunks.
//! Each chunk is a big-endian length, a four-letter type code, a payload and
//! a CRC-32 over the type code and the payload. This library parses such a
//! file into chunks, appends, finds and removes chunks by type code, and
//! writes the file back byte for byte.
use vstd::prelude::*;

pub mod chunk;
pub mod chunk_type;
pub mod commands;
pub mod error;
pub mod png;
pub mod utils;

pub use chunk::Chunk;
pub use chunk_type::ChunkType;
pub use error::Error;
pub use png::Png;
pub use utils::{checksum_32, u8_4_from_slice};

verus! {

/// Size in bytes of the length field, of a type code and of the CRC field.
pub const CHUNK_SIZE: usize = 4;

} // verus!
