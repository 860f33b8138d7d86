//! The errors of the library.
use vstd::prelude::*;

verus! {

/// What can go wrong when building, parsing or editing chunks.
#[derive(Debug, Clone, Copy, PartialEq, Eq, Structural)]
pub enum Error {
    /// A type code is not four ASCII letters.
    InvalidTypeCode,
    /// A length field disagrees with the number of bytes that follow it.
    MalformedChunk,
    /// The stored CRC differs from the CRC of the type code and payload.
    ChecksumMismatch,
    /// A file does not start with the PNG signature.
    BadSignature,
    /// No chunk has the requested type code.
    ChunkNotFound,
    /// A payload is not valid UTF-8.
    TextDecode,
}

} // verus!
