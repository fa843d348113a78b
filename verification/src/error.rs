//! The ways in which reading or querying a file can fail.

use vstd::prelude::*;

verus! {

/// Every failure the codec reports.
#[derive(Debug, Clone, Copy, PartialEq, Eq, Structural)]
pub enum PngError {
    /// A chunk type code holds a byte that is not allowed.
    InvalidChunkType,
    /// The checksum stored with a chunk is not the checksum of its contents.
    CrcMismatch,
    /// The input ends before the value being read is complete.
    TruncatedInput,
    /// The input does not start with the file signature.
    BadSignature,
    /// No chunk in the file has the requested type.
    NotFound,
    /// A chunk's data is not valid UTF-8.
    EncodingError,
}

} // verus!
