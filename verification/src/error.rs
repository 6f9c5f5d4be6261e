//! The ways in which the codec can refuse its input.

use vstd::prelude::*;

verus! {

/// Why an operation of the codec failed.
#[derive(Clone, Copy, Debug, PartialEq, Eq, Structural)]
pub enum PngError {
    /// The input does not start with the eight byte PNG signature.
    BadSignature,
    /// The input ends before a chunk is complete.
    TruncatedChunk,
    /// The stored checksum differs from the one computed over tag and payload.
    CrcMismatch,
    /// A chunk type tag holds a byte that is no letter, or its reserved bit is set.
    InvalidChunkType,
    /// A chunk type name holds a character that is no ASCII letter.
    NotAscii,
    /// No chunk of the requested type is present.
    ChunkNotFound,
    /// The payload is too long for the 32-bit length field.
    UnrepresentableSize,
}

impl PngError {
    /// A short description of the failure, for display.
    pub fn message(&self) -> (text: &'static str)
        ensures
            text@ == Self::describe(*self),
    {
        match self {
            PngError::BadSignature => "Not a PNG file: bad signature",
            PngError::TruncatedChunk => "Raw chunk data is truncated",
            PngError::CrcMismatch => "Invalid crc",
            PngError::InvalidChunkType => "Invalid chunk type.",
            PngError::NotAscii => "Not an ascii character",
            PngError::ChunkNotFound => "Chunk not found",
            PngError::UnrepresentableSize => "Chunk data does not fit a 32-bit length",
        }
    }

    /// The text that `message` returns for each failure.
    pub open spec fn describe(e: PngError) -> Seq<char> {
        match e {
            PngError::BadSignature => "Not a PNG file: bad signature"@,
            PngError::TruncatedChunk => "Raw chunk data is truncated"@,
            PngError::CrcMismatch => "Invalid crc"@,
            PngError::InvalidChunkType => "Invalid chunk type."@,
            PngError::NotAscii => "Not an ascii character"@,
            PngError::ChunkNotFound => "Chunk not found"@,
            PngError::UnrepresentableSize => "Chunk data does not fit a 32-bit length"@,
        }
    }
}

} // verus!
