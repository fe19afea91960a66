use vstd::prelude::*;

verus! {

/// Every way in which an operation of this library can fail.
#[derive(Debug, Clone, Copy, PartialEq, Eq, Structural)]
pub enum PngError {
    /// A chunk type given as text is not exactly four bytes long.
    InvalidLength,
    /// A chunk type holds a byte that is not an ASCII letter.
    InvalidChunkType,
    /// Fewer than twelve bytes were offered where a chunk must start.
    ChunkTooShort,
    /// A chunk declares more payload than the buffer holds.
    Truncated,
    /// The stored checksum of a chunk differs from the computed one.
    CrcMismatch,
    /// The buffer does not start with the PNG signature.
    BadSignature,
    /// No chunk of the requested type is in the container.
    ChunkNotFound,
    /// A payload that was asked for as text is not valid UTF-8.
    NotUtf8,
}

} // verus!
