//! Chunk-level editing of PNG files: a byte-exact codec for the chunk
//! stream, the CRC-32 integrity rule, the bit semantics of chunk type
//! tags, and an ordered container of chunks that serialises back to a
//! valid file.

pub mod bytes;
pub mod chunk;
pub mod chunk_type;
pub mod commands;
pub mod error;
pub mod png;
pub mod text;
