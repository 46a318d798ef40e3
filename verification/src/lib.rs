//! Chunk-level manipulation of PNG byte streams: the CRC-32 checksum, chunk
//! type codes, chunks, and the container that sequences them.

pub mod chunk;
pub mod chunk_type;
pub mod commands;
pub mod crc;
pub mod endian;
pub mod errors;
pub mod png;
pub mod text;
