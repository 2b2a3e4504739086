//! A codec for a simplified PNG container: a fixed signature followed by
//! length-prefixed, CRC-protected chunks, each tagged with a four-letter
//! type code.

pub mod args;
pub mod checksum;
pub mod chunk;
pub mod chunk_type;
pub mod commands;
pub mod error;
pub mod png;
pub mod text;

pub use args::{DecodeArgs, EncodeArgs, Opt, PrintArgs, RemoveArgs};
pub use chunk::Chunk;
pub use chunk_type::{ChunkType, BYTE_SIZE};
pub use commands::{decode, encode, print, remove, run, Action};
pub use error::Error;
pub use png::Png;
