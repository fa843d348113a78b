//! A codec for chunked image files: the four-letter chunk type code, the
//! length-prefixed and checksummed chunk, and the file that holds a signature
//! followed by chunks.

pub mod be32;
pub mod checksum;
pub mod error;
pub mod text;
pub mod chunk_type;
pub mod chunk;
pub mod png;
pub mod commands;
