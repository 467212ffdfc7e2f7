//! A chunk-based binary container in the style of the PNG file format.
//!
//! The library reads and writes a byte stream made of an 8-byte signature
//! followed by length-prefixed, CRC-checked chunk records, and supports
//! inserting, finding and removing a chunk by its 4-byte type code while
//! keeping the rest of the stream byte-for-byte intact.

pub mod bytes;
pub mod chunk;
pub mod chunk_type;
pub mod crc32;
pub mod error;
pub mod png;
pub mod text;
