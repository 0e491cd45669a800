//! A portable binary container format bundling nested configuration data,
//! typed multi-dimensional arrays and embedded opaque file blobs into one
//! addressable artifact.
//!
//! Decoding produces borrowed, zero-copy views into the input buffer;
//! encoding serializes an owned value tree to a byte sink, streaming large
//! file payloads from single-pass sources in small fixed-size chunks.
//!
//! All multi-byte integers on the wire are little-endian; every
//! variable-length field is length-prefixed, so the format parses
//! sequentially without lookahead. Floating-point scalars are carried as
//! their IEEE 754 bit patterns (`f64::to_bits` / `f64::from_bits` convert at
//! the boundary).
pub mod error;
pub mod format;
pub mod laws;
pub mod parser;
pub mod typed;
pub mod types;
pub mod writer;

pub use error::{AccessError, BlobfigError, EncodeError};
pub use typed::NdarrayError;
pub use parser::parse;
pub use types::{
    Array, ArrayView, DType, File, FileData, FileHandle, FileView, HEADER_SIZE, NoHandle,
    PREFIX_SIZE, VERSION, Value, ValueTag, ValueView,
};
