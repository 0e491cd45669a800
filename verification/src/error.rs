//! Error types shared by the decoder, the encoder and the path accessor.
use crate::types::ValueTag;
use vstd::prelude::*;

verus! {

/// A decode failure.
///
/// Every kind that concerns a particular region of the input carries the byte
/// offset where that region starts.
#[derive(Debug, Clone, Copy, PartialEq, Eq, Structural)]
pub enum BlobfigError {
    /// The buffer does not start with the magic signature.
    InvalidMagic,
    /// The artifact's version field names a version this decoder does not read.
    UnsupportedVersion { version: u32 },
    /// A value tag byte outside the known enumeration.
    InvalidValueTag { offset: usize, tag: u8 },
    /// An array element type tag outside the known enumeration.
    InvalidDType { offset: usize, tag: u8 },
    /// A string, key or mimetype region that is not valid UTF-8.
    InvalidUtf8 { offset: usize },
    /// The input ends before a required field is complete.
    UnexpectedEnd { offset: usize },
}

/// An encode failure.
#[derive(Debug, Clone, PartialEq, Eq)]
pub enum EncodeError {
    /// An object key contains the reserved path-separator character.
    ReservedKeyChar { key: String },
    /// A streaming file source reported end of data before its declared
    /// size was reached.
    SourceExhausted { declared: u64, missing: u64 },
    /// A streaming file source failed while being read.
    SourceFailed,
    /// The byte sink failed while being written.
    SinkFailed,
}

/// A failure of access by path or of typed extraction.
#[derive(Debug, Clone, PartialEq, Eq)]
pub enum AccessError {
    /// No value exists at the given path.
    NotFound { path: String },
    /// The value at the path has a different kind than the caller asked for.
    TypeMismatch { path: String, expected: &'static str, actual: ValueTag },
}

} // verus!
