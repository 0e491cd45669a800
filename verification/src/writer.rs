//! The encoder: a two-pass writer over an owned value tree.
//!
//! The size pass computes the exact encoded length from declared sizes
//! alone; the emit pass writes the bytes, streaming file payloads from
//! single-pass sources in fixed-size chunks.
use crate::error::EncodeError;
use crate::format::{spec_artifact, spec_encode_value, wf_value, has_reserved_key};
use crate::types::header::VERSION;
use crate::types::header::magic;
use crate::types::value::handle_free;
use crate::types::{FileHandle, Value};
use vstd::bytes::{u32_to_le_bytes, u64_to_le_bytes};
use vstd::prelude::*;

pub mod array;
pub mod file;
pub mod sink;
pub mod value;

pub use array::write_array;
pub use file::write_file;
pub use sink::ByteSink;
pub use value::{compute_size, write_value};

verus! {

/// Write a complete artifact for `value` to `writer`: the 24-byte prefix,
/// then the root value's encoding. Consumes the value, since streamed file
/// sources are single-use.
///
/// Fails exactly as [`write_value`] does; bytes already written stay in the
/// sink (no rollback).
pub fn write<S: ByteSink, H: FileHandle>(writer: &mut S, value: Value<H>) -> (r: Result<
    (),
    EncodeError,
>)
    requires
        wf_value(value@),
        spec_encode_value(value@).len() <= u64::MAX,
    ensures
        match r {
            Ok(()) => {
                &&& final(writer).contents() == old(writer).contents() + spec_artifact(value@)
                &&& !has_reserved_key(value@)
            },
            Err(e) => {
                &&& !(e is ReservedKeyChar) ==> !(S::put_total() && handle_free(value)
                    && !has_reserved_key(value@))
                &&& e is ReservedKeyChar ==> has_reserved_key(value@)
            },
        },
        has_reserved_key(value@) ==> r is Err,
        (S::put_total() && handle_free(value) && !has_reserved_key(value@)) ==> r is Ok,
{
    let m = magic();
    match writer.put(m.as_slice()) {
        Ok(()) => (),
        Err(()) => return Err(EncodeError::SinkFailed),
    }
    let vb = u32_to_le_bytes(VERSION);
    match writer.put(vb.as_slice()) {
        Ok(()) => (),
        Err(()) => return Err(EncodeError::SinkFailed),
    }
    let fb = u32_to_le_bytes(0);
    match writer.put(fb.as_slice()) {
        Ok(()) => (),
        Err(()) => return Err(EncodeError::SinkFailed),
    }
    let root_size = compute_size(&value);
    let sb = u64_to_le_bytes(root_size);
    match writer.put(sb.as_slice()) {
        Ok(()) => (),
        Err(()) => return Err(EncodeError::SinkFailed),
    }
    write_value(writer, value)
}

/// Encode a value to a fresh byte buffer.
///
/// Succeeds exactly when no object key holds the reserved separator and no
/// streaming source misbehaves; a tree whose file payloads are all in-memory
/// bytes and whose keys are clean always encodes.
pub fn to_bytes<H: FileHandle>(value: Value<H>) -> (r: Result<Vec<u8>, EncodeError>)
    requires
        wf_value(value@),
        spec_encode_value(value@).len() <= u64::MAX,
    ensures
        match r {
            Ok(buf) => {
                &&& buf@ == spec_artifact(value@)
                &&& !has_reserved_key(value@)
            },
            Err(e) => e is ReservedKeyChar ==> has_reserved_key(value@),
        },
        has_reserved_key(value@) ==> r is Err,
        (handle_free(value) && !has_reserved_key(value@)) ==> r is Ok,
{
    let mut buf: Vec<u8> = Vec::new();
    match write(&mut buf, value) {
        Ok(()) => Ok(buf),
        Err(e) => Err(e),
    }
}

} // verus!
