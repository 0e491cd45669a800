//! Fixed-width little-endian readers.
use crate::error::BlobfigError;
use super::take::take;
use vstd::bytes::{spec_u16_from_le_bytes, spec_u32_from_le_bytes, spec_u64_from_le_bytes,
    u16_from_le_bytes, u32_from_le_bytes, u64_from_le_bytes};
use vstd::prelude::*;

verus! {

/// Read one byte.
pub fn read_u8(data: &[u8], pos: usize) -> (r: Result<(u8, usize), BlobfigError>)
    ensures
        match r {
            Ok((b, end)) => {
                &&& pos < data@.len()
                &&& b == data@[pos as int]
                &&& end == pos + 1
            },
            Err(e) => {
                &&& pos >= data@.len()
                &&& e == (BlobfigError::UnexpectedEnd { offset: pos })
            },
        },
{
    if pos < data.len() {
        Ok((data[pos], pos + 1))
    } else {
        Err(BlobfigError::UnexpectedEnd { offset: pos })
    }
}

/// Read a u16 (little-endian).
pub fn u16_le(data: &[u8], pos: usize) -> (r: Result<(u16, usize), BlobfigError>)
    ensures
        match r {
            Ok((x, end)) => {
                &&& pos + 2 <= data@.len()
                &&& x == spec_u16_from_le_bytes(data@.subrange(pos as int, pos + 2))
                &&& end == pos + 2
            },
            Err(e) => {
                &&& pos + 2 > data@.len()
                &&& e == (BlobfigError::UnexpectedEnd { offset: pos })
            },
        },
{
    match take(2).parse(data, pos) {
        Ok((b, end)) => Ok((u16_from_le_bytes(b), end)),
        Err(e) => Err(e),
    }
}

/// Read a u32 (little-endian).
pub fn u32_le(data: &[u8], pos: usize) -> (r: Result<(u32, usize), BlobfigError>)
    ensures
        match r {
            Ok((x, end)) => {
                &&& pos + 4 <= data@.len()
                &&& x == spec_u32_from_le_bytes(data@.subrange(pos as int, pos + 4))
                &&& end == pos + 4
            },
            Err(e) => {
                &&& pos + 4 > data@.len()
                &&& e == (BlobfigError::UnexpectedEnd { offset: pos })
            },
        },
{
    match take(4).parse(data, pos) {
        Ok((b, end)) => Ok((u32_from_le_bytes(b), end)),
        Err(e) => Err(e),
    }
}

/// Read a u64 (little-endian).
pub fn u64_le(data: &[u8], pos: usize) -> (r: Result<(u64, usize), BlobfigError>)
    ensures
        match r {
            Ok((x, end)) => {
                &&& pos + 8 <= data@.len()
                &&& x == spec_u64_from_le_bytes(data@.subrange(pos as int, pos + 8))
                &&& end == pos + 8
            },
            Err(e) => {
                &&& pos + 8 > data@.len()
                &&& e == (BlobfigError::UnexpectedEnd { offset: pos })
            },
        },
{
    match take(8).parse(data, pos) {
        Ok((b, end)) => Ok((u64_from_le_bytes(b), end)),
        Err(e) => Err(e),
    }
}

/// Read an i64 (little-endian, two's complement).
pub fn i64_le(data: &[u8], pos: usize) -> (r: Result<(i64, usize), BlobfigError>)
    ensures
        match r {
            Ok((x, end)) => {
                &&& pos + 8 <= data@.len()
                &&& x == spec_u64_from_le_bytes(data@.subrange(pos as int, pos + 8)) as i64
                &&& end == pos + 8
            },
            Err(e) => {
                &&& pos + 8 > data@.len()
                &&& e == (BlobfigError::UnexpectedEnd { offset: pos })
            },
        },
{
    match u64_le(data, pos) {
        Ok((x, end)) => Ok((x as i64, end)),
        Err(e) => Err(e),
    }
}

} // verus!
