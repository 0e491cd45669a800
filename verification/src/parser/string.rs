//! Length-prefixed UTF-8 string reading.
use crate::error::BlobfigError;
use crate::format::{spec_parse_key, spec_parse_str};
use super::primitives::{u16_le, u32_le};
use super::take::take;
use vstd::prelude::*;
use vstd::string::StringSliceAdditionalSpecFns;
use vstd::utf8::valid_utf8;

verus! {

/// Relies on std::str::from_utf8: it returns Ok exactly when the bytes are
/// valid UTF-8, and the returned slice views the same bytes.
#[verifier::external_body]
pub(crate) fn bytes_to_str<'a>(b: &'a [u8]) -> (r: Option<&'a str>)
    ensures
        r is Some <==> valid_utf8(b@),
        (r matches Some(s) ==> s.spec_bytes() == b@),
{
    std::str::from_utf8(b).ok()
}

/// Read a u32 length-prefixed UTF-8 string (used for string values),
/// borrowing from `data`.
pub fn parse_string<'a>(data: &'a [u8], pos: usize) -> (r: Result<(&'a str, usize), BlobfigError>)
    ensures
        match r {
            Ok((s, end)) => {
                &&& spec_parse_str(data@, pos as int) == Ok::<_, BlobfigError>(
                    (s.spec_bytes(), end as int),
                )
                &&& pos < end <= data@.len()
            },
            Err(e) => spec_parse_str(data@, pos as int) == Err::<(Seq<u8>, int), BlobfigError>(e),
        },
{
    let (len, p1) = match u32_le(data, pos) {
        Ok(v) => v,
        Err(e) => return Err(e),
    };
    let (bytes, p2) = match take(len as usize).parse(data, p1) {
        Ok(v) => v,
        Err(e) => return Err(e),
    };
    match bytes_to_str(bytes) {
        Some(s) => Ok((s, p2)),
        None => Err(BlobfigError::InvalidUtf8 { offset: p1 }),
    }
}

/// Read a u16 length-prefixed UTF-8 string (used for object keys and
/// mimetypes), borrowing from `data`.
pub fn parse_key<'a>(data: &'a [u8], pos: usize) -> (r: Result<(&'a str, usize), BlobfigError>)
    ensures
        match r {
            Ok((s, end)) => {
                &&& spec_parse_key(data@, pos as int) == Ok::<_, BlobfigError>(
                    (s.spec_bytes(), end as int),
                )
                &&& pos < end <= data@.len()
            },
            Err(e) => spec_parse_key(data@, pos as int) == Err::<(Seq<u8>, int), BlobfigError>(e),
        },
{
    let (len, p1) = match u16_le(data, pos) {
        Ok(v) => v,
        Err(e) => return Err(e),
    };
    let (bytes, p2) = match take(len as usize).parse(data, p1) {
        Ok(v) => v,
        Err(e) => return Err(e),
    };
    match bytes_to_str(bytes) {
        Some(s) => Ok((s, p2)),
        None => Err(BlobfigError::InvalidUtf8 { offset: p1 }),
    }
}

} // verus!
