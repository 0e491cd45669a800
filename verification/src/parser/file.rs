//! File blob parsing.
use crate::error::BlobfigError;
use crate::format::{SpecValue, spec_parse_file_body};
use crate::types::FileView;
use super::primitives::{u16_le, u64_le};
use super::string::bytes_to_str;
use super::take::take;
use vstd::prelude::*;
use vstd::string::StringSliceAdditionalSpecFns;

verus! {

/// Parse a file value (after its tag byte has been consumed): mimetype
/// length, mimetype bytes (validated as UTF-8), payload length, payload.
/// Both the mimetype and the payload borrow from `data`.
pub fn parse_file_body<'a>(data: &'a [u8], pos: usize) -> (r: Result<
    (FileView<'a>, usize),
    BlobfigError,
>)
    ensures
        match r {
            Ok((f, end)) => {
                &&& spec_parse_file_body(data@, pos as int) == Ok::<_, BlobfigError>(
                    ((SpecValue::File { mime: f.mimetype.spec_bytes(), data: f.data@ }),
                    end as int),
                )
                &&& pos < end <= data@.len()
            },
            Err(e) => spec_parse_file_body(data@, pos as int) == Err::<
                (SpecValue, int),
                BlobfigError,
            >(e),
        },
{
    let (mlen, p1) = match u16_le(data, pos) {
        Ok(v) => v,
        Err(e) => return Err(e),
    };
    let (mbytes, p2) = match take(mlen as usize).parse(data, p1) {
        Ok(v) => v,
        Err(e) => return Err(e),
    };
    let mimetype = match bytes_to_str(mbytes) {
        Some(s) => s,
        None => {
            return Err(BlobfigError::InvalidUtf8 { offset: p1 });
        },
    };
    let (dlen, p3) = match u64_le(data, p2) {
        Ok(v) => v,
        Err(e) => return Err(e),
    };
    let remaining = (data.len() - p3) as u64;
    if dlen > remaining {
        return Err(BlobfigError::UnexpectedEnd { offset: p3 });
    }
    let (bytes, end) = match take(dlen as usize).parse(data, p3) {
        Ok(v) => v,
        Err(e) => return Err(e),
    };
    Ok((FileView { mimetype, data: bytes }, end))
}

} // verus!
