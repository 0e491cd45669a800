//! The decoder: zero-copy recursive descent over an immutable byte buffer.
//!
//! Every returned view borrows from the input buffer; no payload byte is
//! copied. The whole decode is verified against [`crate::format::spec_decode`].
pub mod array;
pub mod file;
pub mod primitives;
pub mod string;
pub mod take;
pub mod value;

pub use value::{parse_entry, parse_value};

use crate::error::BlobfigError;
use crate::format::{spec_decode, SpecValue};
use crate::types::ValueView;
use crate::types::header::{PREFIX_SIZE, VERSION, magic};
use primitives::u32_le;
use vstd::prelude::*;
use vstd::slice::slice_subrange;

verus! {

/// Compare two byte slices for equality.
#[verifier::loop_isolation(false)]
pub(crate) fn bytes_eq(a: &[u8], b: &[u8]) -> (r: bool)
    ensures
        r == (a@ == b@),
{
    if a.len() != b.len() {
        return false;
    }
    let mut i: usize = 0;
    while i < a.len()
        invariant
            a@.len() == b@.len(),
            0 <= i <= a@.len(),
            forall|j: int| 0 <= j < i ==> a@[j] == b@[j],
        decreases a@.len() - i,
    {
        if a[i] != b[i] {
            return false;
        }
        i = i + 1;
    }
    proof {
        assert(a@ =~= b@);
    }
    true
}

/// Decode an artifact.
///
/// Validates the magic signature and the version, advances past the whole
/// 24-byte prefix (fixed header and root-size field), and parses the root
/// value there. The returned view borrows from `bytes`, which must stay
/// alive and unchanged for as long as the view is used; Rust's lifetimes
/// enforce this.
pub fn parse<'a>(bytes: &'a [u8]) -> (r: Result<ValueView<'a>, BlobfigError>)
    ensures
        match r {
            Ok(v) => spec_decode(bytes@) == Ok::<_, BlobfigError>(v@),
            Err(e) => spec_decode(bytes@) == Err::<SpecValue, BlobfigError>(e),
        },
{
    if bytes.len() < PREFIX_SIZE {
        return Err(BlobfigError::UnexpectedEnd { offset: 0 });
    }
    let m = magic();
    if !bytes_eq(slice_subrange(bytes, 0, 8), m.as_slice()) {
        return Err(BlobfigError::InvalidMagic);
    }
    let (version, _) = match u32_le(bytes, 8) {
        Ok(v) => v,
        Err(e) => return Err(e),
    };
    if version != VERSION {
        return Err(BlobfigError::UnsupportedVersion { version });
    }
    match value::parse_value(bytes, PREFIX_SIZE) {
        Ok((v, _)) => Ok(v),
        Err(e) => Err(e),
    }
}

} // verus!
