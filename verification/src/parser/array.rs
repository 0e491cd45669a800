//! Array value parsing.
use crate::error::BlobfigError;
use crate::format::{SpecValue, spec_parse_array_body, spec_parse_dims};
use crate::types::{ArrayView, DType};
use super::primitives::{read_u8, u64_le};
use super::take::take;
use vstd::prelude::*;

verus! {

/// Parse an array value (after its tag byte has been consumed): element
/// type, dimension count, dimensions, payload length, payload. The payload
/// is taken as a borrowed slice of the declared length; it is not checked
/// against the shape.
#[verifier::loop_isolation(false)]
pub fn parse_array_body<'a>(data: &'a [u8], pos: usize) -> (r: Result<
    (ArrayView<'a>, usize),
    BlobfigError,
>)
    ensures
        match r {
            Ok((a, end)) => {
                &&& spec_parse_array_body(data@, pos as int) == Ok::<_, BlobfigError>(
                    ((SpecValue::Array { dtype: a.dtype, shape: a.shape@, data: a.data@ }),
                    end as int),
                )
                &&& pos < end <= data@.len()
            },
            Err(e) => spec_parse_array_body(data@, pos as int) == Err::<
                (SpecValue, int),
                BlobfigError,
            >(e),
        },
{
    let (dbyte, p1) = match read_u8(data, pos) {
        Ok(v) => v,
        Err(e) => return Err(e),
    };
    proof {
        assert(data@.subrange(pos as int, pos as int + 1)[0] == data@[pos as int]);
    }
    let dtype = match DType::from_u8(dbyte) {
        Some(d) => d,
        None => {
            return Err(BlobfigError::InvalidDType { offset: pos, tag: dbyte });
        },
    };
    let (ndim, p2) = match read_u8(data, p1) {
        Ok(v) => v,
        Err(e) => return Err(e),
    };
    proof {
        assert(data@.subrange(p1 as int, p1 as int + 1)[0] == data@[p1 as int]);
    }
    let mut shape: Vec<u64> = Vec::new();
    let mut cur: usize = p2;
    let mut i: u8 = 0;
    while i < ndim
        invariant
            i <= ndim,
            p2 <= cur <= data@.len(),
            (match spec_parse_dims(data@, cur as int, (ndim - i) as nat) {
                Ok(rest_end) => spec_parse_dims(data@, p2 as int, ndim as nat) == Ok::<
                    _,
                    BlobfigError,
                >((shape@ + rest_end.0, rest_end.1)),
                Err(e) => spec_parse_dims(data@, p2 as int, ndim as nat) == Err::<
                    (Seq<u64>, int),
                    BlobfigError,
                >(e),
            }),
        decreases ndim - i,
    {
        let ghost old_shape = shape@;
        let ghost old_cur = cur as int;
        let (d, next) = match u64_le(data, cur) {
            Ok(v) => v,
            Err(e) => return Err(e),
        };
        shape.push(d);
        cur = next;
        i = i + 1;
        proof {
            let m = (ndim - i + 1) as nat;
            assert(spec_parse_dims(data@, old_cur, m) matches Ok(re) ==> {
                &&& re.0 =~= seq![d] + (spec_parse_dims(data@, cur as int, (m - 1) as nat)->Ok_0.0)
            });
            assert(shape@ =~= old_shape + seq![d]);
            if spec_parse_dims(data@, cur as int, (ndim - i) as nat) is Ok {
                let rest = spec_parse_dims(data@, cur as int, (ndim - i) as nat)->Ok_0.0;
                assert(old_shape + (seq![d] + rest) =~= shape@ + rest);
            }
        }
    }
    proof {
        assert(shape@ + Seq::<u64>::empty() =~= shape@);
    }
    let (dlen, p3) = match u64_le(data, cur) {
        Ok(v) => v,
        Err(e) => return Err(e),
    };
    let remaining = (data.len() - p3) as u64;
    if dlen > remaining {
        return Err(BlobfigError::UnexpectedEnd { offset: p3 });
    }
    let (bytes, end) = match take(dlen as usize).parse(data, p3) {
        Ok(v) => v,
        Err(e) => return Err(e),
    };
    Ok((ArrayView { dtype, shape, data: bytes }, end))
}

} // verus!
