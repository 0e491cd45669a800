//! Array serialization.
use crate::error::EncodeError;
use crate::format::{SpecValue, lemma_encode_dims_concat, lemma_encode_dims_singleton,
    spec_encode_dims, spec_encode_value};
use crate::types::Array;
use super::sink::ByteSink;
use vstd::bytes::{lemma_auto_spec_u64_to_from_le_bytes, u64_to_le_bytes};
use vstd::prelude::*;

verus! {

/// Write an array value, tag byte included.
#[verifier::loop_isolation(false)]
pub fn write_array<S: ByteSink>(writer: &mut S, arr: &Array) -> (r: Result<(), EncodeError>)
    requires
        arr.shape@.len() <= 255,
    ensures
        match r {
            Ok(()) => final(writer).contents() == old(writer).contents() + spec_encode_value(
                (SpecValue::Array { dtype: arr.dtype, shape: arr.shape@, data: arr.data@ }),
            ),
            Err(e) => !S::put_total() && e == EncodeError::SinkFailed,
        },
{
    let ghost head_bytes = seq![0x05u8, arr.dtype.spec_to_u8(), arr.shape@.len() as u8];
    let mut head: Vec<u8> = Vec::new();
    head.push(0x05);
    head.push(arr.dtype.to_u8());
    head.push(arr.shape.len() as u8);
    proof {
        assert(head@ =~= head_bytes);
    }
    match writer.put(head.as_slice()) {
        Ok(()) => (),
        Err(()) => return Err(EncodeError::SinkFailed),
    }
    let mut i: usize = 0;
    while i < arr.shape.len()
        invariant
            0 <= i <= arr.shape@.len(),
            writer.contents() == old(writer).contents() + (seq![
                0x05u8,
                arr.dtype.spec_to_u8(),
                arr.shape@.len() as u8,
            ]) + spec_encode_dims(arr.shape@.take(i as int)),
        decreases arr.shape@.len() - i,
    {
        let ghost pre = writer.contents();
        let db = u64_to_le_bytes(arr.shape[i]);
        match writer.put(db.as_slice()) {
            Ok(()) => (),
            Err(()) => return Err(EncodeError::SinkFailed),
        }
        i = i + 1;
        proof {
            let d = arr.shape@[i - 1];
            assert(arr.shape@.take(i as int) =~= arr.shape@.take(i - 1) + seq![d]);
            lemma_encode_dims_concat(arr.shape@.take(i - 1), seq![d]);
            lemma_encode_dims_singleton(d);
            vstd::bytes::lemma_auto_spec_u64_to_from_le_bytes();
            assert(writer.contents() =~= old(writer).contents() + (seq![
                0x05u8,
                arr.dtype.spec_to_u8(),
                arr.shape@.len() as u8,
            ]) + spec_encode_dims(arr.shape@.take(i as int)));
        }
    }
    proof {
        assert(arr.shape@.take(arr.shape@.len() as int) =~= arr.shape@);
    }
    let lb = u64_to_le_bytes(arr.data.len() as u64);
    match writer.put(lb.as_slice()) {
        Ok(()) => (),
        Err(()) => return Err(EncodeError::SinkFailed),
    }
    match writer.put(arr.data.as_slice()) {
        Ok(()) => (),
        Err(()) => return Err(EncodeError::SinkFailed),
    }
    proof {
        lemma_auto_spec_u64_to_from_le_bytes();
        assert(writer.contents() =~= old(writer).contents() + spec_encode_value(
            (SpecValue::Array { dtype: arr.dtype, shape: arr.shape@, data: arr.data@ }),
        ));
    }
    Ok(())
}

} // verus!
