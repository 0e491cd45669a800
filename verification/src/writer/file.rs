//! File serialization, with bounded-memory streaming from single-pass
//! sources.
use crate::error::EncodeError;
use crate::format::{SpecValue, spec_encode_value};
use crate::types::{File, FileData, FileHandle};
use super::sink::ByteSink;
use vstd::bytes::{lemma_auto_spec_u16_to_from_le_bytes, lemma_auto_spec_u64_to_from_le_bytes,
    u16_to_le_bytes, u64_to_le_bytes};
use vstd::prelude::*;

verus! {

/// Size in bytes of the scratch chunk used when streaming a file payload
/// from a handle. Memory used for streaming is bounded by this constant,
/// never by the payload's size.
pub const STREAM_CHUNK_SIZE: usize = 8192;

/// Write a file value, tag byte included. A payload backed by a streaming
/// source is copied in chunks of at most [`STREAM_CHUNK_SIZE`] bytes until
/// its declared size has been transferred; a source that ends earlier gives
/// a distinct error.
#[verifier::loop_isolation(false)]
pub fn write_file<S: ByteSink, H: FileHandle>(writer: &mut S, file: File<H>) -> (r: Result<
    (),
    EncodeError,
>)
    requires
        file.spec_mime_bytes().len() <= u16::MAX,
    ensures
        match r {
            Ok(()) => final(writer).contents() == old(writer).contents() + spec_encode_value(
                (SpecValue::File { mime: file.spec_mime_bytes(), data: file.data.spec_data() }),
            ),
            Err(e) => {
                &&& !(e is ReservedKeyChar)
                &&& !(S::put_total() && file.data is Bytes)
            },
        },
{
    let ghost spec_file = (SpecValue::File {
        mime: file.spec_mime_bytes(),
        data: file.data.spec_data(),
    });
    let mut tag: Vec<u8> = Vec::new();
    tag.push(0x06);
    match writer.put(tag.as_slice()) {
        Ok(()) => (),
        Err(()) => return Err(EncodeError::SinkFailed),
    }
    let mbytes = file.mimetype.as_str().as_bytes();
    let mlb = u16_to_le_bytes(mbytes.len() as u16);
    match writer.put(mlb.as_slice()) {
        Ok(()) => (),
        Err(()) => return Err(EncodeError::SinkFailed),
    }
    match writer.put(mbytes) {
        Ok(()) => (),
        Err(()) => return Err(EncodeError::SinkFailed),
    }
    let size = file.data.size();
    let slb = u64_to_le_bytes(size);
    match writer.put(slb.as_slice()) {
        Ok(()) => (),
        Err(()) => return Err(EncodeError::SinkFailed),
    }
    let ghost header = seq![0x06u8] + vstd::bytes::spec_u16_to_le_bytes(
        file.spec_mime_bytes().len() as u16,
    ) + file.spec_mime_bytes() + vstd::bytes::spec_u64_to_le_bytes(
        file.data.spec_data().len() as u64,
    );
    proof {
        lemma_auto_spec_u16_to_from_le_bytes();
        lemma_auto_spec_u64_to_from_le_bytes();
        assert(tag@ =~= seq![0x06u8]);
        assert(writer.contents() =~= old(writer).contents() + header);
    }
    match file.data {
        FileData::Bytes(b) => {
            match writer.put(b.as_slice()) {
                Ok(()) => (),
                Err(()) => return Err(EncodeError::SinkFailed),
            }
            proof {
                assert(writer.contents() =~= old(writer).contents() + spec_encode_value(
                    spec_file,
                ));
            }
            Ok(())
        },
        FileData::Handle(h0) => {
            let ghost all = h0.contents();
            let mut h = h0;
            let mut remaining: u64 = size;
            while remaining > 0
                invariant
                    all.len() == size,
                    remaining <= size,
                    h.contents() == all.skip(size - remaining),
                    writer.contents() == old(writer).contents() + header + all.take(
                        size - remaining,
                    ),
                decreases remaining,
            {
                let max: usize = if remaining < (STREAM_CHUNK_SIZE as u64) {
                    remaining as usize
                } else {
                    STREAM_CHUNK_SIZE
                };
                let chunk = match h.read_chunk(max) {
                    Ok(c) => c,
                    Err(()) => return Err(EncodeError::SourceFailed),
                };
                if chunk.len() == 0 {
                    return Err(EncodeError::SourceExhausted { declared: size, missing: remaining });
                }
                let ghost transferred = size - remaining;
                match writer.put(chunk.as_slice()) {
                    Ok(()) => (),
                    Err(()) => return Err(EncodeError::SinkFailed),
                }
                remaining = remaining - (chunk.len() as u64);
                proof {
                    let c = chunk@.len() as int;
                    assert(chunk@ =~= all.subrange(transferred, transferred + c));
                    assert(all.take(transferred) + chunk@ =~= all.take(transferred + c));
                    assert(all.skip(transferred).skip(c) =~= all.skip(transferred + c));
                }
            }
            proof {
                assert(all.take(size as int) =~= all);
                assert(writer.contents() =~= old(writer).contents() + spec_encode_value(
                    spec_file,
                ));
            }
            Ok(())
        },
    }
}

} // verus!
