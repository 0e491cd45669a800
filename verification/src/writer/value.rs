//! Value serialization: the pure size pass and the emitting pass.
use crate::error::EncodeError;
use crate::format::{PATH_SEPARATOR, SpecValue, entries_have_reserved_key, has_reserved_key,
    items_have_reserved_key, lemma_encode_entries_concat, lemma_encode_items_concat,
    lemma_encode_dims_len, lemma_entries_reserved_concat, lemma_entries_reserved_index,
    lemma_items_reserved_concat, lemma_items_reserved_index, lemma_wf_entries_index,
    lemma_wf_items_index, lemma_encode_entries_singleton, lemma_encode_items_singleton,
    spec_encode_entries, spec_encode_items, spec_encode_value, wf_value};
use crate::types::value::{entries_handle_free, handle_free, items_handle_free,
    lemma_entries_handle_free_index, lemma_items_handle_free_index, lemma_owned_entries_view_props,
    lemma_owned_items_view_props, owned_entries_view, owned_items_view, value_view};
use crate::types::{FileHandle, Value};
use super::array::write_array;
use super::file::write_file;
use super::sink::ByteSink;
use vstd::bytes::{lemma_auto_spec_u16_to_from_le_bytes, lemma_auto_spec_u32_to_from_le_bytes,
    lemma_auto_spec_u64_to_from_le_bytes, u16_to_le_bytes, u32_to_le_bytes, u64_to_le_bytes};
use vstd::prelude::*;
use vstd::string::StringSliceAdditionalSpecFns;

verus! {

/// True when the byte slice holds the reserved path-separator byte.
#[verifier::loop_isolation(false)]
fn contains_separator(b: &[u8]) -> (r: bool)
    ensures
        r == b@.contains(PATH_SEPARATOR),
{
    let mut i: usize = 0;
    while i < b.len()
        invariant
            0 <= i <= b@.len(),
            forall|j: int| 0 <= j < i ==> b@[j] != PATH_SEPARATOR,
        decreases b@.len() - i,
    {
        if b[i] == PATH_SEPARATOR {
            return true;
        }
        i = i + 1;
    }
    false
}

/// Compute the exact number of bytes `value` occupies when emitted, from
/// declared sizes alone: no payload byte and no streaming source is read.
#[verifier::loop_isolation(false)]
pub fn compute_size<H: FileHandle>(value: &Value<H>) -> (n: u64)
    requires
        wf_value(value@),
        spec_encode_value(value@).len() <= u64::MAX,
    ensures
        n as nat == spec_encode_value(value@).len(),
    decreases spec_encode_value(value@).len(),
{
    proof {
        lemma_auto_spec_u16_to_from_le_bytes();
        lemma_auto_spec_u32_to_from_le_bytes();
        lemma_auto_spec_u64_to_from_le_bytes();
    }
    match value {
        Value::Bool(_) => 2,
        Value::Int(_) => 9,
        Value::Float(_) => 9,
        Value::String(s) => {
            let len = s.as_str().len();
            5 + (len as u64)
        },
        Value::Array(a) => {
            proof {
                lemma_encode_dims_len(a.shape@);
            }
            let ndim = a.shape.len();
            11 + 8 * (ndim as u64) + (a.data.len() as u64)
        },
        Value::File(f) => {
            let mlen = f.mimetype.as_str().len();
            let size = f.size();
            11 + (mlen as u64) + size
        },
        Value::Object(es) => {
            let ghost oes = owned_entries_view(es@);
            proof {
                lemma_owned_entries_view_props(es@);
            }
            let cnt = es.len();
            let mut acc: u64 = 5;
            let mut i: usize = 0;
            while i < cnt
                invariant
                    wf_value(value@),
                    spec_encode_value(value@).len() <= u64::MAX,
                    value@ == SpecValue::Object(oes),
                    oes == owned_entries_view(es@),
                    oes.len() == es@.len() == cnt,
                    forall|k: int|
                        0 <= k < es@.len() ==> #[trigger] oes[k] == (
                        vstd::utf8::encode_utf8(es@[k].0@),
                        value_view(es@[k].1),
                        ),
                    0 <= i <= cnt,
                    acc as nat == 5 + spec_encode_entries(oes.take(i as int)).len(),
                decreases cnt - i,
            {
                proof {
                    lemma_wf_entries_index(oes, i as int);
                    lemma_split_entries(oes, i as int);
                    lemma_auto_spec_u16_to_from_le_bytes();
                    lemma_auto_spec_u32_to_from_le_bytes();
                    assert(spec_encode_value(value@).len() == 5 + spec_encode_entries(oes).len());
                }
                let pair = &es[i];
                let klen = pair.0.as_str().len();
                let child_size = compute_size(&pair.1);
                acc = acc + 2 + (klen as u64) + child_size;
                i = i + 1;
                proof {
                    assert(oes.take(i as int) =~= oes.take(i - 1) + seq![oes[i - 1]]);
                    lemma_encode_entries_concat(oes.take(i - 1), seq![oes[i - 1]]);
                    lemma_encode_entries_singleton(oes[i - 1]);
                }
            }
            proof {
                assert(oes.take(cnt as int) =~= oes);
            }
            acc
        },
        Value::List(vs) => {
            let ghost ovs = owned_items_view(vs@);
            proof {
                lemma_owned_items_view_props(vs@);
            }
            let cnt = vs.len();
            let mut acc: u64 = 5;
            let mut i: usize = 0;
            while i < cnt
                invariant
                    wf_value(value@),
                    spec_encode_value(value@).len() <= u64::MAX,
                    value@ == SpecValue::List(ovs),
                    ovs == owned_items_view(vs@),
                    ovs.len() == vs@.len() == cnt,
                    forall|k: int|
                        0 <= k < vs@.len() ==> #[trigger] ovs[k] == value_view(vs@[k]),
                    0 <= i <= cnt,
                    acc as nat == 5 + spec_encode_items(ovs.take(i as int)).len(),
                decreases cnt - i,
            {
                proof {
                    lemma_wf_items_index(ovs, i as int);
                    lemma_split_items(ovs, i as int);
                    lemma_auto_spec_u32_to_from_le_bytes();
                    assert(spec_encode_value(value@).len() == 5 + spec_encode_items(ovs).len());
                }
                let child_size = compute_size(&vs[i]);
                acc = acc + child_size;
                i = i + 1;
                proof {
                    assert(ovs.take(i as int) =~= ovs.take(i - 1) + seq![ovs[i - 1]]);
                    lemma_encode_items_concat(ovs.take(i - 1), seq![ovs[i - 1]]);
                    lemma_encode_items_singleton(ovs[i - 1]);
                }
            }
            proof {
                assert(ovs.take(cnt as int) =~= ovs);
            }
            acc
        },
    }
}

/// Splitting an entry sequence at `i` splits its encoding into the encoding
/// of the first `i` entries, the bytes of entry `i`, and the rest.
proof fn lemma_split_entries(oes: Seq<(Seq<u8>, SpecValue)>, i: int)
    requires
        0 <= i < oes.len(),
    ensures
        spec_encode_entries(oes).len() == spec_encode_entries(oes.take(i)).len() + (2 + oes[i].0.len()
            + spec_encode_value(oes[i].1).len()) + spec_encode_entries(oes.skip(i + 1)).len(),
{
    lemma_auto_spec_u16_to_from_le_bytes();
    assert(oes =~= oes.take(i) + oes.skip(i));
    lemma_encode_entries_concat(oes.take(i), oes.skip(i));
    assert(oes.skip(i).drop_first() =~= oes.skip(i + 1));
    assert(oes.skip(i)[0] == oes[i]);
    assert(spec_encode_entries(oes.skip(i)) == vstd::bytes::spec_u16_to_le_bytes(
        oes[i].0.len() as u16,
    ) + oes[i].0 + spec_encode_value(oes[i].1) + spec_encode_entries(oes.skip(i + 1)));
}

/// Splitting an item sequence at `i` splits its encoding likewise.
proof fn lemma_split_items(ovs: Seq<SpecValue>, i: int)
    requires
        0 <= i < ovs.len(),
    ensures
        spec_encode_items(ovs).len() == spec_encode_items(ovs.take(i)).len() + spec_encode_value(
            ovs[i],
        ).len() + spec_encode_items(ovs.skip(i + 1)).len(),
{
    assert(ovs =~= ovs.take(i) + ovs.skip(i));
    lemma_encode_items_concat(ovs.take(i), ovs.skip(i));
    assert(ovs.skip(i).drop_first() =~= ovs.skip(i + 1));
    assert(ovs.skip(i)[0] == ovs[i]);
}

/// Emit one value, tag byte included, consuming it (streamed file sources
/// are single-use).
///
/// Succeeds exactly when no key in the tree holds the reserved separator and
/// no sink or source failure occurs; on an infallible sink, a tree whose
/// file payloads are all in-memory bytes fails only on a reserved key.
#[verifier::loop_isolation(false)]
pub fn write_value<S: ByteSink, H: FileHandle>(writer: &mut S, value: Value<H>) -> (r: Result<
    (),
    EncodeError,
>)
    requires
        wf_value(value@),
    ensures
        match r {
            Ok(()) => {
                &&& final(writer).contents() == old(writer).contents() + spec_encode_value(value@)
                &&& !has_reserved_key(value@)
            },
            Err(e) => {
                &&& (e is ReservedKeyChar ==> has_reserved_key(value@))
                &&& !(S::put_total() && handle_free(value) && !has_reserved_key(value@))
            },
        },
        has_reserved_key(value@) ==> r is Err,
    decreases spec_encode_value(value@).len(),
{
    proof {
        lemma_auto_spec_u16_to_from_le_bytes();
        lemma_auto_spec_u32_to_from_le_bytes();
        lemma_auto_spec_u64_to_from_le_bytes();
    }
    match value {
        Value::Bool(b) => {
            let mut bytes: Vec<u8> = Vec::new();
            bytes.push(0x01);
            bytes.push(if b { 1 } else { 0 });
            proof {
                assert(bytes@ =~= spec_encode_value((SpecValue::Bool(b))));
            }
            match writer.put(bytes.as_slice()) {
                Ok(()) => Ok(()),
                Err(()) => Err(EncodeError::SinkFailed),
            }
        },
        Value::Int(x) => {
            let mut bytes: Vec<u8> = Vec::new();
            bytes.push(0x02);
            let mut le = u64_to_le_bytes(x as u64);
            bytes.append(&mut le);
            proof {
                assert(bytes@ =~= spec_encode_value((SpecValue::Int(x))));
            }
            match writer.put(bytes.as_slice()) {
                Ok(()) => Ok(()),
                Err(()) => Err(EncodeError::SinkFailed),
            }
        },
        Value::Float(bits) => {
            let mut bytes: Vec<u8> = Vec::new();
            bytes.push(0x03);
            let mut le = u64_to_le_bytes(bits);
            bytes.append(&mut le);
            proof {
                assert(bytes@ =~= spec_encode_value((SpecValue::Float(bits))));
            }
            match writer.put(bytes.as_slice()) {
                Ok(()) => Ok(()),
                Err(()) => Err(EncodeError::SinkFailed),
            }
        },
        Value::String(s) => {
            let sb = s.as_str().as_bytes();
            let mut bytes: Vec<u8> = Vec::new();
            bytes.push(0x04);
            let mut le = u32_to_le_bytes(sb.len() as u32);
            bytes.append(&mut le);
            match writer.put(bytes.as_slice()) {
                Ok(()) => (),
                Err(()) => return Err(EncodeError::SinkFailed),
            }
            match writer.put(sb) {
                Ok(()) => (),
                Err(()) => return Err(EncodeError::SinkFailed),
            }
            proof {
                assert(writer.contents() =~= old(writer).contents() + spec_encode_value(value@));
            }
            Ok(())
        },
        Value::Array(a) => write_array(writer, &a),
        Value::File(f) => write_file(writer, f),
        Value::Object(es0) => {
            let ghost oes = owned_entries_view(es0@);
            let ghost orig = es0@;
            proof {
                lemma_owned_entries_view_props(es0@);
            }
            let mut es = es0;
            let cnt = es.len();
            let mut head: Vec<u8> = Vec::new();
            head.push(0x07);
            let mut le = u32_to_le_bytes(cnt as u32);
            head.append(&mut le);
            match writer.put(head.as_slice()) {
                Ok(()) => (),
                Err(()) => return Err(EncodeError::SinkFailed),
            }
            let ghost prefix = seq![0x07u8] + vstd::bytes::spec_u32_to_le_bytes(oes.len() as u32);
            let mut i: usize = 0;
            while i < cnt
                invariant
                    wf_value(value@),
                    value@ == SpecValue::Object(oes),
                    oes == owned_entries_view(orig),
                    handle_free(value) == entries_handle_free(orig),
                    oes.len() == orig.len() == cnt,
                    forall|k: int|
                        0 <= k < orig.len() ==> #[trigger] oes[k] == (
                        vstd::utf8::encode_utf8(orig[k].0@),
                        value_view(orig[k].1),
                        ),
                    has_reserved_key(value@) == entries_have_reserved_key(oes),
                    0 <= i <= cnt,
                    es@ == orig.skip(i as int),
                    writer.contents() == old(writer).contents() + prefix + spec_encode_entries(
                        oes.take(i as int),
                    ),
                    !entries_have_reserved_key(oes.take(i as int)),
                decreases cnt - i,
            {
                proof {
                    lemma_wf_entries_index(oes, i as int);
                    lemma_split_entries(oes, i as int);
                    assert(orig.skip(i as int)[0] == orig[i as int]);
                }
                let (key, child) = es.remove(0);
                proof {
                    assert(orig.skip(i as int).remove(0) =~= orig.skip(i as int + 1));
                    assert(key == orig[i as int].0 && child == orig[i as int].1);
                }
                proof {
                    assert(spec_encode_value(value@).len() == 5 + spec_encode_entries(oes).len());
                }
                let kb = key.as_str().as_bytes();
                if contains_separator(kb) {
                    proof {
                        lemma_entries_reserved_index(oes, i as int);
                    }
                    return Err(EncodeError::ReservedKeyChar { key });
                }
                let khead = u16_to_le_bytes(kb.len() as u16);
                match writer.put(khead.as_slice()) {
                    Ok(()) => (),
                    Err(()) => return Err(EncodeError::SinkFailed),
                }
                match writer.put(kb) {
                    Ok(()) => (),
                    Err(()) => return Err(EncodeError::SinkFailed),
                }
                match write_value(writer, child) {
                    Ok(()) => (),
                    Err(e) => {
                        proof {
                            if entries_handle_free(orig) {
                                lemma_entries_handle_free_index(orig, i as int);
                            }
                            if has_reserved_key(oes[i as int].1) {
                                lemma_entries_reserved_index(oes, i as int);
                            }
                        }
                        return Err(e);
                    },
                }
                i = i + 1;
                proof {
                    assert(oes.take(i as int) =~= oes.take(i - 1) + seq![oes[i - 1]]);
                    lemma_encode_entries_concat(oes.take(i - 1), seq![oes[i - 1]]);
                    lemma_entries_reserved_concat(oes.take(i - 1), seq![oes[i - 1]]);
                    lemma_encode_entries_singleton(oes[i - 1]);
                    assert(writer.contents() =~= old(writer).contents() + prefix
                        + spec_encode_entries(oes.take(i as int)));
                }
            }
            proof {
                assert(oes.take(cnt as int) =~= oes);
                assert(writer.contents() =~= old(writer).contents() + spec_encode_value(value@));
            }
            Ok(())
        },
        Value::List(vs0) => {
            let ghost ovs = owned_items_view(vs0@);
            let ghost orig = vs0@;
            proof {
                lemma_owned_items_view_props(vs0@);
            }
            let mut vs = vs0;
            let cnt = vs.len();
            let mut head: Vec<u8> = Vec::new();
            head.push(0x08);
            let mut le = u32_to_le_bytes(cnt as u32);
            head.append(&mut le);
            match writer.put(head.as_slice()) {
                Ok(()) => (),
                Err(()) => return Err(EncodeError::SinkFailed),
            }
            let ghost prefix = seq![0x08u8] + vstd::bytes::spec_u32_to_le_bytes(ovs.len() as u32);
            let mut i: usize = 0;
            while i < cnt
                invariant
                    wf_value(value@),
                    value@ == SpecValue::List(ovs),
                    ovs == owned_items_view(orig),
                    handle_free(value) == items_handle_free(orig),
                    ovs.len() == orig.len() == cnt,
                    forall|k: int|
                        0 <= k < orig.len() ==> #[trigger] ovs[k] == value_view(orig[k]),
                    has_reserved_key(value@) == items_have_reserved_key(ovs),
                    0 <= i <= cnt,
                    vs@ == orig.skip(i as int),
                    writer.contents() == old(writer).contents() + prefix + spec_encode_items(
                        ovs.take(i as int),
                    ),
                    !items_have_reserved_key(ovs.take(i as int)),
                decreases cnt - i,
            {
                proof {
                    lemma_wf_items_index(ovs, i as int);
                    lemma_split_items(ovs, i as int);
                    assert(orig.skip(i as int)[0] == orig[i as int]);
                }
                let child = vs.remove(0);
                proof {
                    assert(orig.skip(i as int).remove(0) =~= orig.skip(i as int + 1));
                    assert(child == orig[i as int]);
                }
                proof {
                    assert(spec_encode_value(value@).len() == 5 + spec_encode_items(ovs).len());
                }
                match write_value(writer, child) {
                    Ok(()) => (),
                    Err(e) => {
                        proof {
                            if items_handle_free(orig) {
                                lemma_items_handle_free_index(orig, i as int);
                            }
                            if has_reserved_key(ovs[i as int]) {
                                lemma_items_reserved_index(ovs, i as int);
                            }
                        }
                        return Err(e);
                    },
                }
                i = i + 1;
                proof {
                    assert(ovs.take(i as int) =~= ovs.take(i - 1) + seq![ovs[i - 1]]);
                    lemma_encode_items_concat(ovs.take(i - 1), seq![ovs[i - 1]]);
                    lemma_items_reserved_concat(ovs.take(i - 1), seq![ovs[i - 1]]);
                    lemma_encode_items_singleton(ovs[i - 1]);
                    assert(writer.contents() =~= old(writer).contents() + prefix
                        + spec_encode_items(ovs.take(i as int)));
                }
            }
            proof {
                assert(ovs.take(cnt as int) =~= ovs);
                assert(writer.contents() =~= old(writer).contents() + spec_encode_value(value@));
            }
            Ok(())
        },
    }
}

} // verus!
