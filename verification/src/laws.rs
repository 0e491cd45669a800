//! The format's two central laws, proved over the byte-level model.
//!
//! Round trip: decoding an artifact the encoder produced for a well-formed
//! value gives that value back. Truncation safety: decoding any strict
//! prefix of an artifact fails with an end-of-input error, never with a
//! wrong value.
use crate::error::BlobfigError;
use crate::format::{SpecValue, spec_artifact, spec_decode, spec_encode_dims, spec_encode_entries,
    spec_encode_items, spec_encode_value, spec_parse_array_body, spec_parse_dims,
    spec_parse_entries, spec_parse_entry, spec_parse_file_body, spec_parse_items, spec_parse_key,
    spec_parse_str, spec_parse_value, spec_take, wf_entries, wf_items, wf_value};
use crate::types::DType;
use crate::types::header::{PREFIX_SIZE, VERSION, spec_magic};
use vstd::bytes::{lemma_auto_spec_u16_to_from_le_bytes, lemma_auto_spec_u32_to_from_le_bytes,
    lemma_auto_spec_u64_to_from_le_bytes, spec_u16_to_le_bytes, spec_u32_to_le_bytes,
    spec_u64_to_le_bytes};
use vstd::prelude::*;

verus! {

/// Splitting a two-part byte region: if the bytes at `pos` are `a + b`,
/// then the bytes at `pos` of `a`'s length are `a` and the bytes after are
/// `b`.
proof fn lemma_sub_extract(s: Seq<u8>, pos: int, a: Seq<u8>, b: Seq<u8>)
    requires
        0 <= pos,
        pos + a.len() + b.len() <= s.len(),
        s.subrange(pos, pos + a.len() + b.len()) == a + b,
    ensures
        s.subrange(pos, pos + a.len()) == a,
        s.subrange(pos + a.len(), pos + a.len() + b.len()) == b,
{
    let whole = s.subrange(pos, pos + a.len() + b.len());
    assert forall|j: int| 0 <= j < a.len() implies s.subrange(pos, pos + a.len())[j] == a[j] by {
        assert(whole[j] == (a + b)[j]);
        assert(whole[j] == s[pos + j]);
        assert(s.subrange(pos, pos + a.len())[j] == s[pos + j]);
    }
    assert(s.subrange(pos, pos + a.len()) =~= a);
    assert forall|j: int|
        0 <= j < b.len() implies s.subrange(pos + a.len(), pos + a.len() + b.len())[j] == b[j] by {
        assert(whole[a.len() + j] == (a + b)[a.len() + j]);
        assert(whole[a.len() + j] == s[pos + a.len() + j]);
        assert(s.subrange(pos + a.len(), pos + a.len() + b.len())[j] == s[pos + a.len() + j]);
    }
    assert(s.subrange(pos + a.len(), pos + a.len() + b.len()) =~= b);
}

/// Every value encoding is at least two bytes long.
proof fn lemma_encode_len_lb(v: SpecValue)
    ensures
        spec_encode_value(v).len() >= 2,
{
    lemma_auto_spec_u16_to_from_le_bytes();
    lemma_auto_spec_u32_to_from_le_bytes();
    lemma_auto_spec_u64_to_from_le_bytes();
}

/// Parsing the encoding of a well-formed shape gives the shape back.
proof fn lemma_parse_encoded_dims(s: Seq<u8>, pos: int, shape: Seq<u64>)
    requires
        0 <= pos,
        pos + spec_encode_dims(shape).len() <= s.len(),
        s.subrange(pos, pos + spec_encode_dims(shape).len() as int) == spec_encode_dims(shape),
    ensures
        spec_parse_dims(s, pos, shape.len()) == Ok::<_, BlobfigError>(
            (shape, pos + spec_encode_dims(shape).len()),
        ),
    decreases shape.len(),
{
    lemma_auto_spec_u64_to_from_le_bytes();
    crate::format::lemma_encode_dims_len(shape);
    if shape.len() == 0 {
        assert(spec_parse_dims(s, pos, 0) == Ok::<_, BlobfigError>((Seq::<u64>::empty(), pos)));
        assert(Seq::<u64>::empty() =~= shape);
    } else {
        let d = shape[0];
        let rest = shape.drop_first();
        crate::format::lemma_encode_dims_len(rest);
        lemma_sub_extract(s, pos, spec_u64_to_le_bytes(d), spec_encode_dims(rest));
        assert(spec_take(s, pos, 8) == Ok::<_, BlobfigError>(spec_u64_to_le_bytes(d)));
        lemma_parse_encoded_dims(s, pos + 8, rest);
        assert(seq![d] + rest =~= shape);
    }
}

/// Parsing the encoding of a well-formed value, placed anywhere inside a
/// larger buffer, gives exactly that value and consumes exactly its bytes.
#[verifier::spinoff_prover]
#[verifier::rlimit(100)]
proof fn lemma_parse_encoded_value(s: Seq<u8>, pos: int, v: SpecValue)
    requires
        wf_value(v),
        0 <= pos,
        pos + spec_encode_value(v).len() <= s.len(),
        s.subrange(pos, pos + spec_encode_value(v).len() as int) == spec_encode_value(v),
    ensures
        spec_parse_value(s, pos) == Ok::<_, BlobfigError>(
            (v, pos + spec_encode_value(v).len()),
        ),
    decreases v,
{
    lemma_auto_spec_u16_to_from_le_bytes();
    lemma_auto_spec_u32_to_from_le_bytes();
    lemma_auto_spec_u64_to_from_le_bytes();
    let enc = spec_encode_value(v);
    match v {
        SpecValue::Bool(b) => {
            let bit: u8 = if b {
                1u8
            } else {
                0u8
            };
            assert(seq![0x01u8] + seq![bit] =~= enc);
            lemma_sub_extract(s, pos, seq![0x01u8], seq![bit]);
            assert(spec_take(s, pos, 1) == Ok::<_, BlobfigError>(seq![0x01u8]));
            assert(spec_take(s, pos + 1, 1) == Ok::<_, BlobfigError>(seq![bit]));
            assert((bit != 0) == b);
        },
        SpecValue::Int(i) => {
            let le = spec_u64_to_le_bytes(i as u64);
            lemma_sub_extract(s, pos, seq![0x02u8], le);
            assert(spec_take(s, pos, 1) == Ok::<_, BlobfigError>(seq![0x02u8]));
            assert(spec_take(s, pos + 1, 8) == Ok::<_, BlobfigError>(le));
            assert((i as u64) as i64 == i) by (bit_vector);
        },
        SpecValue::Float(bits) => {
            let le = spec_u64_to_le_bytes(bits);
            lemma_sub_extract(s, pos, seq![0x03u8], le);
            assert(spec_take(s, pos, 1) == Ok::<_, BlobfigError>(seq![0x03u8]));
            assert(spec_take(s, pos + 1, 8) == Ok::<_, BlobfigError>(le));
        },
        SpecValue::Str(sb) => {
            let le = spec_u32_to_le_bytes(sb.len() as u32);
            assert(seq![0x04u8] + (le + sb) =~= enc);
            lemma_sub_extract(s, pos, seq![0x04u8], le + sb);
            lemma_sub_extract(s, pos + 1, le, sb);
            assert(spec_take(s, pos, 1) == Ok::<_, BlobfigError>(seq![0x04u8]));
            assert(spec_take(s, pos + 1, 4) == Ok::<_, BlobfigError>(le));
            assert(spec_take(s, pos + 5, sb.len() as int) == Ok::<_, BlobfigError>(sb));
        },
        SpecValue::Array { dtype, shape, data } => {
            let head = seq![0x05u8, dtype.spec_to_u8(), shape.len() as u8];
            let dims = spec_encode_dims(shape);
            let le = spec_u64_to_le_bytes(data.len() as u64);
            crate::format::lemma_encode_dims_len(shape);
            assert(head + (dims + (le + data)) =~= enc);
            lemma_sub_extract(s, pos, head, dims + (le + data));
            lemma_sub_extract(s, pos + 3, dims, le + data);
            lemma_sub_extract(s, pos + 3 + dims.len(), le, data);
            assert(spec_take(s, pos, 1) == Ok::<_, BlobfigError>(
                s.subrange(pos, pos + 1),
            ));
            assert(s.subrange(pos, pos + 3) == head);
            assert(s.subrange(pos, pos + 1) =~= seq![0x05u8]);
            assert(s.subrange(pos + 1, pos + 2) =~= seq![dtype.spec_to_u8()]);
            assert(s.subrange(pos + 2, pos + 3) =~= seq![shape.len() as u8]);
            assert(DType::spec_from_u8(dtype.spec_to_u8()) == Some(dtype));
            lemma_parse_encoded_dims(s, pos + 3, shape);
            assert((shape.len() as u8) as nat == shape.len());
            let dend = pos + 3 + dims.len();
            assert(spec_take(s, dend, 8) == Ok::<_, BlobfigError>(le));
            assert(spec_take(s, dend + 8, data.len() as int) == Ok::<_, BlobfigError>(data));
        },
        SpecValue::File { mime, data } => {
            let le16 = spec_u16_to_le_bytes(mime.len() as u16);
            let le64 = spec_u64_to_le_bytes(data.len() as u64);
            assert(seq![0x06u8] + (le16 + (mime + (le64 + data))) =~= enc);
            lemma_sub_extract(s, pos, seq![0x06u8], le16 + (mime + (le64 + data)));
            lemma_sub_extract(s, pos + 1, le16, mime + (le64 + data));
            lemma_sub_extract(s, pos + 3, mime, le64 + data);
            lemma_sub_extract(s, pos + 3 + mime.len(), le64, data);
            assert(spec_take(s, pos, 1) == Ok::<_, BlobfigError>(seq![0x06u8]));
            assert(spec_take(s, pos + 1, 2) == Ok::<_, BlobfigError>(le16));
            assert(spec_take(s, pos + 3, mime.len() as int) == Ok::<_, BlobfigError>(mime));
            let dstart = pos + 3 + mime.len();
            assert(spec_take(s, dstart, 8) == Ok::<_, BlobfigError>(le64));
            assert(spec_take(s, dstart + 8, data.len() as int) == Ok::<_, BlobfigError>(data));
        },
        SpecValue::Object(es) => {
            let le = spec_u32_to_le_bytes(es.len() as u32);
            let body = spec_encode_entries(es);
            assert(seq![0x07u8] + (le + body) =~= enc);
            lemma_sub_extract(s, pos, seq![0x07u8], le + body);
            lemma_sub_extract(s, pos + 1, le, body);
            assert(spec_take(s, pos, 1) == Ok::<_, BlobfigError>(seq![0x07u8]));
            assert(spec_take(s, pos + 1, 4) == Ok::<_, BlobfigError>(le));
            lemma_parse_encoded_entries(s, pos + 5, es);
        },
        SpecValue::List(vs) => {
            let le = spec_u32_to_le_bytes(vs.len() as u32);
            let body = spec_encode_items(vs);
            assert(seq![0x08u8] + (le + body) =~= enc);
            lemma_sub_extract(s, pos, seq![0x08u8], le + body);
            lemma_sub_extract(s, pos + 1, le, body);
            assert(spec_take(s, pos, 1) == Ok::<_, BlobfigError>(seq![0x08u8]));
            assert(spec_take(s, pos + 1, 4) == Ok::<_, BlobfigError>(le));
            lemma_parse_encoded_items(s, pos + 5, vs);
        },
    }
}

/// Parsing the encoding of well-formed entries gives them back.
proof fn lemma_parse_encoded_entries(s: Seq<u8>, pos: int, es: Seq<(Seq<u8>, SpecValue)>)
    requires
        wf_entries(es),
        es.len() <= u32::MAX,
        0 <= pos,
        pos + spec_encode_entries(es).len() <= s.len(),
        s.subrange(pos, pos + spec_encode_entries(es).len() as int) == spec_encode_entries(es),
    ensures
        spec_parse_entries(s, pos, es.len()) == Ok::<_, BlobfigError>(
            (es, pos + spec_encode_entries(es).len()),
        ),
    decreases es,
{
    lemma_auto_spec_u16_to_from_le_bytes();
    if es.len() == 0 {
        assert(Seq::<(Seq<u8>, SpecValue)>::empty() =~= es);
    } else {
        let key = es[0].0;
        let child = es[0].1;
        let le = spec_u16_to_le_bytes(key.len() as u16);
        let childenc = spec_encode_value(child);
        let rest = es.drop_first();
        let restenc = spec_encode_entries(rest);
        assert(le + (key + (childenc + restenc)) =~= spec_encode_entries(es));
        lemma_sub_extract(s, pos, le, key + (childenc + restenc));
        lemma_sub_extract(s, pos + 2, key, childenc + restenc);
        lemma_sub_extract(s, pos + 2 + key.len(), childenc, restenc);
        assert(spec_take(s, pos, 2) == Ok::<_, BlobfigError>(le));
        assert(spec_take(s, pos + 2, key.len() as int) == Ok::<_, BlobfigError>(key));
        let kend = pos + 2 + key.len();
        assert(spec_parse_key(s, pos) == Ok::<_, BlobfigError>((key, kend)));
        vstd::seq::axiom_seq_index_decreases(es, 0);
        lemma_parse_encoded_value(s, kend, child);
        let vend = kend + childenc.len();
        assert(spec_parse_entry(s, pos) == Ok::<_, BlobfigError>(((key, child), vend)));
        lemma_encode_len_lb(child);
        lemma_parse_encoded_entries(s, vend, rest);
        assert(seq![(key, child)] + rest =~= es);
    }
}

/// Parsing the encoding of well-formed items gives them back.
proof fn lemma_parse_encoded_items(s: Seq<u8>, pos: int, vs: Seq<SpecValue>)
    requires
        wf_items(vs),
        vs.len() <= u32::MAX,
        0 <= pos,
        pos + spec_encode_items(vs).len() <= s.len(),
        s.subrange(pos, pos + spec_encode_items(vs).len() as int) == spec_encode_items(vs),
    ensures
        spec_parse_items(s, pos, vs.len()) == Ok::<_, BlobfigError>(
            (vs, pos + spec_encode_items(vs).len()),
        ),
    decreases vs,
{
    if vs.len() == 0 {
        assert(Seq::<SpecValue>::empty() =~= vs);
    } else {
        let child = vs[0];
        let childenc = spec_encode_value(child);
        let rest = vs.drop_first();
        let restenc = spec_encode_items(rest);
        lemma_sub_extract(s, pos, childenc, restenc);
        vstd::seq::axiom_seq_index_decreases(vs, 0);
        lemma_parse_encoded_value(s, pos, child);
        let vend = pos + childenc.len();
        lemma_encode_len_lb(child);
        lemma_parse_encoded_items(s, vend, rest);
        assert(seq![child] + rest =~= vs);
    }
}

/// A successful array-body read lands strictly past its start and inside
/// the buffer.
proof fn lemma_range_array_body(s: Seq<u8>, pos: int)
    requires
        spec_parse_array_body(s, pos) is Ok,
    ensures
        pos < spec_parse_array_body(s, pos)->Ok_0.1 <= s.len(),
{
    let nd = spec_take(s, pos + 1, 1)->Ok_0[0] as nat;
    lemma_range_dims(s, pos + 2, nd);
}

/// A successful value read lands strictly past its start and inside the
/// buffer.
proof fn lemma_range_value(s: Seq<u8>, pos: int)
    requires
        spec_parse_value(s, pos) is Ok,
    ensures
        pos < spec_parse_value(s, pos)->Ok_0.1 <= s.len(),
    decreases s.len() - pos, 0nat,
{
    let tag = spec_take(s, pos, 1)->Ok_0[0];
    if tag == 0x05 {
        lemma_range_array_body(s, pos + 1);
    } else if tag == 0x07 {
        let cnt = vstd::bytes::spec_u32_from_le_bytes(spec_take(s, pos + 1, 4)->Ok_0) as nat;
        lemma_range_entries(s, pos + 5, cnt);
    } else if tag == 0x08 {
        let cnt = vstd::bytes::spec_u32_from_le_bytes(spec_take(s, pos + 1, 4)->Ok_0) as nat;
        lemma_range_items(s, pos + 5, cnt);
    }
}

/// A successful entry read lands strictly past its start and inside the
/// buffer.
proof fn lemma_range_entry(s: Seq<u8>, pos: int)
    requires
        spec_parse_entry(s, pos) is Ok,
    ensures
        pos < spec_parse_entry(s, pos)->Ok_0.1 <= s.len(),
    decreases s.len() - pos, 0nat,
{
    let kend = spec_parse_key(s, pos)->Ok_0.1;
    lemma_range_value(s, kend);
}

/// A successful entry-sequence read never moves backwards, and stays inside
/// the buffer whenever it read anything.
proof fn lemma_range_entries(s: Seq<u8>, pos: int, n: nat)
    requires
        spec_parse_entries(s, pos, n) is Ok,
    ensures
        pos <= spec_parse_entries(s, pos, n)->Ok_0.1,
        n == 0 ==> spec_parse_entries(s, pos, n)->Ok_0.1 == pos,
        n > 0 ==> spec_parse_entries(s, pos, n)->Ok_0.1 <= s.len(),
    decreases s.len() - pos, n + 1,
{
    if n > 0 {
        lemma_range_entry(s, pos);
        let vend = spec_parse_entry(s, pos)->Ok_0.1;
        lemma_range_entries(s, vend, (n - 1) as nat);
    }
}

/// A successful item-sequence read never moves backwards, and stays inside
/// the buffer whenever it read anything.
proof fn lemma_range_items(s: Seq<u8>, pos: int, n: nat)
    requires
        spec_parse_items(s, pos, n) is Ok,
    ensures
        pos <= spec_parse_items(s, pos, n)->Ok_0.1,
        n == 0 ==> spec_parse_items(s, pos, n)->Ok_0.1 == pos,
        n > 0 ==> spec_parse_items(s, pos, n)->Ok_0.1 <= s.len(),
    decreases s.len() - pos, n + 1,
{
    if n > 0 {
        lemma_range_value(s, pos);
        let vend = spec_parse_value(s, pos)->Ok_0.1;
        lemma_range_items(s, vend, (n - 1) as nat);
    }
}

/// A successful shape read consumes exactly 8 bytes per dimension.
proof fn lemma_range_dims(s: Seq<u8>, pos: int, n: nat)
    requires
        spec_parse_dims(s, pos, n) is Ok,
    ensures
        spec_parse_dims(s, pos, n)->Ok_0.1 == pos + 8 * n,
        n > 0 ==> spec_parse_dims(s, pos, n)->Ok_0.1 <= s.len(),
    decreases n,
{
    if n > 0 {
        lemma_range_dims(s, pos + 8, (n - 1) as nat);
    }
}

/// Reading from a prefix: a read wholly inside the prefix gives the same
/// bytes; one reaching past it fails with the end-of-input error.
proof fn lemma_take_prefix(s: Seq<u8>, lim: int, pos: int, n: int)
    requires
        0 <= lim <= s.len(),
        0 <= pos,
        0 <= n,
    ensures
        pos + n <= lim ==> spec_take(s.take(lim), pos, n) == spec_take(s, pos, n),
        pos + n > lim ==> (spec_take(s.take(lim), pos, n) matches Err(e) && e is UnexpectedEnd),
{
    if pos + n <= lim {
        assert(s.take(lim).subrange(pos, pos + n) =~= s.subrange(pos, pos + n));
    }
}

/// Truncation behaviour of a u32-length-prefixed string read.
proof fn lemma_prefix_str(s: Seq<u8>, lim: int, pos: int)
    requires
        0 <= pos,
        0 <= lim <= s.len(),
        spec_parse_str(s, pos) is Ok,
    ensures
        spec_parse_str(s, pos)->Ok_0.1 <= lim ==> spec_parse_str(s.take(lim), pos)
            == spec_parse_str(s, pos),
        lim < spec_parse_str(s, pos)->Ok_0.1 ==> (spec_parse_str(s.take(lim), pos) matches Err(e)
            && e is UnexpectedEnd),
{
    let lb = spec_take(s, pos, 4)->Ok_0;
    let len = vstd::bytes::spec_u32_from_le_bytes(lb) as int;
    lemma_take_prefix(s, lim, pos, 4);
    if pos + 4 <= lim {
        lemma_take_prefix(s, lim, pos + 4, len);
    }
}

/// Truncation behaviour of a u16-length-prefixed key read.
proof fn lemma_prefix_key(s: Seq<u8>, lim: int, pos: int)
    requires
        0 <= pos,
        0 <= lim <= s.len(),
        spec_parse_key(s, pos) is Ok,
    ensures
        spec_parse_key(s, pos)->Ok_0.1 <= lim ==> spec_parse_key(s.take(lim), pos)
            == spec_parse_key(s, pos),
        lim < spec_parse_key(s, pos)->Ok_0.1 ==> (spec_parse_key(s.take(lim), pos) matches Err(e)
            && e is UnexpectedEnd),
{
    let lb = spec_take(s, pos, 2)->Ok_0;
    let len = vstd::bytes::spec_u16_from_le_bytes(lb) as int;
    lemma_take_prefix(s, lim, pos, 2);
    if pos + 2 <= lim {
        lemma_take_prefix(s, lim, pos + 2, len);
    }
}

/// Truncation behaviour of a shape read of `n` dimensions.
proof fn lemma_prefix_dims(s: Seq<u8>, lim: int, pos: int, n: nat)
    requires
        0 <= pos,
        0 <= lim <= s.len(),
        spec_parse_dims(s, pos, n) is Ok,
    ensures
        spec_parse_dims(s, pos, n)->Ok_0.1 <= lim ==> spec_parse_dims(s.take(lim), pos, n)
            == spec_parse_dims(s, pos, n),
        (lim < spec_parse_dims(s, pos, n)->Ok_0.1 && n > 0) ==> (spec_parse_dims(
            s.take(lim),
            pos,
            n,
        ) matches Err(e) && e is UnexpectedEnd),
    decreases n,
{
    if n > 0 {
        lemma_range_dims(s, pos, n);
        lemma_range_dims(s, pos + 8, (n - 1) as nat);
        lemma_take_prefix(s, lim, pos, 8);
        if pos + 8 <= lim {
            lemma_prefix_dims(s, lim, pos + 8, (n - 1) as nat);
        }
    }
}

/// Truncation behaviour of an array body read.
proof fn lemma_prefix_array_body(s: Seq<u8>, lim: int, pos: int)
    requires
        0 <= pos,
        0 <= lim <= s.len(),
        spec_parse_array_body(s, pos) is Ok,
    ensures
        spec_parse_array_body(s, pos)->Ok_0.1 <= lim ==> spec_parse_array_body(s.take(lim), pos)
            == spec_parse_array_body(s, pos),
        lim < spec_parse_array_body(s, pos)->Ok_0.1 ==> (spec_parse_array_body(
            s.take(lim),
            pos,
        ) matches Err(e) && e is UnexpectedEnd),
{
    let nd = spec_take(s, pos + 1, 1)->Ok_0[0] as nat;
    lemma_range_dims(s, pos + 2, nd);
    lemma_take_prefix(s, lim, pos, 1);
    if pos + 1 <= lim {
        lemma_take_prefix(s, lim, pos + 1, 1);
        if pos + 2 <= lim {
            lemma_prefix_dims(s, lim, pos + 2, nd);
            let dend = spec_parse_dims(s, pos + 2, nd)->Ok_0.1;
            if dend <= lim {
                lemma_take_prefix(s, lim, dend, 8);
                if dend + 8 <= lim {
                    let dlen = vstd::bytes::spec_u64_from_le_bytes(
                        spec_take(s, dend, 8)->Ok_0,
                    ) as int;
                    lemma_take_prefix(s, lim, dend + 8, dlen);
                }
            }
        }
    }
}

/// Truncation behaviour of a file body read.
proof fn lemma_prefix_file_body(s: Seq<u8>, lim: int, pos: int)
    requires
        0 <= pos,
        0 <= lim <= s.len(),
        spec_parse_file_body(s, pos) is Ok,
    ensures
        spec_parse_file_body(s, pos)->Ok_0.1 <= lim ==> spec_parse_file_body(s.take(lim), pos)
            == spec_parse_file_body(s, pos),
        lim < spec_parse_file_body(s, pos)->Ok_0.1 ==> (spec_parse_file_body(
            s.take(lim),
            pos,
        ) matches Err(e) && e is UnexpectedEnd),
{
    let mlen = vstd::bytes::spec_u16_from_le_bytes(spec_take(s, pos, 2)->Ok_0) as int;
    lemma_take_prefix(s, lim, pos, 2);
    if pos + 2 <= lim {
        lemma_take_prefix(s, lim, pos + 2, mlen);
        if pos + 2 + mlen <= lim {
            lemma_take_prefix(s, lim, pos + 2 + mlen, 8);
            if pos + 2 + mlen + 8 <= lim {
                let dlen = vstd::bytes::spec_u64_from_le_bytes(
                    spec_take(s, pos + 2 + mlen, 8)->Ok_0,
                ) as int;
                lemma_take_prefix(s, lim, pos + 2 + mlen + 8, dlen);
            }
        }
    }
}

/// Truncation behaviour of a whole value read: a value wholly inside the
/// prefix parses identically; one the cut passes through fails with the
/// end-of-input error.
#[verifier::spinoff_prover]
#[verifier::rlimit(100)]
proof fn lemma_prefix_value(s: Seq<u8>, lim: int, pos: int)
    requires
        0 <= pos,
        0 <= lim <= s.len(),
        spec_parse_value(s, pos) is Ok,
    ensures
        spec_parse_value(s, pos)->Ok_0.1 <= lim ==> spec_parse_value(s.take(lim), pos)
            == spec_parse_value(s, pos),
        lim < spec_parse_value(s, pos)->Ok_0.1 ==> (spec_parse_value(s.take(lim), pos) matches Err(
            e,
        ) && e is UnexpectedEnd),
    decreases s.len() - pos, 0nat,
{
    lemma_range_value(s, pos);
    let tag = spec_take(s, pos, 1)->Ok_0[0];
    assert(tag == 0x01 || tag == 0x02 || tag == 0x03 || tag == 0x04 || tag == 0x05 || tag == 0x06
        || tag == 0x07 || tag == 0x08) by {
        if !(tag == 0x01 || tag == 0x02 || tag == 0x03 || tag == 0x04 || tag == 0x05 || tag
            == 0x06 || tag == 0x07 || tag == 0x08) {
            assert(spec_parse_value(s, pos) is Err);
        }
    }
    lemma_take_prefix(s, lim, pos, 1);
    if pos + 1 <= lim {
        if tag == 0x01 {
            lemma_take_prefix(s, lim, pos + 1, 1);
        } else if tag == 0x02 || tag == 0x03 {
            lemma_take_prefix(s, lim, pos + 1, 8);
        } else if tag == 0x04 {
            lemma_prefix_str(s, lim, pos + 1);
        } else if tag == 0x05 {
            lemma_range_array_body(s, pos + 1);
            lemma_prefix_array_body(s, lim, pos + 1);
        } else if tag == 0x06 {
            lemma_prefix_file_body(s, lim, pos + 1);
        } else if tag == 0x07 {
            lemma_take_prefix(s, lim, pos + 1, 4);
            let cnt = vstd::bytes::spec_u32_from_le_bytes(spec_take(s, pos + 1, 4)->Ok_0) as nat;
            lemma_range_entries(s, pos + 5, cnt);
            if pos + 5 <= lim {
                lemma_prefix_entries(s, lim, pos + 5, cnt);
            }
        } else if tag == 0x08 {
            lemma_take_prefix(s, lim, pos + 1, 4);
            let cnt = vstd::bytes::spec_u32_from_le_bytes(spec_take(s, pos + 1, 4)->Ok_0) as nat;
            lemma_range_items(s, pos + 5, cnt);
            if pos + 5 <= lim {
                lemma_prefix_items(s, lim, pos + 5, cnt);
            }
        }
    }
}

/// Truncation behaviour of one entry read.
proof fn lemma_prefix_entry(s: Seq<u8>, lim: int, pos: int)
    requires
        0 <= pos,
        0 <= lim <= s.len(),
        spec_parse_entry(s, pos) is Ok,
    ensures
        spec_parse_entry(s, pos)->Ok_0.1 <= lim ==> spec_parse_entry(s.take(lim), pos)
            == spec_parse_entry(s, pos),
        lim < spec_parse_entry(s, pos)->Ok_0.1 ==> (spec_parse_entry(s.take(lim), pos) matches Err(
            e,
        ) && e is UnexpectedEnd),
    decreases s.len() - pos, 0nat,
{
    lemma_prefix_key(s, lim, pos);
    let kend = spec_parse_key(s, pos)->Ok_0.1;
    lemma_range_value(s, kend);
    if kend <= lim {
        lemma_prefix_value(s, lim, kend);
    }
}

/// Truncation behaviour of an entry sequence read.
proof fn lemma_prefix_entries(s: Seq<u8>, lim: int, pos: int, n: nat)
    requires
        0 <= pos,
        0 <= lim <= s.len(),
        spec_parse_entries(s, pos, n) is Ok,
    ensures
        spec_parse_entries(s, pos, n)->Ok_0.1 <= lim ==> spec_parse_entries(s.take(lim), pos, n)
            == spec_parse_entries(s, pos, n),
        (lim < spec_parse_entries(s, pos, n)->Ok_0.1 && n > 0) ==> (spec_parse_entries(
            s.take(lim),
            pos,
            n,
        ) matches Err(e) && e is UnexpectedEnd),
    decreases s.len() - pos, n + 1,
{
    if n > 0 {
        lemma_range_entry(s, pos);
        lemma_prefix_entry(s, lim, pos);
        let vend = spec_parse_entry(s, pos)->Ok_0.1;
        lemma_range_entries(s, vend, (n - 1) as nat);
        if vend <= lim {
            lemma_prefix_entries(s, lim, vend, (n - 1) as nat);
        }
    }
}

/// Truncation behaviour of an item sequence read.
proof fn lemma_prefix_items(s: Seq<u8>, lim: int, pos: int, n: nat)
    requires
        0 <= pos,
        0 <= lim <= s.len(),
        spec_parse_items(s, pos, n) is Ok,
    ensures
        spec_parse_items(s, pos, n)->Ok_0.1 <= lim ==> spec_parse_items(s.take(lim), pos, n)
            == spec_parse_items(s, pos, n),
        (lim < spec_parse_items(s, pos, n)->Ok_0.1 && n > 0) ==> (spec_parse_items(
            s.take(lim),
            pos,
            n,
        ) matches Err(e) && e is UnexpectedEnd),
    decreases s.len() - pos, n + 1,
{
    if n > 0 {
        lemma_range_value(s, pos);
        lemma_prefix_value(s, lim, pos);
        let vend = spec_parse_value(s, pos)->Ok_0.1;
        lemma_range_items(s, vend, (n - 1) as nat);
        if vend <= lim {
            lemma_prefix_items(s, lim, vend, (n - 1) as nat);
        }
    }
}

/// Truncation safety: decoding any strict prefix of a well-formed value's
/// artifact fails with an end-of-input error at a position the format
/// determines, never with a value and never with a different error kind.
pub proof fn lemma_truncation(v: SpecValue, n: int)
    requires
        wf_value(v),
        0 <= n < spec_artifact(v).len(),
    ensures
        spec_decode(spec_artifact(v).take(n)) matches Err(e) && e is UnexpectedEnd,
{
    lemma_auto_spec_u32_to_from_le_bytes();
    lemma_auto_spec_u64_to_from_le_bytes();
    let enc = spec_encode_value(v);
    let art = spec_artifact(v);
    let t = art.take(n);
    assert(art.len() == 24 + enc.len());
    if n < 24 {
        assert(t.len() < PREFIX_SIZE);
    } else {
        lemma_round_trip(v);
        assert(t.subrange(0, 8) =~= art.subrange(0, 8));
        assert(t.subrange(8, 12) =~= art.subrange(8, 12));
        lemma_prefix_value(art, n, PREFIX_SIZE as int);
        assert(spec_parse_value(art, PREFIX_SIZE as int)->Ok_0.1 == 24 + enc.len());
    }
}

/// Round-trip identity: decoding the artifact the encoder produces for any
/// well-formed value gives exactly that value back.
pub proof fn lemma_round_trip(v: SpecValue)
    requires
        wf_value(v),
    ensures
        spec_decode(spec_artifact(v)) == Ok::<SpecValue, BlobfigError>(v),
        spec_parse_value(spec_artifact(v), PREFIX_SIZE as int) == Ok::<_, BlobfigError>(
            (v, spec_artifact(v).len() as int),
        ),
{
    lemma_auto_spec_u32_to_from_le_bytes();
    lemma_auto_spec_u64_to_from_le_bytes();
    let enc = spec_encode_value(v);
    let art = spec_artifact(v);
    let ver = spec_u32_to_le_bytes(VERSION);
    let flags = spec_u32_to_le_bytes(0u32);
    let rootsize = spec_u64_to_le_bytes(enc.len() as u64);
    assert(art.len() == 24 + enc.len());
    assert(art.subrange(0, art.len() as int) == art);
    assert(spec_magic() + (ver + (flags + (rootsize + enc))) =~= art);
    assert(art.subrange(0, art.len() as int) =~= art);
    lemma_sub_extract(art, 0, spec_magic(), ver + (flags + (rootsize + enc)));
    lemma_sub_extract(art, 8, ver, flags + (rootsize + enc));
    lemma_sub_extract(art, 12, flags, rootsize + enc);
    lemma_sub_extract(art, 16, rootsize, enc);
    assert(art.subrange(0, 8) == spec_magic());
    assert(art.subrange(8, 12) == ver);
    lemma_parse_encoded_value(art, PREFIX_SIZE as int, v);
}

} // verus!

