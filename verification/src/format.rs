//! The byte-level layout of the format, stated mathematically.
//!
//! [`SpecValue`] is the abstract value tree: what a value is, independent of
//! whether it is held as an owned tree or as borrowed views. Strings appear as
//! their UTF-8 byte sequences and floating-point scalars as their IEEE 754
//! bit patterns, so the whole model is over plain integers and byte
//! sequences.
//!
//! [`spec_encode_value`] defines the byte encoding of a value and
//! [`spec_parse_value`] the result of reading one value from a byte sequence:
//! either the value with the position just past it, or the decode error, with
//! its offset, that reading stops on. The executable encoder and decoder are
//! verified against these two functions, and the round-trip and truncation
//! laws are stated over them.
use crate::error::BlobfigError;
use crate::types::DType;
use crate::types::header::{PREFIX_SIZE, VERSION, spec_magic};
use vstd::bytes::{spec_u16_from_le_bytes, spec_u16_to_le_bytes, spec_u32_from_le_bytes,
    spec_u32_to_le_bytes, spec_u64_from_le_bytes, spec_u64_to_le_bytes};
use vstd::prelude::*;
use vstd::utf8::valid_utf8;

verus! {

/// The reserved path-separator byte, `'.'`.
///
/// Object keys must not contain it; the path accessor splits lookup paths on
/// it. The encoder enforces the restriction as a hard error.
pub const PATH_SEPARATOR: u8 = 0x2E;

/// An abstract value of the format: the mathematical model shared by owned
/// values and borrowed views.
pub enum SpecValue {
    Bool(bool),
    Int(i64),
    /// IEEE 754 bit pattern of a 64-bit float.
    Float(u64),
    /// UTF-8 bytes of a text string.
    Str(Seq<u8>),
    Array { dtype: DType, shape: Seq<u64>, data: Seq<u8> },
    /// UTF-8 bytes of the mimetype, then the opaque payload.
    File { mime: Seq<u8>, data: Seq<u8> },
    Object(Seq<(Seq<u8>, SpecValue)>),
    List(Seq<SpecValue>),
}

/// Well-formedness: every length and count fits the width of its wire field,
/// and every text region is valid UTF-8. Encoding is exact precisely on
/// well-formed values.
pub open spec fn wf_value(v: SpecValue) -> bool
    decreases v,
{
    match v {
        SpecValue::Bool(_) => true,
        SpecValue::Int(_) => true,
        SpecValue::Float(_) => true,
        SpecValue::Str(s) => s.len() <= u32::MAX && valid_utf8(s),
        SpecValue::Array { dtype, shape, data } => shape.len() <= 255 && data.len() <= u64::MAX,
        SpecValue::File { mime, data } => mime.len() <= u16::MAX && valid_utf8(mime) && data.len()
            <= u64::MAX,
        SpecValue::Object(es) => es.len() <= u32::MAX && wf_entries(es),
        SpecValue::List(vs) => vs.len() <= u32::MAX && wf_items(vs),
    }
}

pub open spec fn wf_entries(es: Seq<(Seq<u8>, SpecValue)>) -> bool
    decreases es,
{
    if es.len() == 0 {
        true
    } else {
        &&& es[0].0.len() <= u16::MAX
        &&& valid_utf8(es[0].0)
        &&& wf_value(es[0].1)
        &&& wf_entries(es.drop_first())
    }
}

pub open spec fn wf_items(vs: Seq<SpecValue>) -> bool
    decreases vs,
{
    if vs.len() == 0 {
        true
    } else {
        wf_value(vs[0]) && wf_items(vs.drop_first())
    }
}

/// True when some object key somewhere in the tree contains the reserved
/// path-separator byte. The encoder rejects exactly these trees.
pub open spec fn has_reserved_key(v: SpecValue) -> bool
    decreases v,
{
    match v {
        SpecValue::Object(es) => entries_have_reserved_key(es),
        SpecValue::List(vs) => items_have_reserved_key(vs),
        _ => false,
    }
}

pub open spec fn entries_have_reserved_key(es: Seq<(Seq<u8>, SpecValue)>) -> bool
    decreases es,
{
    if es.len() == 0 {
        false
    } else {
        ||| es[0].0.contains(PATH_SEPARATOR)
        ||| has_reserved_key(es[0].1)
        ||| entries_have_reserved_key(es.drop_first())
    }
}

pub open spec fn items_have_reserved_key(vs: Seq<SpecValue>) -> bool
    decreases vs,
{
    if vs.len() == 0 {
        false
    } else {
        has_reserved_key(vs[0]) || items_have_reserved_key(vs.drop_first())
    }
}

/// The byte encoding of one value: a tag byte, then the variant's payload.
pub open spec fn spec_encode_value(v: SpecValue) -> Seq<u8>
    decreases v,
{
    match v {
        SpecValue::Bool(b) => seq![0x01u8, if b { 1u8 } else { 0u8 }],
        SpecValue::Int(i) => seq![0x02u8] + spec_u64_to_le_bytes(i as u64),
        SpecValue::Float(bits) => seq![0x03u8] + spec_u64_to_le_bytes(bits),
        SpecValue::Str(s) => seq![0x04u8] + spec_u32_to_le_bytes(s.len() as u32) + s,
        SpecValue::Array { dtype, shape, data } => seq![0x05u8, dtype.spec_to_u8(), shape.len() as u8]
            + spec_encode_dims(shape) + spec_u64_to_le_bytes(data.len() as u64) + data,
        SpecValue::File { mime, data } => seq![0x06u8] + spec_u16_to_le_bytes(mime.len() as u16)
            + mime + spec_u64_to_le_bytes(data.len() as u64) + data,
        SpecValue::Object(es) => seq![0x07u8] + spec_u32_to_le_bytes(es.len() as u32)
            + spec_encode_entries(es),
        SpecValue::List(vs) => seq![0x08u8] + spec_u32_to_le_bytes(vs.len() as u32)
            + spec_encode_items(vs),
    }
}

/// Shape dimensions, each as 8 little-endian bytes.
pub open spec fn spec_encode_dims(shape: Seq<u64>) -> Seq<u8>
    decreases shape,
{
    if shape.len() == 0 {
        Seq::empty()
    } else {
        spec_u64_to_le_bytes(shape[0]) + spec_encode_dims(shape.drop_first())
    }
}

/// Object entries in order: a 16-bit key length, the key bytes, the value.
pub open spec fn spec_encode_entries(es: Seq<(Seq<u8>, SpecValue)>) -> Seq<u8>
    decreases es,
{
    if es.len() == 0 {
        Seq::empty()
    } else {
        spec_u16_to_le_bytes(es[0].0.len() as u16) + es[0].0 + spec_encode_value(es[0].1)
            + spec_encode_entries(es.drop_first())
    }
}

/// List items in order.
pub open spec fn spec_encode_items(vs: Seq<SpecValue>) -> Seq<u8>
    decreases vs,
{
    if vs.len() == 0 {
        Seq::empty()
    } else {
        spec_encode_value(vs[0]) + spec_encode_items(vs.drop_first())
    }
}

/// A complete artifact: the 24-byte prefix, then the root value's encoding.
pub open spec fn spec_artifact(v: SpecValue) -> Seq<u8> {
    spec_magic() + spec_u32_to_le_bytes(VERSION) + spec_u32_to_le_bytes(0u32)
        + spec_u64_to_le_bytes(spec_encode_value(v).len() as u64) + spec_encode_value(v)
}

/// Read `n` bytes starting at `pos`, or fail with the end-of-input error
/// located at `pos`. This bounds check guards every read the parser makes.
pub open spec fn spec_take(s: Seq<u8>, pos: int, n: int) -> Result<Seq<u8>, BlobfigError> {
    if 0 <= pos && 0 <= n && pos + n <= s.len() {
        Ok(s.subrange(pos, pos + n))
    } else {
        Err(BlobfigError::UnexpectedEnd { offset: pos as usize })
    }
}

/// Read a 16-bit length prefix, then that many key bytes, which must be
/// valid UTF-8. Returns the key bytes and the position just past them.
pub open spec fn spec_parse_key(s: Seq<u8>, pos: int) -> Result<(Seq<u8>, int), BlobfigError> {
    match spec_take(s, pos, 2) {
        Err(e) => Err(e),
        Ok(lb) => {
            let len = spec_u16_from_le_bytes(lb) as int;
            match spec_take(s, pos + 2, len) {
                Err(e) => Err(e),
                Ok(kb) => if valid_utf8(kb) {
                    Ok((kb, pos + 2 + len))
                } else {
                    Err(BlobfigError::InvalidUtf8 { offset: (pos + 2) as usize })
                },
            }
        },
    }
}

/// Read a 32-bit length prefix, then that many string bytes, which must be
/// valid UTF-8.
pub open spec fn spec_parse_str(s: Seq<u8>, pos: int) -> Result<(Seq<u8>, int), BlobfigError> {
    match spec_take(s, pos, 4) {
        Err(e) => Err(e),
        Ok(lb) => {
            let len = spec_u32_from_le_bytes(lb) as int;
            match spec_take(s, pos + 4, len) {
                Err(e) => Err(e),
                Ok(sb) => if valid_utf8(sb) {
                    Ok((sb, pos + 4 + len))
                } else {
                    Err(BlobfigError::InvalidUtf8 { offset: (pos + 4) as usize })
                },
            }
        },
    }
}

/// Read `n` shape dimensions of 8 little-endian bytes each.
pub open spec fn spec_parse_dims(s: Seq<u8>, pos: int, n: nat) -> Result<
    (Seq<u64>, int),
    BlobfigError,
>
    decreases n,
{
    if n == 0 {
        Ok((Seq::empty(), pos))
    } else {
        match spec_take(s, pos, 8) {
            Err(e) => Err(e),
            Ok(db) => match spec_parse_dims(s, pos + 8, (n - 1) as nat) {
                Err(e) => Err(e),
                Ok((rest, end)) => Ok((seq![spec_u64_from_le_bytes(db)] + rest, end)),
            },
        }
    }
}

/// The body of an array value, after its tag byte: element type, dimension
/// count, dimensions, payload length, payload. The payload length is taken
/// as declared; it is not checked against the shape.
pub open spec fn spec_parse_array_body(s: Seq<u8>, pos: int) -> Result<
    (SpecValue, int),
    BlobfigError,
> {
    match spec_take(s, pos, 1) {
        Err(e) => Err(e),
        Ok(db) => match DType::spec_from_u8(db[0]) {
            None => Err(BlobfigError::InvalidDType { offset: pos as usize, tag: db[0] }),
            Some(dtype) => match spec_take(s, pos + 1, 1) {
                Err(e) => Err(e),
                Ok(nb) => match spec_parse_dims(s, pos + 2, nb[0] as nat) {
                    Err(e) => Err(e),
                    Ok((shape, dend)) => match spec_take(s, dend, 8) {
                        Err(e) => Err(e),
                        Ok(lb) => {
                            let dlen = spec_u64_from_le_bytes(lb) as int;
                            match spec_take(s, dend + 8, dlen) {
                                Err(e) => Err(e),
                                Ok(data) => Ok(
                                    (SpecValue::Array { dtype, shape, data }, dend + 8 + dlen),
                                ),
                            }
                        },
                    },
                },
            },
        },
    }
}

/// The body of a file value, after its tag byte: mimetype length, mimetype
/// bytes (validated as UTF-8), payload length, payload.
pub open spec fn spec_parse_file_body(s: Seq<u8>, pos: int) -> Result<
    (SpecValue, int),
    BlobfigError,
> {
    match spec_take(s, pos, 2) {
        Err(e) => Err(e),
        Ok(lb) => {
            let mlen = spec_u16_from_le_bytes(lb) as int;
            match spec_take(s, pos + 2, mlen) {
                Err(e) => Err(e),
                Ok(mime) => if valid_utf8(mime) {
                    match spec_take(s, pos + 2 + mlen, 8) {
                        Err(e) => Err(e),
                        Ok(db) => {
                            let dlen = spec_u64_from_le_bytes(db) as int;
                            match spec_take(s, pos + 2 + mlen + 8, dlen) {
                                Err(e) => Err(e),
                                Ok(data) => Ok(
                                    (SpecValue::File { mime, data }, pos + 2 + mlen + 8 + dlen),
                                ),
                            }
                        },
                    }
                } else {
                    Err(BlobfigError::InvalidUtf8 { offset: (pos + 2) as usize })
                },
            }
        },
    }
}

/// Read one value starting at `pos`: the value and the position just past
/// it, or the error reading stops on. Deterministic: the same bytes always
/// give the same result.
pub open spec fn spec_parse_value(s: Seq<u8>, pos: int) -> Result<(SpecValue, int), BlobfigError>
    decreases s.len() - pos, 0nat,
{
    match spec_take(s, pos, 1) {
        Err(e) => Err(e),
        Ok(tb) => {
            let tag = tb[0];
            if tag == 0x01 {
                match spec_take(s, pos + 1, 1) {
                    Err(e) => Err(e),
                    Ok(bb) => Ok((SpecValue::Bool(bb[0] != 0), pos + 2)),
                }
            } else if tag == 0x02 {
                match spec_take(s, pos + 1, 8) {
                    Err(e) => Err(e),
                    Ok(ib) => Ok((SpecValue::Int(spec_u64_from_le_bytes(ib) as i64), pos + 9)),
                }
            } else if tag == 0x03 {
                match spec_take(s, pos + 1, 8) {
                    Err(e) => Err(e),
                    Ok(fb) => Ok((SpecValue::Float(spec_u64_from_le_bytes(fb)), pos + 9)),
                }
            } else if tag == 0x04 {
                match spec_parse_str(s, pos + 1) {
                    Err(e) => Err(e),
                    Ok((sb, end)) => Ok((SpecValue::Str(sb), end)),
                }
            } else if tag == 0x05 {
                spec_parse_array_body(s, pos + 1)
            } else if tag == 0x06 {
                spec_parse_file_body(s, pos + 1)
            } else if tag == 0x07 {
                match spec_take(s, pos + 1, 4) {
                    Err(e) => Err(e),
                    Ok(cb) => match spec_parse_entries(s, pos + 5, spec_u32_from_le_bytes(cb) as nat) {
                        Err(e) => Err(e),
                        Ok((es, end)) => Ok((SpecValue::Object(es), end)),
                    },
                }
            } else if tag == 0x08 {
                match spec_take(s, pos + 1, 4) {
                    Err(e) => Err(e),
                    Ok(cb) => match spec_parse_items(s, pos + 5, spec_u32_from_le_bytes(cb) as nat) {
                        Err(e) => Err(e),
                        Ok((vs, end)) => Ok((SpecValue::List(vs), end)),
                    },
                }
            } else {
                Err(BlobfigError::InvalidValueTag { offset: pos as usize, tag })
            }
        },
    }
}

/// Read one object entry: a key, then the value it maps to.
pub open spec fn spec_parse_entry(s: Seq<u8>, pos: int) -> Result<
    ((Seq<u8>, SpecValue), int),
    BlobfigError,
>
    decreases s.len() - pos, 0nat,
{
    match spec_parse_key(s, pos) {
        Err(e) => Err(e),
        Ok((key, kend)) => if pos < kend <= s.len() {
            match spec_parse_value(s, kend) {
                Err(e) => Err(e),
                Ok((v, vend)) => Ok(((key, v), vend)),
            }
        } else {
            Err(BlobfigError::UnexpectedEnd { offset: pos as usize })
        },
    }
}

/// Read `n` object entries in sequence.
pub open spec fn spec_parse_entries(s: Seq<u8>, pos: int, n: nat) -> Result<
    (Seq<(Seq<u8>, SpecValue)>, int),
    BlobfigError,
>
    decreases s.len() - pos, n + 1,
{
    if n == 0 {
        Ok((Seq::empty(), pos))
    } else {
        match spec_parse_entry(s, pos) {
            Err(e) => Err(e),
            Ok(((key, v), vend)) => if pos < vend <= s.len() {
                match spec_parse_entries(s, vend, (n - 1) as nat) {
                    Err(e) => Err(e),
                    Ok((rest, end)) => Ok((seq![(key, v)] + rest, end)),
                }
            } else {
                Err(BlobfigError::UnexpectedEnd { offset: pos as usize })
            },
        }
    }
}

/// Read `n` list items in sequence.
pub open spec fn spec_parse_items(s: Seq<u8>, pos: int, n: nat) -> Result<
    (Seq<SpecValue>, int),
    BlobfigError,
>
    decreases s.len() - pos, n + 1,
{
    if n == 0 {
        Ok((Seq::empty(), pos))
    } else {
        match spec_parse_value(s, pos) {
            Err(e) => Err(e),
            Ok((v, vend)) => if pos < vend <= s.len() {
                match spec_parse_items(s, vend, (n - 1) as nat) {
                    Err(e) => Err(e),
                    Ok((rest, end)) => Ok((seq![v] + rest, end)),
                }
            } else {
                Err(BlobfigError::UnexpectedEnd { offset: pos as usize })
            },
        }
    }
}

/// Dimensions encode to exactly 8 bytes each.
pub proof fn lemma_encode_dims_len(shape: Seq<u64>)
    ensures
        spec_encode_dims(shape).len() == 8 * shape.len(),
    decreases shape.len(),
{
    vstd::bytes::lemma_auto_spec_u64_to_from_le_bytes();
    if shape.len() > 0 {
        lemma_encode_dims_len(shape.drop_first());
    }
}

/// Encoding dimensions distributes over concatenation.
pub proof fn lemma_encode_dims_concat(a: Seq<u64>, b: Seq<u64>)
    ensures
        spec_encode_dims(a + b) == spec_encode_dims(a) + spec_encode_dims(b),
    decreases a.len(),
{
    if a.len() == 0 {
        assert(a + b =~= b);
        assert(spec_encode_dims(a) + spec_encode_dims(b) =~= spec_encode_dims(b));
    } else {
        assert((a + b).drop_first() =~= a.drop_first() + b);
        lemma_encode_dims_concat(a.drop_first(), b);
        assert(spec_encode_dims(a + b) =~= spec_encode_dims(a) + spec_encode_dims(b));
    }
}

/// Encoding entries distributes over concatenation.
pub proof fn lemma_encode_entries_concat(a: Seq<(Seq<u8>, SpecValue)>, b: Seq<(Seq<u8>, SpecValue)>)
    ensures
        spec_encode_entries(a + b) == spec_encode_entries(a) + spec_encode_entries(b),
    decreases a.len(),
{
    if a.len() == 0 {
        assert(a + b =~= b);
        assert(spec_encode_entries(a) + spec_encode_entries(b) =~= spec_encode_entries(b));
    } else {
        assert((a + b).drop_first() =~= a.drop_first() + b);
        lemma_encode_entries_concat(a.drop_first(), b);
        assert(spec_encode_entries(a + b) =~= spec_encode_entries(a) + spec_encode_entries(b));
    }
}

/// Encoding items distributes over concatenation.
pub proof fn lemma_encode_items_concat(a: Seq<SpecValue>, b: Seq<SpecValue>)
    ensures
        spec_encode_items(a + b) == spec_encode_items(a) + spec_encode_items(b),
    decreases a.len(),
{
    if a.len() == 0 {
        assert(a + b =~= b);
        assert(spec_encode_items(a) + spec_encode_items(b) =~= spec_encode_items(b));
    } else {
        assert((a + b).drop_first() =~= a.drop_first() + b);
        lemma_encode_items_concat(a.drop_first(), b);
        assert(spec_encode_items(a + b) =~= spec_encode_items(a) + spec_encode_items(b));
    }
}

/// One dimension encodes to its 8 little-endian bytes.
pub proof fn lemma_encode_dims_singleton(d: u64)
    ensures
        spec_encode_dims(seq![d]) == spec_u64_to_le_bytes(d),
{
    assert(seq![d].drop_first() =~= Seq::<u64>::empty());
    assert(spec_encode_dims(Seq::<u64>::empty()) == Seq::<u8>::empty());
    assert(spec_encode_dims(seq![d]) =~= spec_u64_to_le_bytes(d));
}

/// One entry encodes to its key length, key bytes and value bytes.
pub proof fn lemma_encode_entries_singleton(e: (Seq<u8>, SpecValue))
    ensures
        spec_encode_entries(seq![e]) == spec_u16_to_le_bytes(e.0.len() as u16) + e.0
            + spec_encode_value(e.1),
        entries_have_reserved_key(seq![e]) == (e.0.contains(PATH_SEPARATOR) || has_reserved_key(
            e.1,
        )),
{
    assert(seq![e].drop_first() =~= Seq::<(Seq<u8>, SpecValue)>::empty());
    assert(spec_encode_entries(Seq::<(Seq<u8>, SpecValue)>::empty()) == Seq::<u8>::empty());
    assert(!entries_have_reserved_key(Seq::<(Seq<u8>, SpecValue)>::empty()));
    assert(spec_encode_entries(seq![e]) =~= spec_u16_to_le_bytes(e.0.len() as u16) + e.0
        + spec_encode_value(e.1));
}

/// One item encodes to its value bytes.
pub proof fn lemma_encode_items_singleton(v: SpecValue)
    ensures
        spec_encode_items(seq![v]) == spec_encode_value(v),
        items_have_reserved_key(seq![v]) == has_reserved_key(v),
{
    assert(seq![v].drop_first() =~= Seq::<SpecValue>::empty());
    assert(spec_encode_items(Seq::<SpecValue>::empty()) == Seq::<u8>::empty());
    assert(!items_have_reserved_key(Seq::<SpecValue>::empty()));
    assert(spec_encode_items(seq![v]) =~= spec_encode_value(v));
}

/// Well-formedness of every entry, by index.
pub proof fn lemma_wf_entries_index(es: Seq<(Seq<u8>, SpecValue)>, i: int)
    requires
        wf_entries(es),
        0 <= i < es.len(),
    ensures
        es[i].0.len() <= u16::MAX,
        valid_utf8(es[i].0),
        wf_value(es[i].1),
    decreases es.len(),
{
    if i > 0 {
        lemma_wf_entries_index(es.drop_first(), i - 1);
    }
}

/// Well-formedness of every item, by index.
pub proof fn lemma_wf_items_index(vs: Seq<SpecValue>, i: int)
    requires
        wf_items(vs),
        0 <= i < vs.len(),
    ensures
        wf_value(vs[i]),
    decreases vs.len(),
{
    if i > 0 {
        lemma_wf_items_index(vs.drop_first(), i - 1);
    }
}

/// A reserved key at any index makes the whole entry sequence reserved.
pub proof fn lemma_entries_reserved_index(es: Seq<(Seq<u8>, SpecValue)>, i: int)
    requires
        0 <= i < es.len(),
        es[i].0.contains(PATH_SEPARATOR) || has_reserved_key(es[i].1),
    ensures
        entries_have_reserved_key(es),
    decreases es.len(),
{
    if i > 0 {
        lemma_entries_reserved_index(es.drop_first(), i - 1);
    }
}

/// A reserved key in any item makes the whole item sequence reserved.
pub proof fn lemma_items_reserved_index(vs: Seq<SpecValue>, i: int)
    requires
        0 <= i < vs.len(),
        has_reserved_key(vs[i]),
    ensures
        items_have_reserved_key(vs),
    decreases vs.len(),
{
    if i > 0 {
        lemma_items_reserved_index(vs.drop_first(), i - 1);
    }
}

/// Reserved-key presence distributes over entry concatenation.
pub proof fn lemma_entries_reserved_concat(
    a: Seq<(Seq<u8>, SpecValue)>,
    b: Seq<(Seq<u8>, SpecValue)>,
)
    ensures
        entries_have_reserved_key(a + b) == (entries_have_reserved_key(a)
            || entries_have_reserved_key(b)),
    decreases a.len(),
{
    if a.len() == 0 {
        assert(a + b =~= b);
    } else {
        assert((a + b).drop_first() =~= a.drop_first() + b);
        lemma_entries_reserved_concat(a.drop_first(), b);
    }
}

/// Reserved-key presence distributes over item concatenation.
pub proof fn lemma_items_reserved_concat(a: Seq<SpecValue>, b: Seq<SpecValue>)
    ensures
        items_have_reserved_key(a + b) == (items_have_reserved_key(a) || items_have_reserved_key(
            b,
        )),
    decreases a.len(),
{
    if a.len() == 0 {
        assert(a + b =~= b);
    } else {
        assert((a + b).drop_first() =~= a.drop_first() + b);
        lemma_items_reserved_concat(a.drop_first(), b);
    }
}

/// Decode a whole artifact: check the prefix, then read the root value
/// starting right after the 24-byte prefix. The flags and root-size fields
/// are present but their contents are not interpreted.
pub open spec fn spec_decode(s: Seq<u8>) -> Result<SpecValue, BlobfigError> {
    if s.len() < PREFIX_SIZE {
        Err(BlobfigError::UnexpectedEnd { offset: 0 })
    } else if s.subrange(0, 8) != spec_magic() {
        Err(BlobfigError::InvalidMagic)
    } else if spec_u32_from_le_bytes(s.subrange(8, 12)) != VERSION {
        Err(
            BlobfigError::UnsupportedVersion {
                version: spec_u32_from_le_bytes(s.subrange(8, 12)),
            },
        )
    } else {
        match spec_parse_value(s, PREFIX_SIZE as int) {
            Err(e) => Err(e),
            Ok((v, _)) => Ok(v),
        }
    }
}

} // verus!
