//! Property-level scenarios: round trips over every value kind, truncation
//! safety, decode error kinds, typed-access validation, and the path
//! accessor.
use blobfig::typed::typed_access_check;
use blobfig::types::header::magic;
use blobfig::{
    Array, BlobfigError, DType, File, NdarrayError, Value, ValueTag, parse, writer,
};

/// Encode, decode, deep-copy, re-encode: the bytes must agree. Since the
/// encoding of a well-formed value is injective (the round-trip law), equal
/// artifacts mean equal values.
fn assert_roundtrip(value: Value) {
    let encoded = writer::to_bytes(value).unwrap();
    let parsed = parse(&encoded).unwrap();
    let owned = parsed.to_owned();
    let re_encoded = writer::to_bytes(owned).unwrap();
    assert_eq!(encoded, re_encoded);
}

#[test]
fn roundtrip_identity_all_kinds() {
    assert_roundtrip(Value::Bool(true));
    assert_roundtrip(Value::Bool(false));
    assert_roundtrip(Value::Int(0));
    assert_roundtrip(Value::Int(i64::MIN));
    assert_roundtrip(Value::Float(2.5f64.to_bits()));
    assert_roundtrip(Value::Float(f64::NEG_INFINITY.to_bits()));
    assert_roundtrip(Value::String("".into()));
    assert_roundtrip(Value::String("ünïcodé".into()));
    assert_roundtrip(Value::Array(Array::new(DType::I16, vec![2, 2], vec![9; 8])));
    assert_roundtrip(Value::Array(Array::new(DType::U8, vec![], vec![])));
    assert_roundtrip(Value::File(File::from_bytes("", vec![])));
    assert_roundtrip(Value::File(File::from_bytes("text/plain", vec![1, 2, 3])));
    assert_roundtrip(Value::Object(vec![]));
    assert_roundtrip(Value::List(vec![]));
    assert_roundtrip(Value::Object(vec![(
        "deep".into(),
        Value::List(vec![Value::Object(vec![(
            "deeper".into(),
            Value::List(vec![Value::Int(1)]),
        )])]),
    )]));
}

#[test]
fn truncation_always_fails_cleanly() {
    let value: Value = Value::Object(vec![
        ("name".into(), Value::String("truncation".into())),
        (
            "payload".into(),
            Value::File(File::from_bytes("application/octet-stream", vec![7; 40])),
        ),
        ("flag".into(), Value::Bool(true)),
        (
            "grid".into(),
            Value::Array(Array::new(DType::U16, vec![3], vec![0, 1, 2, 3, 4, 5])),
        ),
    ]);
    let encoded = writer::to_bytes(value).unwrap();
    assert!(parse(&encoded).is_ok());

    for cut in 0..encoded.len() {
        let err = parse(&encoded[..cut]).unwrap_err();
        assert!(
            matches!(err, BlobfigError::UnexpectedEnd { .. }),
            "cut at {} gave {:?}",
            cut,
            err
        );
        // Deterministic: the same prefix always fails the same way.
        assert_eq!(parse(&encoded[..cut]).unwrap_err(), err);
    }
}

fn artifact(body: &[u8]) -> Vec<u8> {
    let mut bytes = Vec::new();
    bytes.extend_from_slice(&magic());
    bytes.extend_from_slice(&1u32.to_le_bytes());
    bytes.extend_from_slice(&0u32.to_le_bytes());
    bytes.extend_from_slice(&(body.len() as u64).to_le_bytes());
    bytes.extend_from_slice(body);
    bytes
}

#[test]
fn decode_error_invalid_magic() {
    let mut bytes = artifact(&[0x01, 0x01]);
    bytes[0] = 0x58;
    assert_eq!(parse(&bytes).unwrap_err(), BlobfigError::InvalidMagic);
}

#[test]
fn decode_error_unsupported_version() {
    let mut bytes = artifact(&[0x01, 0x01]);
    bytes[8] = 9;
    assert_eq!(
        parse(&bytes).unwrap_err(),
        BlobfigError::UnsupportedVersion { version: 9 }
    );
}

#[test]
fn decode_error_invalid_value_tag() {
    let bytes = artifact(&[0xAB]);
    assert_eq!(
        parse(&bytes).unwrap_err(),
        BlobfigError::InvalidValueTag {
            offset: 24,
            tag: 0xAB
        }
    );
}

#[test]
fn decode_error_invalid_dtype() {
    // Array tag, then a dtype byte outside the enumeration.
    let bytes = artifact(&[0x05, 0x77]);
    assert_eq!(
        parse(&bytes).unwrap_err(),
        BlobfigError::InvalidDType {
            offset: 25,
            tag: 0x77
        }
    );
}

#[test]
fn decode_error_invalid_utf8() {
    // String tag, length 2, then bytes that are not UTF-8.
    let mut body = vec![0x04];
    body.extend_from_slice(&2u32.to_le_bytes());
    body.extend_from_slice(&[0xFF, 0xFE]);
    let bytes = artifact(&body);
    assert_eq!(
        parse(&bytes).unwrap_err(),
        BlobfigError::InvalidUtf8 { offset: 29 }
    );
}

#[test]
fn decode_error_unexpected_end() {
    // Int tag with only four of its eight payload bytes present.
    let mut body = vec![0x02];
    body.extend_from_slice(&[1, 2, 3, 4]);
    let bytes = artifact(&body);
    assert_eq!(
        parse(&bytes).unwrap_err(),
        BlobfigError::UnexpectedEnd { offset: 25 }
    );
}

#[test]
fn dtype_shape_independence() {
    // An array whose payload length does not match its shape still decodes;
    // typed access then fails cleanly with a shape mismatch.
    let arr = Array::new(DType::U32, vec![4], vec![0u8; 3]);
    let value: Value = Value::Array(arr);
    let encoded = writer::to_bytes(value).unwrap();

    let parsed = parse(&encoded).unwrap();
    let view = parsed.as_array().unwrap();
    assert_eq!(view.shape, vec![4]);
    assert_eq!(view.data.len(), 3);

    let err = typed_access_check(view.dtype, &view.shape, view.data.len(), DType::U32)
        .unwrap_err();
    assert!(matches!(err, NdarrayError::ShapeMismatch { .. }));

    // A well-matched array passes, a wrong target type is rejected.
    let n = typed_access_check(DType::U32, &vec![4], 16, DType::U32).unwrap();
    assert_eq!(n, 4);
    let err = typed_access_check(DType::U32, &vec![4], 16, DType::F32).unwrap_err();
    assert_eq!(
        err,
        NdarrayError::DTypeMismatch {
            expected: DType::F32,
            actual: DType::U32
        }
    );
}

#[test]
fn typed_access_overflowing_shape_is_mismatch() {
    let shape = vec![u64::MAX, u64::MAX, 0];
    let err = typed_access_check(DType::U8, &shape, 0, DType::U8).unwrap_err();
    assert!(matches!(err, NdarrayError::ShapeMismatch { .. }));
}

#[test]
fn three_records_scenario() {
    // Encode Object[("a", Int(-42)), ("b", List[Bool(true), Float(3.5)])],
    // decode, and resolve both paths.
    let value: Value = Value::Object(vec![
        ("a".into(), Value::Int(-42)),
        (
            "b".into(),
            Value::List(vec![Value::Bool(true), Value::Float(3.5f64.to_bits())]),
        ),
    ]);
    let encoded = writer::to_bytes(value).unwrap();
    let parsed = parse(&encoded).unwrap();

    assert_eq!(parsed.get("a").unwrap().as_int(), Some(-42));
    let b = parsed.get("b").unwrap().as_list().unwrap();
    assert_eq!(b.len(), 2);
    let f = f64::from_bits(b[1].as_float_bits().unwrap());
    assert!((f - 3.5).abs() < 1e-10);
}

#[test]
fn path_accessor_first_match_wins() {
    let value: Value = Value::Object(vec![
        ("k".into(), Value::Int(1)),
        ("k".into(), Value::Int(2)),
    ]);
    let encoded = writer::to_bytes(value).unwrap();
    let parsed = parse(&encoded).unwrap();
    assert_eq!(parsed.get("k").unwrap().as_int(), Some(1));
}

#[test]
fn path_accessor_misses() {
    let value: Value = Value::Object(vec![("k".into(), Value::Int(1))]);
    let encoded = writer::to_bytes(value).unwrap();
    let parsed = parse(&encoded).unwrap();
    assert!(parsed.get("missing").is_none());
    assert!(parsed.get("k.deeper").is_none());
    assert!(parsed.get("").is_none());
}

#[test]
fn accessors_reject_other_kinds() {
    let value: Value = Value::Int(3);
    let encoded = writer::to_bytes(value).unwrap();
    let parsed = parse(&encoded).unwrap();
    assert_eq!(parsed.as_int(), Some(3));
    assert!(parsed.as_bool().is_none());
    assert!(parsed.as_float_bits().is_none());
    assert!(parsed.as_str().is_none());
    assert!(parsed.as_array().is_none());
    assert!(parsed.as_file().is_none());
    assert!(parsed.as_object().is_none());
    assert!(parsed.as_list().is_none());
    assert!(parsed.get("x").is_none());
}

#[test]
fn tags_and_dtypes_roundtrip() {
    for tag in [
        ValueTag::Bool,
        ValueTag::Int,
        ValueTag::Float,
        ValueTag::String,
        ValueTag::Array,
        ValueTag::File,
        ValueTag::Object,
        ValueTag::List,
    ] {
        assert_eq!(ValueTag::from_u8(tag.to_u8()), Some(tag));
    }
    assert_eq!(ValueTag::from_u8(0), None);
    assert_eq!(ValueTag::from_u8(9), None);
    for dt in [
        DType::U8,
        DType::I8,
        DType::U16,
        DType::I16,
        DType::U32,
        DType::I32,
        DType::U64,
        DType::I64,
        DType::F32,
        DType::F64,
    ] {
        assert_eq!(DType::from_u8(dt.to_u8()), Some(dt));
    }
    assert_eq!(DType::from_u8(0), None);
    assert_eq!(DType::from_u8(0x0B), None);
}

#[test]
fn element_sizes() {
    assert_eq!(DType::U8.element_size(), 1);
    assert_eq!(DType::I8.element_size(), 1);
    assert_eq!(DType::U16.element_size(), 2);
    assert_eq!(DType::I16.element_size(), 2);
    assert_eq!(DType::U32.element_size(), 4);
    assert_eq!(DType::I32.element_size(), 4);
    assert_eq!(DType::F32.element_size(), 4);
    assert_eq!(DType::U64.element_size(), 8);
    assert_eq!(DType::I64.element_size(), 8);
    assert_eq!(DType::F64.element_size(), 8);
}

#[test]
fn array_sizes() {
    let arr = Array::new(DType::F32, vec![2, 3, 4], vec![0; 96]);
    assert_eq!(arr.num_elements(), 24);
    assert_eq!(arr.expected_size(), 96);
    assert_eq!(arr.checked_num_elements(), Some(24));

    let big = Array::new(DType::U8, vec![u64::MAX, 2], vec![]);
    assert_eq!(big.checked_num_elements(), None);

    let empty = Array::new(DType::U8, vec![], vec![]);
    assert_eq!(empty.num_elements(), 1);
}

#[test]
fn value_tags() {
    let v: Value = Value::Bool(true);
    assert_eq!(v.tag(), ValueTag::Bool);
    let v: Value = Value::List(vec![]);
    assert_eq!(v.tag(), ValueTag::List);
    let v: Value = Value::File(File::from_bytes("a/b", vec![]));
    assert_eq!(v.tag(), ValueTag::File);
}

#[test]
fn file_sizes_and_views() {
    let f: File = File::from_bytes("text/plain", vec![1, 2, 3]);
    assert_eq!(f.size(), 3);
    assert_eq!(f.data.size(), 3);

    let value: Value = Value::File(f);
    let encoded = writer::to_bytes(value).unwrap();
    let parsed = parse(&encoded).unwrap();
    let view = parsed.as_file().unwrap();
    let owned = view.to_owned();
    assert_eq!(owned.mimetype, "text/plain");
    assert_eq!(owned.size(), 3);
}

#[test]
fn array_view_to_owned() {
    let arr = Array::new(DType::I32, vec![2], vec![1, 0, 0, 0, 2, 0, 0, 0]);
    let value: Value = Value::Array(arr);
    let encoded = writer::to_bytes(value).unwrap();
    let parsed = parse(&encoded).unwrap();
    let view = parsed.as_array().unwrap();
    let owned = view.to_owned();
    assert_eq!(owned.dtype, DType::I32);
    assert_eq!(owned.shape, vec![2]);
    assert_eq!(owned.data, vec![1, 0, 0, 0, 2, 0, 0, 0]);
}

#[test]
fn bool_nonzero_byte_decodes_true() {
    // The decoder accepts any nonzero byte as true; the encoder always
    // writes one.
    let bytes = artifact(&[0x01, 0x02]);
    assert_eq!(parse(&bytes).unwrap().as_bool(), Some(true));
}

#[test]
fn trailing_bytes_are_ignored() {
    let value: Value = Value::Int(5);
    let mut encoded = writer::to_bytes(value).unwrap();
    encoded.extend_from_slice(&[0xAA, 0xBB]);
    assert_eq!(parse(&encoded).unwrap().as_int(), Some(5));
}
