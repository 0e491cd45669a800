//! Unit tests of the decoder's building blocks: byte taking, fixed-width
//! readers, strings, arrays, files, entries and values.
use blobfig::DType;
use blobfig::parser::array::parse_array_body;
use blobfig::parser::file::parse_file_body;
use blobfig::parser::primitives::{i64_le, read_u8, u16_le, u32_le, u64_le};
use blobfig::parser::string::{parse_key, parse_string};
use blobfig::parser::take::{Take, take};
use blobfig::parser::{parse_entry, parse_value};

#[test]
fn test_take_zero() {
    let data = b"hello";
    let (slice, end) = take(0).parse(data, 0).unwrap();
    assert_eq!(slice, b"");
    assert_eq!(end, 0);
    assert_eq!(data[end], b'h');
}

#[test]
fn test_take_some() {
    let data = b"hello world";
    let (slice, end) = take(5).parse(data, 0).unwrap();
    assert_eq!(slice, b"hello");
    assert_eq!(data[end], b' ');
}

#[test]
fn test_take_all() {
    let data = b"hello";
    let (slice, end) = take(5).parse(data, 0).unwrap();
    assert_eq!(slice, b"hello");
    assert_eq!(end, data.len());
}

#[test]
fn test_take_too_many() {
    let data = b"hi";
    let result = take(10).parse(data, 0);
    assert!(result.is_err());
}

#[test]
fn test_take_chained() {
    let data = b"helloworld";
    let (slice1, end) = take(5).parse(data, 0).unwrap();
    let (slice2, _) = take(5).parse(data, end).unwrap();
    assert_eq!(slice1, b"hello");
    assert_eq!(slice2, b"world");
}

#[test]
fn test_take_is_zero_copy() {
    let data = b"hello";
    let (slice, _) = take(5).parse(data, 0).unwrap();
    assert!(std::ptr::eq(slice.as_ptr(), data.as_ptr()));
}

#[test]
fn take_new_count() {
    let t = Take::new(3);
    let data = b"abcdef";
    let (slice, end) = t.parse(data, 1).unwrap();
    assert_eq!(slice, b"bcd");
    assert_eq!(end, 4);
}

#[test]
fn test_u8() {
    let data = &[0x42, 0x43];
    let (val, end) = read_u8(data, 0).unwrap();
    assert_eq!(val, 0x42);
    let (val, _) = read_u8(data, end).unwrap();
    assert_eq!(val, 0x43);
}

#[test]
fn test_u16_le() {
    let data = &[0x01, 0x02]; // 0x0201 in LE
    let (val, _) = u16_le(data, 0).unwrap();
    assert_eq!(val, 0x0201);
}

#[test]
fn test_u32_le() {
    let data = &[0x01, 0x02, 0x03, 0x04];
    let (val, _) = u32_le(data, 0).unwrap();
    assert_eq!(val, 0x04030201);
}

#[test]
fn test_u64_le() {
    let data = &[0x01, 0x02, 0x03, 0x04, 0x05, 0x06, 0x07, 0x08];
    let (val, _) = u64_le(data, 0).unwrap();
    assert_eq!(val, 0x0807060504030201);
}

#[test]
fn test_i64_le() {
    let data = (-42i64).to_le_bytes();
    let (val, _) = i64_le(&data, 0).unwrap();
    assert_eq!(val, -42);
}

#[test]
fn test_chained() {
    let mut data = Vec::new();
    data.extend_from_slice(&42u32.to_le_bytes());
    data.extend_from_slice(&123i64.to_le_bytes());

    let (v1, end) = u32_le(&data, 0).unwrap();
    let (v2, _) = i64_le(&data, end).unwrap();

    assert_eq!(v1, 42);
    assert_eq!(v2, 123);
}

#[test]
fn string_test_parse_string() {
    let mut bytes = Vec::new();
    bytes.extend_from_slice(&5u32.to_le_bytes());
    bytes.extend_from_slice(b"hello");

    let (s, _) = parse_string(&bytes, 0).unwrap();
    assert_eq!(s, "hello");
}

#[test]
fn test_parse_key() {
    let mut bytes = Vec::new();
    bytes.extend_from_slice(&4u16.to_le_bytes());
    bytes.extend_from_slice(b"name");

    let (s, _) = parse_key(&bytes, 0).unwrap();
    assert_eq!(s, "name");
}

#[test]
fn test_parse_empty_string() {
    let bytes = 0u32.to_le_bytes();
    let (s, _) = parse_string(&bytes, 0).unwrap();
    assert_eq!(s, "");
}

fn make_array_bytes(dtype: DType, shape: &[u64], data: &[u8]) -> Vec<u8> {
    let mut bytes = Vec::new();
    bytes.push(dtype.to_u8());
    bytes.push(shape.len() as u8);
    for dim in shape {
        bytes.extend_from_slice(&dim.to_le_bytes());
    }
    bytes.extend_from_slice(&(data.len() as u64).to_le_bytes());
    bytes.extend_from_slice(data);
    bytes
}

#[test]
fn test_parse_array_1d() {
    let data = vec![1u8, 2, 3, 4];
    let bytes = make_array_bytes(DType::U8, &[4], &data);

    let (arr, _) = parse_array_body(&bytes, 0).unwrap();
    assert_eq!(arr.dtype, DType::U8);
    assert_eq!(arr.shape, vec![4]);
    assert_eq!(arr.data, &[1, 2, 3, 4]);
}

#[test]
fn test_parse_array_2d() {
    let data = vec![0u8; 24]; // 2x3 f32 = 24 bytes
    let bytes = make_array_bytes(DType::F32, &[2, 3], &data);

    let (arr, _) = parse_array_body(&bytes, 0).unwrap();
    assert_eq!(arr.dtype, DType::F32);
    assert_eq!(arr.shape, vec![2, 3]);
    assert_eq!(arr.data.len(), 24);
}

#[test]
fn test_parse_array_zero_copy() {
    let data = vec![1u8, 2, 3, 4];
    let bytes = make_array_bytes(DType::U8, &[4], &data);

    let (arr, _) = parse_array_body(&bytes, 0).unwrap();

    let data_offset = 1 + 1 + 8 + 8; // dtype + ndim + shape + data_len
    assert!(std::ptr::eq(
        arr.data.as_ptr(),
        bytes[data_offset..].as_ptr()
    ));
}

#[test]
fn test_invalid_dtype() {
    let mut bytes = vec![0xFF]; // Invalid dtype
    bytes.push(1); // ndim
    bytes.extend_from_slice(&1u64.to_le_bytes()); // shape
    bytes.extend_from_slice(&0u64.to_le_bytes()); // data_len

    let result = parse_array_body(&bytes, 0);
    assert!(result.is_err());
}

fn make_file_bytes(mimetype: &str, data: &[u8]) -> Vec<u8> {
    let mut bytes = Vec::new();
    bytes.extend_from_slice(&(mimetype.len() as u16).to_le_bytes());
    bytes.extend_from_slice(mimetype.as_bytes());
    bytes.extend_from_slice(&(data.len() as u64).to_le_bytes());
    bytes.extend_from_slice(data);
    bytes
}

#[test]
fn test_parse_file() {
    let data = b"hello world";
    let bytes = make_file_bytes("text/plain", data);

    let (file, _) = parse_file_body(&bytes, 0).unwrap();
    assert_eq!(file.mimetype, "text/plain");
    assert_eq!(file.data, b"hello world");
}

#[test]
fn test_parse_file_empty() {
    let bytes = make_file_bytes("application/octet-stream", &[]);

    let (file, _) = parse_file_body(&bytes, 0).unwrap();
    assert_eq!(file.mimetype, "application/octet-stream");
    assert_eq!(file.data, &[]);
}

#[test]
fn test_parse_file_zero_copy() {
    let data = b"test data";
    let bytes = make_file_bytes("text/plain", data);

    let (file, _) = parse_file_body(&bytes, 0).unwrap();

    let mimetype = "text/plain";
    let data_offset = 2 + mimetype.len() + 8; // mimetype_len + mimetype + data_len
    assert!(std::ptr::eq(
        file.data.as_ptr(),
        bytes[data_offset..].as_ptr()
    ));
}

#[test]
fn test_parse_file_binary() {
    let data: Vec<u8> = (0..256).map(|i| i as u8).collect();
    let bytes = make_file_bytes("application/x-tflite", &data);

    let (file, _) = parse_file_body(&bytes, 0).unwrap();
    assert_eq!(file.mimetype, "application/x-tflite");
    assert_eq!(file.data.len(), 256);
}

#[test]
fn test_parse_entry() {
    let mut bytes = Vec::new();
    // Key: "count"
    bytes.extend_from_slice(&5u16.to_le_bytes());
    bytes.extend_from_slice(b"count");
    // Value: Int(42)
    bytes.push(blobfig::ValueTag::Int.to_u8());
    bytes.extend_from_slice(&42i64.to_le_bytes());

    let ((key, value), _) = parse_entry(&bytes, 0).unwrap();
    assert_eq!(key, "count");
    assert_eq!(value.as_int(), Some(42));
}

#[test]
fn test_parse_bool_true() {
    let bytes = &[blobfig::ValueTag::Bool.to_u8(), 1];
    let (val, _) = parse_value(bytes, 0).unwrap();
    assert_eq!(val.as_bool(), Some(true));
}

#[test]
fn test_parse_bool_false() {
    let bytes = &[blobfig::ValueTag::Bool.to_u8(), 0];
    let (val, _) = parse_value(bytes, 0).unwrap();
    assert_eq!(val.as_bool(), Some(false));
}

#[test]
fn test_parse_int() {
    let mut bytes = vec![blobfig::ValueTag::Int.to_u8()];
    bytes.extend_from_slice(&42i64.to_le_bytes());
    let (val, _) = parse_value(&bytes, 0).unwrap();
    assert_eq!(val.as_int(), Some(42));
}

#[test]
fn test_parse_float() {
    let mut bytes = vec![blobfig::ValueTag::Float.to_u8()];
    bytes.extend_from_slice(&3.14f64.to_le_bytes());
    let (val, _) = parse_value(&bytes, 0).unwrap();
    let f = f64::from_bits(val.as_float_bits().unwrap());
    assert!((f - 3.14).abs() < 1e-10);
}

#[test]
fn value_test_parse_string() {
    let s = "hello";
    let mut bytes = vec![blobfig::ValueTag::String.to_u8()];
    bytes.extend_from_slice(&(s.len() as u32).to_le_bytes());
    bytes.extend_from_slice(s.as_bytes());
    let (val, _) = parse_value(&bytes, 0).unwrap();
    assert_eq!(val.as_str(), Some("hello"));
}

#[test]
fn test_parse_list() {
    let mut bytes = vec![blobfig::ValueTag::List.to_u8()];
    bytes.extend_from_slice(&3u32.to_le_bytes()); // 3 items

    bytes.push(blobfig::ValueTag::Int.to_u8());
    bytes.extend_from_slice(&1i64.to_le_bytes());

    bytes.push(blobfig::ValueTag::Int.to_u8());
    bytes.extend_from_slice(&2i64.to_le_bytes());

    bytes.push(blobfig::ValueTag::Int.to_u8());
    bytes.extend_from_slice(&3i64.to_le_bytes());

    let (val, _) = parse_value(&bytes, 0).unwrap();

    let list = val.as_list().unwrap();
    assert_eq!(list.len(), 3);
    assert_eq!(list[0].as_int(), Some(1));
    assert_eq!(list[1].as_int(), Some(2));
    assert_eq!(list[2].as_int(), Some(3));
}

#[test]
fn test_parse_object() {
    let mut bytes = vec![blobfig::ValueTag::Object.to_u8()];
    bytes.extend_from_slice(&2u32.to_le_bytes()); // 2 entries

    // Entry 1: "name" -> "test"
    let key1 = "name";
    bytes.extend_from_slice(&(key1.len() as u16).to_le_bytes());
    bytes.extend_from_slice(key1.as_bytes());
    bytes.push(blobfig::ValueTag::String.to_u8());
    let val1 = "test";
    bytes.extend_from_slice(&(val1.len() as u32).to_le_bytes());
    bytes.extend_from_slice(val1.as_bytes());

    // Entry 2: "count" -> 42
    let key2 = "count";
    bytes.extend_from_slice(&(key2.len() as u16).to_le_bytes());
    bytes.extend_from_slice(key2.as_bytes());
    bytes.push(blobfig::ValueTag::Int.to_u8());
    bytes.extend_from_slice(&42i64.to_le_bytes());

    let (val, _) = parse_value(&bytes, 0).unwrap();

    let obj = val.as_object().unwrap();
    assert_eq!(obj.len(), 2);
    assert_eq!(obj[0].0, "name");
    assert_eq!(obj[0].1.as_str(), Some("test"));
    assert_eq!(obj[1].0, "count");
    assert_eq!(obj[1].1.as_int(), Some(42));
}

#[test]
fn test_parse_nested_object() {
    let mut bytes = vec![blobfig::ValueTag::Object.to_u8()];
    bytes.extend_from_slice(&1u32.to_le_bytes()); // 1 entry

    // Entry: "inner" -> { "value": 123 }
    let key = "inner";
    bytes.extend_from_slice(&(key.len() as u16).to_le_bytes());
    bytes.extend_from_slice(key.as_bytes());

    bytes.push(blobfig::ValueTag::Object.to_u8());
    bytes.extend_from_slice(&1u32.to_le_bytes());
    let inner_key = "value";
    bytes.extend_from_slice(&(inner_key.len() as u16).to_le_bytes());
    bytes.extend_from_slice(inner_key.as_bytes());
    bytes.push(blobfig::ValueTag::Int.to_u8());
    bytes.extend_from_slice(&123i64.to_le_bytes());

    let (val, _) = parse_value(&bytes, 0).unwrap();

    let inner_val = val.get("inner.value").unwrap();
    assert_eq!(inner_val.as_int(), Some(123));
}

#[test]
fn test_invalid_tag() {
    let bytes = &[0xFF]; // Invalid tag
    let result = parse_value(bytes, 0);
    assert!(result.is_err());
}
