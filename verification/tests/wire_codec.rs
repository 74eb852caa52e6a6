use turbo_mysql_core::envelope::{encode_error, encode_handle_envelope};
use turbo_mysql_core::value::{encode_params_list, parse_params_list, Value};
use turbo_mysql_core::wire::BinaryReader;

fn params_header(count: u32) -> Vec<u8> {
    count.to_le_bytes().to_vec()
}

#[test]
fn params_round_trip_all_tags() {
    let params = vec![
        Value::Null,
        Value::Int(-5),
        Value::Int(i64::MIN),
        Value::Int(i64::MAX),
        Value::Double((3.5f64).to_bits()),
        Value::Double((-0.0f64).to_bits()),
        Value::Bytes(b"hello".to_vec()),
        Value::Bytes(Vec::new()),
    ];
    let encoded = encode_params_list(&params);
    let decoded = parse_params_list(&encoded);
    assert_eq!(decoded, params);
}

#[test]
fn empty_params_round_trip() {
    let params: Vec<Value> = Vec::new();
    let encoded = encode_params_list(&params);
    assert_eq!(encoded, vec![0u8, 0, 0, 0]);
    let decoded = parse_params_list(&encoded);
    assert!(decoded.is_empty());
}

#[test]
fn string_and_blob_tags_decode_alike() {
    let mut buf = params_header(2);
    buf.push(3);
    buf.extend_from_slice(&2u32.to_le_bytes());
    buf.extend_from_slice(b"ab");
    buf.push(4);
    buf.extend_from_slice(&2u32.to_le_bytes());
    buf.extend_from_slice(b"ab");
    let decoded = parse_params_list(&buf);
    assert_eq!(decoded.len(), 2);
    assert_eq!(decoded[0], Value::Bytes(b"ab".to_vec()));
    assert_eq!(decoded[0], decoded[1]);
}

#[test]
fn unknown_tag_decodes_as_null() {
    let mut buf = params_header(1);
    buf.push(9);
    let decoded = parse_params_list(&buf);
    assert_eq!(decoded, vec![Value::Null]);
}

#[test]
fn short_int_payload_decodes_as_null() {
    let mut buf = params_header(1);
    buf.push(1);
    buf.extend_from_slice(&[1, 2, 3]);
    let decoded = parse_params_list(&buf);
    assert_eq!(decoded[0], Value::Null);
}

#[test]
fn truncated_blob_body_decodes_as_null() {
    let mut buf = params_header(1);
    buf.push(4);
    buf.extend_from_slice(&10u32.to_le_bytes());
    buf.extend_from_slice(b"ab");
    let decoded = parse_params_list(&buf);
    assert_eq!(decoded, vec![Value::Null]);
}

#[test]
fn missing_values_fill_with_null() {
    let buf = params_header(3);
    let decoded = parse_params_list(&buf);
    assert_eq!(decoded, vec![Value::Null, Value::Null, Value::Null]);
}

#[test]
fn short_count_prefix_decodes_as_empty() {
    let decoded = parse_params_list(&[1, 2]);
    assert!(decoded.is_empty());
}

#[test]
fn reader_reads_fields_in_order() {
    let mut buf: Vec<u8> = Vec::new();
    buf.push(7);
    buf.extend_from_slice(&(-9i64).to_le_bytes());
    buf.extend_from_slice(&513u32.to_le_bytes());
    buf.extend_from_slice(&3u32.to_le_bytes());
    buf.extend_from_slice(b"xyz");
    let mut reader = BinaryReader::new(buf.as_slice());
    assert_eq!(reader.read_u8(), Some(7));
    assert_eq!(reader.read_i64(), Some(-9));
    assert_eq!(reader.read_u32(), Some(513));
    assert_eq!(reader.read_blob(), Some(b"xyz".to_vec()));
    assert_eq!(reader.read_u8(), None);
}

#[test]
fn reader_short_reads_return_none() {
    let buf = [1u8, 2, 3];
    let mut reader = BinaryReader::new(&buf);
    assert_eq!(reader.read_u32(), None);
    assert_eq!(reader.read_i64(), None);
    assert_eq!(reader.read_u64(), None);
    assert_eq!(reader.read_blob(), None);
    assert_eq!(reader.read_u8(), Some(1));
}

#[test]
fn reader_blob_length_prefix_is_consumed_even_when_body_is_short() {
    let mut buf: Vec<u8> = Vec::new();
    buf.extend_from_slice(&100u32.to_le_bytes());
    buf.push(42);
    let mut reader = BinaryReader::new(buf.as_slice());
    assert_eq!(reader.read_blob(), None);
    assert_eq!(reader.read_u8(), Some(42));
}

#[test]
fn error_envelope_bytes() {
    let buf = encode_error("hi");
    assert_eq!(buf, vec![0u8, 2, 0, 0, 0, b'h', b'i']);
}

#[test]
fn error_envelope_empty_message() {
    let buf = encode_error("");
    assert_eq!(buf, vec![0u8, 0, 0, 0, 0]);
}

#[test]
fn handle_envelope_bytes() {
    let handle = 0x0102030405060708u64;
    let buf = encode_handle_envelope(handle);
    let mut expected = vec![1u8];
    expected.extend_from_slice(&handle.to_le_bytes());
    expected.extend_from_slice(&0u64.to_le_bytes());
    expected.extend_from_slice(&0u32.to_le_bytes());
    expected.extend_from_slice(&0u32.to_le_bytes());
    assert_eq!(buf, expected);
}
