use sqlite_reader::errors::{DbError, ErrorKind};
use sqlite_reader::record::Record;
use sqlite_reader::types::{SerialType, SerialValue};
use sqlite_reader::varint::encode_varint;

/// Assembles a record payload from (serial-type code, content bytes) pairs.
fn record_bytes(cols: &[(u64, Vec<u8>)]) -> Vec<u8> {
    let mut codes: Vec<u8> = Vec::new();
    for (code, _) in cols {
        codes.extend(encode_varint(*code));
    }
    let hlen = codes.len() as u64 + 1;
    assert!(hlen < 128, "header varint must stay one byte in these tests");
    let mut out = vec![hlen as u8];
    out.extend(codes);
    for (_, content) in cols {
        out.extend(content.iter());
    }
    out
}

fn text_col(s: &str) -> (u64, Vec<u8>) {
    (13 + 2 * s.len() as u64, s.as_bytes().to_vec())
}

fn blob_col(b: &[u8]) -> (u64, Vec<u8>) {
    (12 + 2 * b.len() as u64, b.to_vec())
}

#[test]
fn serial_type_mapping_fixed_codes() {
    assert_eq!(SerialType::from(0), Ok(SerialType::Null));
    assert_eq!(SerialType::from(1), Ok(SerialType::Int8));
    assert_eq!(SerialType::from(2), Ok(SerialType::Int16));
    assert_eq!(SerialType::from(3), Ok(SerialType::Int24));
    assert_eq!(SerialType::from(4), Ok(SerialType::Int32));
    assert_eq!(SerialType::from(5), Ok(SerialType::Int48));
    assert_eq!(SerialType::from(6), Ok(SerialType::Int64));
    assert_eq!(SerialType::from(7), Ok(SerialType::Float));
    assert_eq!(SerialType::from(8), Ok(SerialType::Zero));
    assert_eq!(SerialType::from(9), Ok(SerialType::One));
}

#[test]
fn serial_type_mapping_reserved_codes_fail() {
    assert_eq!(SerialType::from(10), Err(DbError::InvalidSerialType));
    assert_eq!(SerialType::from(11), Err(DbError::InvalidSerialType));
    assert_eq!(DbError::InvalidSerialType.kind(), ErrorKind::Format);
}

#[test]
fn serial_type_mapping_blob_and_text_codes() {
    assert_eq!(SerialType::from(12), Ok(SerialType::Blob(0)));
    assert_eq!(SerialType::from(13), Ok(SerialType::Text(0)));
    assert_eq!(SerialType::from(14), Ok(SerialType::Blob(1)));
    assert_eq!(SerialType::from(15), Ok(SerialType::Text(1)));
    assert_eq!(SerialType::from(1000), Ok(SerialType::Blob(494)));
    assert_eq!(SerialType::from(1001), Ok(SerialType::Text(494)));
    assert_eq!(SerialType::from(u64::MAX - 1), Ok(SerialType::Blob((u64::MAX - 13) / 2)));
    assert_eq!(SerialType::from(u64::MAX), Ok(SerialType::Text((u64::MAX - 13) / 2)));
}

#[test]
fn record_round_trip_mixed_columns() {
    let float_bits = (-12.25f64).to_be_bytes().to_vec();
    let payload = record_bytes(&[
        (0, vec![]),                       // Null
        (2, (-513i16).to_be_bytes().to_vec()), // Int16
        (7, float_bits),                   // Float64
        blob_col(&[0xde, 0xad, 0xbe, 0xef]),
        text_col("Granny Smith"),
    ]);
    let rec = Record::decode(payload, 7).unwrap();
    assert_eq!(rec.row_id, 7);
    assert_eq!(
        rec.serial_types,
        vec![
            SerialType::Null,
            SerialType::Int16,
            SerialType::Float,
            SerialType::Blob(4),
            SerialType::Text(12),
        ]
    );
    assert_eq!(rec.serial_values.len(), 5);
    assert_eq!(rec.serial_values[0], SerialValue::Null);
    assert_eq!(rec.serial_values[1], SerialValue::Int16(-513));
    match &rec.serial_values[2] {
        SerialValue::Float(bits) => assert_eq!(f64::from_bits(*bits), -12.25),
        other => panic!("expected a float, got {:?}", other),
    }
    assert_eq!(rec.serial_values[3], SerialValue::Blob(vec![0xde, 0xad, 0xbe, 0xef]));
    assert_eq!(rec.serial_values[4], SerialValue::Text("Granny Smith".to_string()));
}

#[test]
fn record_integer_widths_sign_extended() {
    let payload = record_bytes(&[
        (1, vec![0xff]),                                  // Int8: -1
        (3, vec![0xff, 0xff, 0xfe]),                      // Int24: -2
        (4, (-70000i32).to_be_bytes().to_vec()),          // Int32
        (5, vec![0xff, 0xff, 0xff, 0xff, 0xff, 0xfd]),    // Int48: -3
        (6, i64::MIN.to_be_bytes().to_vec()),             // Int64
        (8, vec![]),                                      // Zero
        (9, vec![]),                                      // One
    ]);
    let rec = Record::decode(payload, 1).unwrap();
    assert_eq!(rec.serial_values[0], SerialValue::Int8(-1));
    assert_eq!(rec.serial_values[1], SerialValue::Int24(-2));
    assert_eq!(rec.serial_values[2], SerialValue::Int32(-70000));
    assert_eq!(rec.serial_values[3], SerialValue::Int48(-3));
    assert_eq!(rec.serial_values[4], SerialValue::Int64(i64::MIN));
    assert_eq!(rec.serial_values[5], SerialValue::Zero);
    assert_eq!(rec.serial_values[6], SerialValue::One);
}

#[test]
fn record_invalid_utf8_fails() {
    let payload = record_bytes(&[(13 + 2 * 2, vec![0xff, 0xfe])]);
    assert_eq!(Record::decode(payload, 1), Err(DbError::InvalidUtf8));
}

#[test]
fn record_reserved_serial_code_fails() {
    let payload = record_bytes(&[(10, vec![])]);
    assert_eq!(Record::decode(payload, 1), Err(DbError::InvalidSerialType));
}

#[test]
fn record_header_length_mismatch_fails() {
    // declared header length 3: after the one-byte Int8 code, one header
    // byte is left, but the next serial-type varint spans two bytes
    let payload = vec![3u8, 1, 0x81, 0x01];
    assert_eq!(Record::decode(payload, 1), Err(DbError::RecordHeaderMismatch));
    // a header shorter than its own length varint is malformed too
    assert_eq!(Record::decode(vec![0u8], 1), Err(DbError::RecordHeaderMismatch));
}

#[test]
fn record_truncated_values_fail() {
    // header declares an Int32 but only two value bytes follow
    let payload = vec![2u8, 4, 0x01, 0x02];
    assert_eq!(Record::decode(payload, 1), Err(DbError::ShortRead));
}
