use sqlite_reader::errors::{DbError, ErrorKind};
use sqlite_reader::reader::ByteReader;
use sqlite_reader::varint::{encode_varint, parse_varint, parse_varint_from_reader, read_varint};

#[test]
fn test_parse_varint() {
    let a = [92, 4, 7, 23, 33, 33, 1, 129, 3, 116];

    let mut total_bytes_read = 0;

    let (num, bytes_read) = parse_varint(&a[total_bytes_read..]);
    total_bytes_read += bytes_read;
    assert_eq!(num, 92);
    assert_eq!(bytes_read, 1);

    let (num, bytes_read) = parse_varint(&a[total_bytes_read..]);
    total_bytes_read += bytes_read;
    assert_eq!(num, 4);
    assert_eq!(bytes_read, 1);

    for _ in 0..5 {
        let (_num, bytes_read) = parse_varint(&a[total_bytes_read..]);
        total_bytes_read += bytes_read;
    }

    // NOTE: Consecutive bytes `129, 3` are read as 131.
    let (num, bytes_read) = parse_varint(&a[total_bytes_read..]);
    total_bytes_read += bytes_read;
    assert_eq!(num, 131);
    assert_eq!(bytes_read, 2);

    let (num, bytes_read) = parse_varint(&a[total_bytes_read..]);
    assert_eq!(num, 116);
    assert_eq!(bytes_read, 1);
}

#[test]
fn test_parse_varint_from_reader() {
    let a = vec![92, 4, 7, 23, 33, 33, 1, 129, 3, 116];

    let mut c = ByteReader::new(a);

    let (num, bytes_read) = parse_varint_from_reader(&mut c);
    assert_eq!(num, 92);
    assert_eq!(bytes_read, 1);

    let (num, bytes_read) = parse_varint_from_reader(&mut c);
    assert_eq!(num, 4);
    assert_eq!(bytes_read, 1);

    for _ in 0..5 {
        parse_varint_from_reader(&mut c);
    }

    // NOTE: Consecutive bytes `129, 3` are read as 131.
    let (num, bytes_read) = parse_varint_from_reader(&mut c);
    assert_eq!(num, 131);
    assert_eq!(bytes_read, 2);

    let (num, bytes_read) = parse_varint_from_reader(&mut c);
    assert_eq!(num, 116);
    assert_eq!(bytes_read, 1);
}

#[test]
fn varint_round_trip_boundaries() {
    let cases: [(u64, usize); 8] = [
        (0, 1),
        (127, 1),
        (128, 2),
        (16383, 2),
        (16384, 3),
        (0xff_ffff_ffff_ffff, 8),
        (0x100_0000_0000_0000, 9),
        (u64::MAX, 9),
    ];
    for (value, expected_len) in cases {
        let enc = encode_varint(value);
        assert_eq!(enc.len(), expected_len, "encoded length of {value}");
        let (decoded, consumed) = parse_varint(enc.as_slice());
        assert_eq!(decoded, value);
        assert_eq!(consumed, expected_len);
    }
}

#[test]
fn varint_nine_byte_full_width_final_byte() {
    // u64::MAX encodes with a ninth byte contributing all eight bits.
    let enc = encode_varint(u64::MAX);
    assert_eq!(enc.len(), 9);
    assert_eq!(enc[8], 0xff);
    // every earlier byte carries the continuation bit
    for i in 0..8 {
        assert!(enc[i] >= 0x80);
    }
}

#[test]
fn varint_round_trip_with_trailing_bytes() {
    let mut bytes = encode_varint(16384);
    bytes.extend_from_slice(&[0xaa, 0xbb]);
    let (decoded, consumed) = parse_varint(bytes.as_slice());
    assert_eq!(decoded, 16384);
    assert_eq!(consumed, 3);
}

#[test]
fn varint_short_read() {
    // two continuation bytes and then nothing: the varint never terminates
    let bytes = [0x81u8, 0x82];
    let r = read_varint(&bytes, 0);
    assert_eq!(r, Err(DbError::ShortRead));
    assert_eq!(DbError::ShortRead.kind(), ErrorKind::Io);
    // reading past the end is a short read too
    assert_eq!(read_varint(&bytes, 2), Err(DbError::ShortRead));
}
