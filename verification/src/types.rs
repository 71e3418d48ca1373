//! Serial types and serial values: the per-column type tags of a record
//! header and the decoded column values they describe.

use vstd::prelude::*;
use vstd::utf8::{decode_utf8, valid_utf8};

use crate::bytes::{be_sint, be_uint, pow256, lemma_pow256_values, lemma_be_uint_bound};
use crate::errors::DbError;
use crate::reader::ByteReader;

verus! {

/// A column's on-disk type tag, as declared in a record header.
#[derive(Debug, PartialEq, Eq, Structural, Clone, Copy)]
pub enum SerialType {
    Null,
    Int8,
    Int16,
    Int24,
    Int32,
    Int48,
    Int64,
    Float,
    Zero,
    One,
    /// A blob of the given byte length.
    Blob(u64),
    /// UTF-8 text of the given byte length.
    Text(u64),
}

/// The serial type a record-header code denotes; `None` for the two
/// reserved codes, 10 and 11.
pub open spec fn serial_type_of(code: nat) -> Option<SerialType>
    recommends
        code < 0x1_0000_0000_0000_0000,
{
    if code == 0 {
        Some(SerialType::Null)
    } else if code == 1 {
        Some(SerialType::Int8)
    } else if code == 2 {
        Some(SerialType::Int16)
    } else if code == 3 {
        Some(SerialType::Int24)
    } else if code == 4 {
        Some(SerialType::Int32)
    } else if code == 5 {
        Some(SerialType::Int48)
    } else if code == 6 {
        Some(SerialType::Int64)
    } else if code == 7 {
        Some(SerialType::Float)
    } else if code == 8 {
        Some(SerialType::Zero)
    } else if code == 9 {
        Some(SerialType::One)
    } else if code == 10 || code == 11 {
        None
    } else if code % 2 == 0 {
        Some(SerialType::Blob((((code - 12) / 2) as u64)))
    } else {
        Some(SerialType::Text((((code - 13) / 2) as u64)))
    }
}

/// The byte length a value of serial type `t` occupies in the record body.
pub open spec fn spec_content_size(t: SerialType) -> nat {
    match t {
        SerialType::Null => 0,
        SerialType::Int8 => 1,
        SerialType::Int16 => 2,
        SerialType::Int24 => 3,
        SerialType::Int32 => 4,
        SerialType::Int48 => 6,
        SerialType::Int64 => 8,
        SerialType::Float => 8,
        SerialType::Zero => 0,
        SerialType::One => 0,
        SerialType::Blob(n) => n as nat,
        SerialType::Text(n) => n as nat,
    }
}

impl SerialType {
    /// Maps a record-header code to its serial type. The reserved codes 10
    /// and 11 — and only those — fail, with `InvalidSerialType`.
    pub fn from(raw_serial_type: u64) -> (r: Result<SerialType, DbError>)
        ensures
            match r {
                Ok(t) => serial_type_of(raw_serial_type as nat) == Some(t),
                Err(e) => serial_type_of(raw_serial_type as nat) is None
                    && e == DbError::InvalidSerialType,
            },
            r is Ok <==> !(raw_serial_type == 10 || raw_serial_type == 11),
    {
        match raw_serial_type {
            0 => Ok(SerialType::Null),
            1 => Ok(SerialType::Int8),
            2 => Ok(SerialType::Int16),
            3 => Ok(SerialType::Int24),
            4 => Ok(SerialType::Int32),
            5 => Ok(SerialType::Int48),
            6 => Ok(SerialType::Int64),
            7 => Ok(SerialType::Float),
            8 => Ok(SerialType::Zero),
            9 => Ok(SerialType::One),
            10 | 11 => Err(DbError::InvalidSerialType),
            n => {
                if n % 2 == 0 {
                    Ok(SerialType::Blob((n - 12) / 2))
                } else {
                    Ok(SerialType::Text((n - 13) / 2))
                }
            },
        }
    }

    /// The byte length a value of this type occupies in the record body.
    pub fn content_size(&self) -> (r: u64)
        ensures
            r == spec_content_size(*self),
    {
        match self {
            SerialType::Null => 0,
            SerialType::Int8 => 1,
            SerialType::Int16 => 2,
            SerialType::Int24 => 3,
            SerialType::Int32 => 4,
            SerialType::Int48 => 6,
            SerialType::Int64 => 8,
            SerialType::Float => 8,
            SerialType::Zero => 0,
            SerialType::One => 0,
            SerialType::Blob(n) => *n,
            SerialType::Text(n) => *n,
        }
    }
}

/// Law: the serial-type mapping is total and exhaustive. Every code below
/// ten denotes one fixed-size type, every even code of twelve or more a
/// blob and every odd one text, each of the documented length; exactly the
/// two reserved codes are refused.
pub proof fn lemma_serial_type_total(code: nat)
    requires
        code < 0x1_0000_0000_0000_0000,
    ensures
        serial_type_of(code) is Some <==> !(code == 10 || code == 11),
        code >= 12 && code % 2 == 0 ==> serial_type_of(code)
            == Some(SerialType::Blob((((code - 12) / 2) as u64))),
        code >= 13 && code % 2 == 1 ==> serial_type_of(code)
            == Some(SerialType::Text((((code - 13) / 2) as u64))),
{
}

/// The mathematical value of a decoded column.
pub enum SpecValue {
    Null,
    Int8(int),
    Int16(int),
    Int24(int),
    Int32(int),
    Int48(int),
    Int64(int),
    /// The raw bit pattern of the IEEE-754 double, read big-endian.
    Float(u64),
    Zero,
    One,
    Blob(Seq<u8>),
    Text(Seq<char>),
}

/// A decoded column value.
///
/// `Float` carries the raw big-endian bit pattern of the IEEE-754 double:
/// the core does no floating-point arithmetic, and callers that need the
/// number reinterpret the bits.
#[derive(Debug, PartialEq, Clone)]
pub enum SerialValue {
    Null,
    Int8(i8),
    Int16(i16),
    Int24(i32),
    Int32(i32),
    Int48(i64),
    Int64(i64),
    Float(u64),
    Zero,
    One,
    Blob(Vec<u8>),
    Text(String),
}

impl View for SerialValue {
    type V = SpecValue;

    open spec fn view(&self) -> SpecValue {
        match self {
            SerialValue::Null => SpecValue::Null,
            SerialValue::Int8(x) => SpecValue::Int8(*x as int),
            SerialValue::Int16(x) => SpecValue::Int16(*x as int),
            SerialValue::Int24(x) => SpecValue::Int24(*x as int),
            SerialValue::Int32(x) => SpecValue::Int32(*x as int),
            SerialValue::Int48(x) => SpecValue::Int48(*x as int),
            SerialValue::Int64(x) => SpecValue::Int64(*x as int),
            SerialValue::Float(bits) => SpecValue::Float(*bits),
            SerialValue::Zero => SpecValue::Zero,
            SerialValue::One => SpecValue::One,
            SerialValue::Blob(b) => SpecValue::Blob(b@),
            SerialValue::Text(s) => SpecValue::Text(s@),
        }
    }
}

/// The column value of serial type `t` stored at `pos` in `s`, assuming
/// `s` is long enough; `None` when text bytes are not valid UTF-8.
pub open spec fn spec_column_value(s: Seq<u8>, pos: int, t: SerialType) -> Option<SpecValue> {
    match t {
        SerialType::Null => Some(SpecValue::Null),
        SerialType::Int8 => Some(SpecValue::Int8(be_sint(s, pos, 1))),
        SerialType::Int16 => Some(SpecValue::Int16(be_sint(s, pos, 2))),
        SerialType::Int24 => Some(SpecValue::Int24(be_sint(s, pos, 3))),
        SerialType::Int32 => Some(SpecValue::Int32(be_sint(s, pos, 4))),
        SerialType::Int48 => Some(SpecValue::Int48(be_sint(s, pos, 6))),
        SerialType::Int64 => Some(SpecValue::Int64(be_sint(s, pos, 8))),
        SerialType::Float => Some(SpecValue::Float(be_uint(s, pos, 8) as u64)),
        SerialType::Zero => Some(SpecValue::Zero),
        SerialType::One => Some(SpecValue::One),
        SerialType::Blob(n) => Some(SpecValue::Blob(s.subrange(pos, pos + n))),
        SerialType::Text(n) => {
            let b = s.subrange(pos, pos + n);
            if valid_utf8(b) {
                Some(SpecValue::Text(decode_utf8(b)))
            } else {
                None
            }
        },
    }
}

/// Relies on `String::from_utf8`: it succeeds exactly on valid UTF-8 input,
/// and the characters of the string it returns are that input's decoding.
#[verifier::external_body]
fn string_from_utf8(bytes: Vec<u8>) -> (r: Option<String>)
    ensures
        r is Some <==> valid_utf8(bytes@),
        r matches Some(s) ==> s@ == decode_utf8(bytes@),
{
    String::from_utf8(bytes).ok()
}

fn clone_bytes(b: &Vec<u8>) -> (r: Vec<u8>)
    ensures
        r@ == b@,
{
    let mut out: Vec<u8> = Vec::new();
    let mut i: usize = 0;
    while i < b.len()
        invariant
            0 <= i <= b@.len(),
            out@ == b@.subrange(0, i as int),
        decreases b@.len() - i,
    {
        out.push(b[i]);
        proof {
            assert(out@ =~= b@.subrange(0, i + 1));
        }
        i = i + 1;
    }
    proof {
        assert(out@ =~= b@);
    }
    out
}

impl SerialValue {
    /// An owned copy of the value, with the same content.
    pub fn duplicate(&self) -> (r: SerialValue)
        ensures
            r@ == self@,
    {
        match self {
            SerialValue::Null => SerialValue::Null,
            SerialValue::Int8(x) => SerialValue::Int8(*x),
            SerialValue::Int16(x) => SerialValue::Int16(*x),
            SerialValue::Int24(x) => SerialValue::Int24(*x),
            SerialValue::Int32(x) => SerialValue::Int32(*x),
            SerialValue::Int48(x) => SerialValue::Int48(*x),
            SerialValue::Int64(x) => SerialValue::Int64(*x),
            SerialValue::Float(bits) => SerialValue::Float(*bits),
            SerialValue::Zero => SerialValue::Zero,
            SerialValue::One => SerialValue::One,
            SerialValue::Blob(b) => SerialValue::Blob(clone_bytes(b)),
            SerialValue::Text(s) => SerialValue::Text(s.clone()),
        }
    }

    /// Decodes one column value of serial type `serial_type` at the
    /// reader's position, advancing past its content bytes.
    ///
    /// Fails with `ShortRead` when the buffer ends inside the value and
    /// with `InvalidUtf8` when a text value is not valid UTF-8.
    pub fn parse(reader: &mut ByteReader, serial_type: &SerialType) -> (r: Result<
        SerialValue,
        DbError,
    >)
        ensures
            match r {
                Ok(v) => {
                    &&& spec_content_size(*serial_type) > 0 ==> old(reader).pos
                        + spec_content_size(*serial_type) <= old(reader).data@.len()
                    &&& Some(v@) == spec_column_value(
                        old(reader).data@,
                        old(reader).pos as int,
                        *serial_type,
                    )
                    &&& final(reader).pos == old(reader).pos
                        + spec_content_size(*serial_type)
                    &&& final(reader).data@ == old(reader).data@
                },
                Err(e) => {
                    &&& final(reader).data@ == old(reader).data@
                    &&& if old(reader).pos + spec_content_size(*serial_type)
                        > old(reader).data@.len() {
                        e == DbError::ShortRead
                    } else {
                        e == DbError::InvalidUtf8 && spec_column_value(
                            old(reader).data@,
                            old(reader).pos as int,
                            *serial_type,
                        ) is None
                    }
                },
            },
    {
        proof {
            lemma_pow256_values();
        }
        let ghost s = reader.data@;
        let ghost p = reader.pos as int;
        match serial_type {
            SerialType::Null => Ok(SerialValue::Null),
            SerialType::Int8 => {
                let u = reader.read_be_uint(1)?;
                let v: i8 = if u < 0x80 {
                    u as i8
                } else {
                    -1 - ((0xff - u) as i8)
                };
                Ok(SerialValue::Int8(v))
            },
            SerialType::Int16 => {
                let u = reader.read_be_uint(2)?;
                let v: i16 = if u < 0x8000 {
                    u as i16
                } else {
                    -1 - ((0xffff - u) as i16)
                };
                Ok(SerialValue::Int16(v))
            },
            SerialType::Int24 => {
                let u = reader.read_be_uint(3)?;
                let v: i32 = if u < 0x80_0000 {
                    u as i32
                } else {
                    -1 - ((0xff_ffff - u) as i32)
                };
                Ok(SerialValue::Int24(v))
            },
            SerialType::Int32 => {
                let u = reader.read_be_uint(4)?;
                let v: i32 = if u < 0x8000_0000 {
                    u as i32
                } else {
                    -1 - ((0xffff_ffff - u) as i32)
                };
                Ok(SerialValue::Int32(v))
            },
            SerialType::Int48 => {
                let u = reader.read_be_uint(6)?;
                let v: i64 = if u < 0x8000_0000_0000 {
                    u as i64
                } else {
                    -1 - ((0xffff_ffff_ffff - u) as i64)
                };
                Ok(SerialValue::Int48(v))
            },
            SerialType::Int64 => {
                let u = reader.read_be_uint(8)?;
                let v: i64 = if u < 0x8000_0000_0000_0000 {
                    u as i64
                } else {
                    -1 - ((0xffff_ffff_ffff_ffff - u) as i64)
                };
                Ok(SerialValue::Int64(v))
            },
            SerialType::Float => {
                let u = reader.read_be_uint(8)?;
                Ok(SerialValue::Float(u))
            },
            SerialType::Zero => Ok(SerialValue::Zero),
            SerialType::One => Ok(SerialValue::One),
            SerialType::Blob(size) => {
                let sz = *size;
                if sz > reader.remaining() as u64 {
                    return Err(DbError::ShortRead);
                }
                let bytes = reader.read_exact(sz as usize)?;
                Ok(SerialValue::Blob(bytes))
            },
            SerialType::Text(size) => {
                let sz = *size;
                if sz > reader.remaining() as u64 {
                    return Err(DbError::ShortRead);
                }
                let bytes = reader.read_exact(sz as usize)?;
                match string_from_utf8(bytes) {
                    Some(text) => Ok(SerialValue::Text(text)),
                    None => Err(DbError::InvalidUtf8),
                }
            },
        }
    }
}

} // verus!
