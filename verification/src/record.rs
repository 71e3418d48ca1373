//! The record decoder: a reconstructed cell payload, decoded into an
//! ordered list of typed column values.
//!
//! A payload starts with a varint giving the header length in bytes
//! (counting that varint itself), followed by one serial-type varint per
//! column, which must fill the declared header length exactly; the column
//! values follow back to back in the same order.

use vstd::prelude::*;

use crate::errors::DbError;
use crate::reader::ByteReader;
use crate::types::{
    serial_type_of, spec_column_value, spec_content_size, SerialType, SerialValue, SpecValue,
};
use crate::varint::{
    lemma_varint_size_range, varint_complete, varint_size, varint_val,
};

verus! {

broadcast use vstd::std_specs::vec::axiom_spec_len;

/// The serial types declared by the record header: the codes read from
/// `pos` on must fill exactly `remaining` bytes.
pub open spec fn spec_header_types(s: Seq<u8>, pos: int, remaining: int) -> Result<
    Seq<SerialType>,
    DbError,
>
    decreases remaining via spec_header_types_decreases
{
    if remaining <= 0 {
        Ok(Seq::empty())
    } else if !varint_complete(s, pos) {
        Err(DbError::ShortRead)
    } else {
        let n = varint_size(s, pos);
        let code = varint_val(s, pos);
        if n > remaining {
            Err(DbError::RecordHeaderMismatch)
        } else {
            match serial_type_of(code) {
                None => Err(DbError::InvalidSerialType),
                Some(t) => match spec_header_types(s, pos + n, remaining - n) {
                    Ok(rest) => Ok(seq![t] + rest),
                    Err(e) => Err(e),
                },
            }
        }
    }
}

#[via_fn]
proof fn spec_header_types_decreases(s: Seq<u8>, pos: int, remaining: int) {
    lemma_varint_size_range(s, pos);
}

/// The column values of the given serial types, laid out back to back at
/// `pos` in `s`.
pub open spec fn spec_values(s: Seq<u8>, pos: int, types: Seq<SerialType>) -> Result<
    Seq<SpecValue>,
    DbError,
>
    decreases types.len(),
{
    if types.len() == 0 {
        Ok(Seq::empty())
    } else {
        let t = types[0];
        let size = spec_content_size(t);
        if size > 0 && pos + size > s.len() {
            Err(DbError::ShortRead)
        } else {
            match spec_column_value(s, pos, t) {
                None => Err(DbError::InvalidUtf8),
                Some(v) => match spec_values(s, pos + size, types.drop_first()) {
                    Ok(rest) => Ok(seq![v] + rest),
                    Err(e) => Err(e),
                },
            }
        }
    }
}

/// The mathematical content of a decoded record.
pub struct RecordModel {
    pub row_id: u64,
    pub types: Seq<SerialType>,
    pub values: Seq<SpecValue>,
}

/// The record encoded in `payload`, carrying the given row id: the
/// reference model the executable decoder is proved against.
pub open spec fn spec_record(payload: Seq<u8>, row_id: u64) -> Result<RecordModel, DbError> {
    if !varint_complete(payload, 0) {
        Err(DbError::ShortRead)
    } else {
        let hsize = varint_size(payload, 0);
        let hlen = varint_val(payload, 0);
        if hlen < hsize || hlen > payload.len() {
            Err(DbError::RecordHeaderMismatch)
        } else {
            match spec_header_types(payload, hsize, hlen - hsize) {
                Err(e) => Err(e),
                Ok(types) => match spec_values(payload, hlen as int, types) {
                    Err(e) => Err(e),
                    Ok(values) => Ok(RecordModel { row_id, types, values }),
                },
            }
        }
    }
}

impl vstd::view::DeepView for SerialValue {
    type V = SpecValue;

    open spec fn deep_view(&self) -> SpecValue {
        self@
    }
}

/// One decoded row: its row id, the declared serial types, and the column
/// values, in storage order.
#[derive(Debug, PartialEq)]
pub struct Record {
    pub row_id: u64,
    pub serial_types: Vec<SerialType>,
    pub serial_values: Vec<SerialValue>,
}

impl View for Record {
    type V = RecordModel;

    open spec fn view(&self) -> RecordModel {
        RecordModel {
            row_id: self.row_id,
            types: self.serial_types@,
            values: self.serial_values.deep_view(),
        }
    }
}

impl Record {
    /// Decodes the record held in `payload` (a fully reconstructed cell
    /// payload). Decoding either returns exactly the record the model
    /// assigns to these bytes, or the exact failure it assigns.
    #[verifier::loop_isolation(false)]
    pub fn decode(payload: Vec<u8>, row_id: u64) -> (r: Result<Record, DbError>)
        ensures
            match r {
                Ok(rec) => spec_record(payload@, row_id) == Ok::<RecordModel, DbError>(rec@),
                Err(e) => spec_record(payload@, row_id) == Err::<RecordModel, DbError>(e),
            },
    {
        let ghost s = payload@;
        let mut rd = ByteReader::new(payload);
        let (hlen, hsize) = match rd.read_varint() {
            Ok(p) => p,
            Err(e) => {
                return Err(e);
            },
        };
        let dlen: usize = rd.data.len();
        if hlen < hsize as u64 || hlen > dlen as u64 {
            return Err(DbError::RecordHeaderMismatch);
        }
        let ghost header_span = (hlen - hsize) as int;
        let mut remaining: u64 = hlen - hsize as u64;
        let mut types: Vec<SerialType> = Vec::new();
        while remaining > 0
            invariant
                rd.data@ == s,
                rd.pos == hlen - remaining,
                remaining <= hlen - hsize,
                match spec_header_types(s, rd.pos as int, remaining as int) {
                    Ok(rest) => spec_header_types(s, hsize as int, header_span)
                        == Ok::<Seq<SerialType>, DbError>(types@ + rest),
                    Err(e) => spec_header_types(s, hsize as int, header_span)
                        == Err::<Seq<SerialType>, DbError>(e),
                },
            decreases remaining,
        {
            let ghost pos0 = rd.pos as int;
            let ghost rem0 = remaining as int;
            let (code, n) = match rd.read_varint() {
                Ok(p) => p,
                Err(e) => {
                    return Err(e);
                },
            };
            if n as u64 > remaining {
                return Err(DbError::RecordHeaderMismatch);
            }
            let t = match SerialType::from(code) {
                Ok(t) => t,
                Err(e) => {
                    return Err(e);
                },
            };
            let ghost t0 = types@;
            types.push(t);
            remaining = remaining - n as u64;
            proof {
                match spec_header_types(s, rd.pos as int, remaining as int) {
                    Ok(rest) => {
                        assert(spec_header_types(s, pos0, rem0)
                            == Ok::<Seq<SerialType>, DbError>(seq![t] + rest));
                        assert(t0 + (seq![t] + rest) =~= types@ + rest);
                    },
                    Err(e2) => {
                        assert(spec_header_types(s, pos0, rem0)
                            == Err::<Seq<SerialType>, DbError>(e2));
                    },
                }
            }
        }
        let ghost spec_types = types@;
        proof {
            assert(types@ + Seq::<SerialType>::empty() =~= types@);
            assert(spec_header_types(s, hsize as int, header_span)
                == Ok::<Seq<SerialType>, DbError>(spec_types));
        }
        let mut values: Vec<SerialValue> = Vec::new();
        let mut i: usize = 0;
        proof {
            assert(spec_types.skip(0) =~= spec_types);
            match spec_values(s, rd.pos as int, spec_types.skip(0)) {
                Ok(rest) => {
                    assert(values.deep_view() + rest =~= rest);
                },
                Err(_) => {},
            }
        }
        while i < types.len()
            invariant
                rd.data@ == s,
                rd.pos <= s.len(),
                0 <= i <= types.len(),
                types@ == spec_types,
                values.deep_view().len() == i,
                match spec_values(s, rd.pos as int, spec_types.skip(i as int)) {
                    Ok(rest) => spec_values(s, hlen as int, spec_types)
                        == Ok::<Seq<SpecValue>, DbError>(values.deep_view() + rest),
                    Err(e) => spec_values(s, hlen as int, spec_types)
                        == Err::<Seq<SpecValue>, DbError>(e),
                },
            decreases types.len() - i,
        {
            let ghost pos0 = rd.pos as int;
            proof {
                assert(spec_types.skip(i as int)[0] == spec_types[i as int]);
                assert(spec_types.skip(i as int).drop_first() =~= spec_types.skip(i + 1));
            }
            let v = match SerialValue::parse(&mut rd, &types[i]) {
                Ok(v) => v,
                Err(e) => {
                    return Err(e);
                },
            };
            let ghost dv0 = values.deep_view();
            values.push(v);
            i = i + 1;
            proof {
                assert(values.deep_view() =~= dv0 + seq![v@]);
                match spec_values(s, rd.pos as int, spec_types.skip(i as int)) {
                    Ok(rest) => {
                        assert(spec_values(s, pos0, spec_types.skip(i - 1))
                            == Ok::<Seq<SpecValue>, DbError>(seq![v@] + rest));
                        assert(dv0 + (seq![v@] + rest) =~= values.deep_view() + rest);
                    },
                    Err(e2) => {
                        assert(spec_values(s, pos0, spec_types.skip(i - 1))
                            == Err::<Seq<SpecValue>, DbError>(e2));
                    },
                }
            }
        }
        proof {
            assert(spec_types.skip(types@.len() as int) =~= Seq::<SerialType>::empty());
            assert(values.deep_view() + Seq::<SpecValue>::empty() =~= values.deep_view());
        }
        Ok(Record { row_id, serial_types: types, serial_values: values })
    }
}

} // verus!
