//! Storage cells and the packed binary form of a row.
//!
//! A packed row is the encodings of its cells one after the other. A cell is
//! one tag byte, followed for the integers by the value in little-endian
//! two's complement, and for a string by its length in bytes as eight
//! little-endian bytes and its UTF-8 bytes.

use vstd::bytes::{
    lemma_auto_spec_u16_to_from_le_bytes, lemma_auto_spec_u32_to_from_le_bytes,
    lemma_auto_spec_u64_to_from_le_bytes, spec_u16_from_le_bytes, spec_u16_to_le_bytes,
    spec_u32_from_le_bytes, spec_u32_to_le_bytes, spec_u64_from_le_bytes, spec_u64_to_le_bytes,
    u16_from_le_bytes, u16_to_le_bytes, u32_from_le_bytes, u32_to_le_bytes, u64_from_le_bytes,
    u64_to_le_bytes,
};
use vstd::prelude::*;
use vstd::slice::{slice_subrange, slice_to_vec};
use vstd::utf8::{decode_utf8, encode_utf8, encode_utf8_decode_utf8, encode_utf8_valid_utf8, valid_utf8};

verus! {

/// Tag of the null marker.
pub const TAG_NULL: u8 = 0;

/// Tag of the boolean `true`.
pub const TAG_TRUE: u8 = 1;

/// Tag of the boolean `false`.
pub const TAG_FALSE: u8 = 2;

/// Tag of a 16-bit integer.
pub const TAG_INT16: u8 = 3;

/// Tag of a 32-bit integer.
pub const TAG_INT32: u8 = 4;

/// Tag of a 64-bit integer.
pub const TAG_INT64: u8 = 5;

/// Tag of a string.
pub const TAG_STRING: u8 = 6;

/// One cell of a stored row.
#[derive(Debug, PartialEq, Eq)]
pub enum Datum {
    Null,
    True,
    False,
    Int16(i16),
    Int32(i32),
    Int64(i64),
    String(String),
}

/// The mathematical content of a cell.
pub enum DatumValue {
    Null,
    True,
    False,
    Int16(i16),
    Int32(i32),
    Int64(i64),
    String(Seq<char>),
}

impl View for Datum {
    type V = DatumValue;

    open spec fn view(&self) -> DatumValue {
        match self {
            Datum::Null => DatumValue::Null,
            Datum::True => DatumValue::True,
            Datum::False => DatumValue::False,
            Datum::Int16(v) => DatumValue::Int16(*v),
            Datum::Int32(v) => DatumValue::Int32(*v),
            Datum::Int64(v) => DatumValue::Int64(*v),
            Datum::String(v) => DatumValue::String(v@),
        }
    }
}

impl DeepView for Datum {
    type V = DatumValue;

    open spec fn deep_view(&self) -> DatumValue {
        self@
    }
}

impl DatumValue {
    /// Whether the cell can be encoded: the byte length of a string has to
    /// fit the eight bytes that hold it.
    pub open spec fn encodable(self) -> bool {
        self matches DatumValue::String(text) ==> encode_utf8(text).len() <= u64::MAX
    }

    /// The bytes that encode the cell.
    pub open spec fn encoding(self) -> Seq<u8> {
        match self {
            DatumValue::Null => seq![TAG_NULL],
            DatumValue::True => seq![TAG_TRUE],
            DatumValue::False => seq![TAG_FALSE],
            DatumValue::Int16(v) => seq![TAG_INT16] + spec_u16_to_le_bytes(v as u16),
            DatumValue::Int32(v) => seq![TAG_INT32] + spec_u32_to_le_bytes(v as u32),
            DatumValue::Int64(v) => seq![TAG_INT64] + spec_u64_to_le_bytes(v as u64),
            DatumValue::String(text) => seq![TAG_STRING] + spec_u64_to_le_bytes(
                encode_utf8(text).len() as u64,
            ) + encode_utf8(text),
        }
    }

    /// The cell that the front of `bytes` encodes, with the number of bytes
    /// it takes; none where the bytes do not start with a whole cell.
    pub open spec fn decoding(bytes: Seq<u8>) -> Option<(DatumValue, int)> {
        if bytes.len() == 0 {
            None
        } else if bytes[0] == TAG_NULL {
            Some((DatumValue::Null, 1))
        } else if bytes[0] == TAG_TRUE {
            Some((DatumValue::True, 1))
        } else if bytes[0] == TAG_FALSE {
            Some((DatumValue::False, 1))
        } else if bytes[0] == TAG_INT16 && bytes.len() >= 3 {
            Some((DatumValue::Int16(spec_u16_from_le_bytes(bytes.subrange(1, 3)) as i16), 3))
        } else if bytes[0] == TAG_INT32 && bytes.len() >= 5 {
            Some((DatumValue::Int32(spec_u32_from_le_bytes(bytes.subrange(1, 5)) as i32), 5))
        } else if bytes[0] == TAG_INT64 && bytes.len() >= 9 {
            Some((DatumValue::Int64(spec_u64_from_le_bytes(bytes.subrange(1, 9)) as i64), 9))
        } else if bytes[0] == TAG_STRING && bytes.len() >= 9 {
            let len = spec_u64_from_le_bytes(bytes.subrange(1, 9)) as int;
            if bytes.len() >= 9 + len && valid_utf8(bytes.subrange(9, 9 + len)) {
                Some((DatumValue::String(decode_utf8(bytes.subrange(9, 9 + len))), 9 + len))
            } else {
                None
            }
        } else {
            None
        }
    }
}

/// Whether every cell of a row can be encoded.
pub open spec fn row_encodable(row: Seq<DatumValue>) -> bool {
    forall|i: int| 0 <= i < row.len() ==> (#[trigger] row[i]).encodable()
}

/// The bytes of a packed row: the encodings of its cells in order.
pub open spec fn row_encoding(row: Seq<DatumValue>) -> Seq<u8>
    decreases row.len(),
{
    if row.len() == 0 {
        Seq::<u8>::empty()
    } else {
        row_encoding(row.drop_last()) + row.last().encoding()
    }
}

/// The row that `bytes` encode; none where they are not a sequence of whole
/// cells.
pub open spec fn row_decoding(bytes: Seq<u8>) -> Option<Seq<DatumValue>>
    decreases bytes.len(),
{
    if bytes.len() == 0 {
        Some(Seq::<DatumValue>::empty())
    } else {
        match DatumValue::decoding(bytes) {
            Some((cell, taken)) => if 0 < taken <= bytes.len() {
                match row_decoding(bytes.skip(taken)) {
                    Some(rest) => Some(seq![cell] + rest),
                    None => None,
                }
            } else {
                None
            },
            None => None,
        }
    }
}

/// Decoding the encoding of a cell, whatever follows it, gives the cell back
/// and takes exactly the bytes of the encoding.
pub proof fn lemma_decoding_inverts_encoding(cell: DatumValue, rest: Seq<u8>)
    requires
        cell.encodable(),
    ensures
        DatumValue::decoding(cell.encoding() + rest) == Some((cell, cell.encoding().len() as int)),
        cell.encoding().len() > 0,
{
    let bytes = cell.encoding() + rest;
    lemma_auto_spec_u16_to_from_le_bytes();
    lemma_auto_spec_u32_to_from_le_bytes();
    lemma_auto_spec_u64_to_from_le_bytes();
    match cell {
        DatumValue::Int16(v) => {
            assert(bytes.subrange(1, 3) =~= spec_u16_to_le_bytes(v as u16));
            assert((v as u16) as i16 == v) by (bit_vector);
        },
        DatumValue::Int32(v) => {
            assert(bytes.subrange(1, 5) =~= spec_u32_to_le_bytes(v as u32));
            assert((v as u32) as i32 == v) by (bit_vector);
        },
        DatumValue::Int64(v) => {
            assert(bytes.subrange(1, 9) =~= spec_u64_to_le_bytes(v as u64));
            assert((v as u64) as i64 == v) by (bit_vector);
        },
        DatumValue::String(text) => {
            let payload = encode_utf8(text);
            assert(bytes.subrange(1, 9) =~= spec_u64_to_le_bytes(payload.len() as u64));
            assert(bytes.subrange(9, 9 + payload.len() as int) =~= payload);
            encode_utf8_valid_utf8(text);
            encode_utf8_decode_utf8(text);
        },
        _ => {},
    }
}

/// Unpacking a packed row gives the row back.
pub proof fn lemma_row_round_trip(row: Seq<DatumValue>)
    requires
        row_encodable(row),
    ensures
        row_decoding(row_encoding(row)) == Some(row),
{
    lemma_row_decoding_of_encoding(row, Seq::<u8>::empty());
    assert(row_encoding(row) + Seq::<u8>::empty() =~= row_encoding(row));
    assert(row + Seq::<DatumValue>::empty() =~= row);
}

/// Bytes that open with the encoding of a row decode to that row followed by
/// what the rest decodes to.
proof fn lemma_row_decoding_of_encoding(row: Seq<DatumValue>, rest: Seq<u8>)
    requires
        row_encodable(row),
    ensures
        row_decoding(row_encoding(row) + rest) == match row_decoding(rest) {
            Some(cells) => Some(row + cells),
            None => None,
        },
    decreases row.len(),
{
    if row.len() == 0 {
        assert(row_encoding(row) + rest =~= rest);
        if let Some(cells) = row_decoding(rest) {
            assert(row + cells =~= cells);
        }
    } else {
        let front = row.drop_last();
        let cell = row.last();
        let tail = cell.encoding() + rest;
        assert(row_encoding(row) + rest =~= row_encoding(front) + tail);
        lemma_row_decoding_of_encoding(front, tail);
        lemma_decoding_inverts_encoding(cell, rest);
        assert(tail.skip(cell.encoding().len() as int) =~= rest);
        if let Some(cells) = row_decoding(rest) {
            assert(front + (seq![cell] + cells) =~= row + cells);
        }
    }
}

/// Calls `String::from_utf8` of std: the string that the bytes spell where
/// they are valid UTF-8, none where they are not.
#[verifier::external_body]
fn string_from_utf8(bytes: Vec<u8>) -> (r: Option<String>)
    ensures
        r is Some <==> valid_utf8(bytes@),
        r matches Some(text) ==> text@ == decode_utf8(bytes@),
{
    String::from_utf8(bytes).ok()
}

impl Datum {
    /// The null marker.
    pub fn from_null() -> (r: Datum)
        ensures
            r@ == DatumValue::Null,
    {
        Datum::Null
    }

    /// The cell of a boolean.
    pub fn from_bool(value: bool) -> (r: Datum)
        ensures
            r@ == if value {
                DatumValue::True
            } else {
                DatumValue::False
            },
    {
        if value {
            Datum::True
        } else {
            Datum::False
        }
    }

    /// The cell of a 16-bit integer.
    pub fn from_i16(value: i16) -> (r: Datum)
        ensures
            r@ == DatumValue::Int16(value),
    {
        Datum::Int16(value)
    }

    /// The cell of a 32-bit integer.
    pub fn from_i32(value: i32) -> (r: Datum)
        ensures
            r@ == DatumValue::Int32(value),
    {
        Datum::Int32(value)
    }

    /// The cell of a 64-bit integer.
    pub fn from_i64(value: i64) -> (r: Datum)
        ensures
            r@ == DatumValue::Int64(value),
    {
        Datum::Int64(value)
    }

    /// The cell of a string.
    pub fn from_string(value: String) -> (r: Datum)
        ensures
            r@ == DatumValue::String(value@),
    {
        Datum::String(value)
    }

    /// Appends the encoding of the cell to `out`.
    fn encode_into(&self, out: &mut Vec<u8>)
        ensures
            final(out)@ == old(out)@ + self@.encoding(),
            self@.encodable(),
    {
        match self {
            Datum::Null => {
                out.push(TAG_NULL);
                assert(out@ =~= old(out)@ + self@.encoding());
            },
            Datum::True => {
                out.push(TAG_TRUE);
                assert(out@ =~= old(out)@ + self@.encoding());
            },
            Datum::False => {
                out.push(TAG_FALSE);
                assert(out@ =~= old(out)@ + self@.encoding());
            },
            Datum::Int16(v) => {
                out.push(TAG_INT16);
                let mut bytes = u16_to_le_bytes(*v as u16);
                out.append(&mut bytes);
                assert(out@ =~= old(out)@ + self@.encoding());
            },
            Datum::Int32(v) => {
                out.push(TAG_INT32);
                let mut bytes = u32_to_le_bytes(*v as u32);
                out.append(&mut bytes);
                assert(out@ =~= old(out)@ + self@.encoding());
            },
            Datum::Int64(v) => {
                out.push(TAG_INT64);
                let mut bytes = u64_to_le_bytes(*v as u64);
                out.append(&mut bytes);
                assert(out@ =~= old(out)@ + self@.encoding());
            },
            Datum::String(text) => {
                out.push(TAG_STRING);
                let payload = text.as_str().as_bytes();
                let mut len = u64_to_le_bytes(payload.len() as u64);
                out.append(&mut len);
                let mut copy = slice_to_vec(payload);
                out.append(&mut copy);
                assert(out@ =~= old(out)@ + self@.encoding());
            },
        }
    }
}

/// A packed row.
#[derive(Debug, PartialEq, Eq)]
pub struct Binary(Vec<u8>);

impl View for Binary {
    type V = Seq<u8>;

    closed spec fn view(&self) -> Seq<u8> {
        self.0@
    }
}

impl DeepView for Binary {
    type V = Seq<u8>;

    open spec fn deep_view(&self) -> Seq<u8> {
        self@
    }
}

impl Binary {
    /// The packed row that consists of the given bytes.
    pub fn with_data(data: Vec<u8>) -> (r: Binary)
        ensures
            r@ == data@,
    {
        Binary(data)
    }

    /// The bytes of the packed row.
    pub fn to_bytes(&self) -> (r: &Vec<u8>)
        ensures
            r@ == self@,
    {
        &self.0
    }

    /// Packs a row of cells.
    pub fn pack(data: &[Datum]) -> (r: Binary)
        ensures
            r@ == row_encoding(data.deep_view()),
            row_encodable(data.deep_view()),
    {
        let mut out: Vec<u8> = Vec::new();
        let mut i: usize = 0;
        let ghost row = data.deep_view();
        while i < data.len()
            invariant
                i <= data@.len(),
                row == data.deep_view(),
                row.len() == data@.len(),
                forall|j: int| 0 <= j < row.len() ==> row[j] == data@[j]@,
                out@ == row_encoding(row.take(i as int)),
                row_encodable(row.take(i as int)),
            decreases data@.len() - i,
        {
            data[i].encode_into(&mut out);
            proof {
                let longer = row.take(i + 1);
                assert(longer.drop_last() =~= row.take(i as int));
                assert(longer.last() == data@[i as int]@);
                assert forall|j: int| 0 <= j < longer.len() implies (#[trigger] longer[j]).encodable() by {
                    if j < i {
                        assert(longer[j] == row.take(i as int)[j]);
                    }
                }
            }
            i += 1;
        }
        proof {
            assert(row.take(i as int) =~= row);
        }
        Binary(out)
    }

    /// Unpacks the row; none where the bytes are not a sequence of whole
    /// cells.
    pub fn unpack(&self) -> (r: Option<Vec<Datum>>)
        ensures
            r is Some <==> row_decoding(self@) is Some,
            r matches Some(row) ==> row_decoding(self@) == Some(row.deep_view()),
    {
        let bytes = self.0.as_slice();
        let len = bytes.len();
        let mut row: Vec<Datum> = Vec::new();
        let mut at: usize = 0;
        proof {
            assert(bytes@.skip(0) =~= bytes@);
            if let Some(rest) = row_decoding(bytes@) {
                assert(row.deep_view() + rest =~= rest);
            }
        }
        while at < len
            invariant
                at <= len,
                len == bytes@.len(),
                bytes@ == self@,
                row_decoding(bytes@) == match row_decoding(bytes@.skip(at as int)) {
                    Some(rest) => Some(row.deep_view() + rest),
                    None => None,
                },
            decreases len - at,
        {
            let ghost tail = bytes@.skip(at as int);
            let ghost before = row.deep_view();
            assert(tail.len() == len - at);
            assert(tail[0] == bytes@[at as int]);
            let tag = bytes[at];
            let taken: usize;
            if tag == TAG_NULL {
                row.push(Datum::Null);
                taken = 1;
            } else if tag == TAG_TRUE {
                row.push(Datum::True);
                taken = 1;
            } else if tag == TAG_FALSE {
                row.push(Datum::False);
                taken = 1;
            } else if tag == TAG_INT16 && len - at >= 3 {
                let field = slice_subrange(bytes, at + 1, at + 3);
                assert(field@ =~= tail.subrange(1, 3));
                row.push(Datum::Int16(u16_from_le_bytes(field) as i16));
                taken = 3;
            } else if tag == TAG_INT32 && len - at >= 5 {
                let field = slice_subrange(bytes, at + 1, at + 5);
                assert(field@ =~= tail.subrange(1, 5));
                row.push(Datum::Int32(u32_from_le_bytes(field) as i32));
                taken = 5;
            } else if tag == TAG_INT64 && len - at >= 9 {
                let field = slice_subrange(bytes, at + 1, at + 9);
                assert(field@ =~= tail.subrange(1, 9));
                row.push(Datum::Int64(u64_from_le_bytes(field) as i64));
                taken = 9;
            } else if tag == TAG_STRING && len - at >= 9 {
                let field = slice_subrange(bytes, at + 1, at + 9);
                assert(field@ =~= tail.subrange(1, 9));
                let size = u64_from_le_bytes(field);
                if size > (len - at - 9) as u64 {
                    return None;
                }
                let size = size as usize;
                let payload = slice_subrange(bytes, at + 9, at + 9 + size);
                assert(payload@ =~= tail.subrange(9, 9 + size));
                match string_from_utf8(slice_to_vec(payload)) {
                    Some(text) => {
                        row.push(Datum::String(text));
                    },
                    None => {
                        return None;
                    },
                }
                taken = 9 + size;
            } else {
                return None;
            }
            proof {
                let cell = row@[row@.len() - 1]@;
                assert(DatumValue::decoding(tail) == Some((cell, taken as int)));
                assert(bytes@.skip(at + taken) =~= tail.skip(taken as int));
                assert(row.deep_view() =~= before.push(cell));
                if let Some(rest) = row_decoding(tail.skip(taken as int)) {
                    assert(before + (seq![cell] + rest) =~= row.deep_view() + rest);
                }
            }
            at += taken;
        }
        proof {
            assert(row.deep_view() + Seq::<DatumValue>::empty() =~= row.deep_view());
        }
        Some(row)
    }
}

} // verus!
