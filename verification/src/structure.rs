//! The field names of a structure array.

use vstd::prelude::*;
use crate::data::ByteOrder;
use crate::model::NumericSeq;
use crate::parse::{error_at, names_view, DataType, ErrorKind, NumericData, ParseError};
use crate::subelement::{parse_numeric_subelement, spec_numeric_subelement};
use crate::tag::{parse_data_element_tag, spec_tag};
use crate::text::{decode_utf8_text, spec_utf8_text};

verus! {

/// The length that a numeric payload gives for field names: its single
/// value, where it is a positive integer.
pub open spec fn spec_name_length_of(data: NumericSeq) -> Option<int> {
    if data.data_type.is_integer() && data.values.len() == 1 && data.values[0] > 0 {
        Some(data.values[0])
    } else {
        None
    }
}

/// The subelement that starts at `pos` and gives the length of the field
/// names, and the position after it: a numeric subelement that holds one
/// positive integer.
pub open spec fn spec_field_name_length(s: Seq<u8>, order: ByteOrder, pos: int, end: int) -> Result<
    (int, int),
    ParseError,
> {
    match spec_numeric_subelement(s, order, pos, end) {
        Err(e) => Err(e),
        Ok((data, next)) => match spec_name_length_of(data) {
            None => Err(error_at(ErrorKind::UnexpectedSubelement, pos)),
            Some(len) => Ok((len, next)),
        },
    }
}

/// The single value of a numeric payload, where it is a positive integer.
pub fn name_length_of(data: &NumericData) -> (r: Option<u64>)
    ensures
        match r {
            Some(len) => spec_name_length_of(data@) == Some(len as int),
            None => spec_name_length_of(data@).is_none(),
        },
{
    match data {
        NumericData::Int8(vec) => if vec.len() == 1 && vec[0] > 0 {
            Some(vec[0] as u64)
        } else {
            None
        },
        NumericData::UInt8(vec) => if vec.len() == 1 && vec[0] > 0 {
            Some(vec[0] as u64)
        } else {
            None
        },
        NumericData::Int16(vec) => if vec.len() == 1 && vec[0] > 0 {
            Some(vec[0] as u64)
        } else {
            None
        },
        NumericData::UInt16(vec) => if vec.len() == 1 && vec[0] > 0 {
            Some(vec[0] as u64)
        } else {
            None
        },
        NumericData::Int32(vec) => if vec.len() == 1 && vec[0] > 0 {
            Some(vec[0] as u64)
        } else {
            None
        },
        NumericData::UInt32(vec) => if vec.len() == 1 && vec[0] > 0 {
            Some(vec[0] as u64)
        } else {
            None
        },
        NumericData::Int64(vec) => if vec.len() == 1 && vec[0] > 0 {
            Some(vec[0] as u64)
        } else {
            None
        },
        NumericData::UInt64(vec) => if vec.len() == 1 && vec[0] > 0 {
            Some(vec[0])
        } else {
            None
        },
        NumericData::Single(_) | NumericData::Double(_) => None,
    }
}

/// Reads the subelement that starts at `pos` and gives the length of the
/// field names.
///
/// Fails with the error of a numeric subelement, and with
/// `UnexpectedSubelement` unless the payload is one positive integer.
pub fn parse_struct_field_name_length(bytes: &[u8], order: ByteOrder, pos: usize, end: usize) -> (r:
    Result<(u64, usize), ParseError>)
    requires
        pos <= end <= bytes.len(),
    ensures
        match r {
            Ok((len, next)) => spec_field_name_length(bytes@, order, pos as int, end as int) == Ok::<
                (int, int),
                ParseError,
            >((len as int, next as int)),
            Err(e) => spec_field_name_length(bytes@, order, pos as int, end as int) == Err::<
                (int, int),
                ParseError,
            >(e),
        },
        r matches Ok((len, next)) ==> pos < next <= end && len > 0,
{
    let (numeric, next) = match parse_numeric_subelement(bytes, order, pos, end) {
        Ok(v) => v,
        Err(e) => {
            return Err(e);
        },
    };
    match name_length_of(&numeric) {
        None => Err(ParseError { kind: ErrorKind::UnexpectedSubelement, offset: pos }),
        Some(len) => Ok((len, next)),
    }
}

/// The position of the first NUL byte from `start` on and before `end`,
/// or `end` where there is none.
pub open spec fn nul_index(s: Seq<u8>, start: int, end: int) -> int
    decreases end - start,
{
    if start >= end {
        end
    } else if s[start] == 0 {
        start
    } else {
        nul_index(s, start + 1, end)
    }
}

/// The field name that the bytes from `start` up to `end` hold: the UTF-8
/// text before their first NUL byte. `None` where no byte is NUL or the
/// text is not well-formed.
pub open spec fn spec_field_name(s: Seq<u8>, start: int, end: int) -> Option<Seq<char>> {
    if nul_index(s, start, end) >= end {
        None
    } else {
        spec_utf8_text(s, start, nul_index(s, start, end))
    }
}

/// The `k`-th of the field names that are stored from `p` on in pieces of
/// `max_len` bytes.
pub open spec fn spec_field_name_at(s: Seq<u8>, p: int, max_len: int, k: int) -> Option<Seq<char>> {
    spec_field_name(s, p + k * max_len, p + k * max_len + max_len)
}

/// The `count` field names that are stored from `p` on in pieces of
/// `max_len` bytes, where each piece holds one.
pub open spec fn spec_field_names(s: Seq<u8>, p: int, max_len: int, count: int) -> Option<
    Seq<Seq<char>>,
> {
    if forall|k: int| 0 <= k < count ==> (#[trigger] spec_field_name_at(s, p, max_len, k)).is_some() {
        Some(Seq::new(count as nat, |k: int| spec_field_name_at(s, p, max_len, k).unwrap()))
    } else {
        None
    }
}

/// The field names subelement that starts at `pos`, for names of `max_len`
/// bytes, and the position after it. Its tag has the type `Int8` and a
/// length above zero, and `max_len` is above zero. The payload holds as
/// many names as pieces of `max_len` bytes fit into it, and the tag's
/// padding follows it.
pub open spec fn spec_struct_names(s: Seq<u8>, order: ByteOrder, pos: int, end: int, max_len: int)
    -> Result<(Seq<Seq<char>>, int), ParseError> {
    match spec_tag(s, order, pos, end) {
        Err(e) => Err(e),
        Ok((tag, p)) => {
            let size = tag.data_byte_size as int;
            if !(tag.data_type == DataType::Int8 && size > 0 && max_len > 0) {
                Err(error_at(ErrorKind::UnexpectedSubelement, pos))
            } else if end - p < size {
                Err(error_at(ErrorKind::UnexpectedEof, p))
            } else if end - (p + size) < tag.padding_byte_size {
                Err(error_at(ErrorKind::UnexpectedEof, p + size))
            } else {
                match spec_field_names(s, p, max_len, size / max_len) {
                    None => Err(error_at(ErrorKind::BadEncoding, p)),
                    Some(names) => Ok((names, p + size + tag.padding_byte_size)),
                }
            }
        },
    }
}

/// Finds the first NUL byte from `start` on and before `end`.
fn find_nul(bytes: &[u8], start: usize, end: usize) -> (r: usize)
    requires
        start <= end <= bytes.len(),
    ensures
        r == nul_index(bytes@, start as int, end as int),
        start <= r <= end,
{
    let mut i: usize = start;
    while i < end
        invariant
            start <= i <= end <= bytes.len(),
            nul_index(bytes@, start as int, end as int) == nul_index(bytes@, i as int, end as int),
        decreases end - i,
    {
        if bytes[i] == 0 {
            return i;
        }
        i += 1;
    }
    i
}

/// Reads the field name that the bytes from `start` up to `end` hold.
pub fn parse_field_name(bytes: &[u8], start: usize, end: usize) -> (r: Option<String>)
    requires
        start <= end <= bytes.len(),
    ensures
        match r {
            Some(name) => spec_field_name(bytes@, start as int, end as int) == Some(name@),
            None => spec_field_name(bytes@, start as int, end as int).is_none(),
        },
{
    let nul: usize = find_nul(bytes, start, end);
    if nul >= end {
        None
    } else {
        decode_utf8_text(bytes, start, nul)
    }
}

/// Reads the field names that are stored from `p` on in `size` bytes, in
/// pieces of `max_length` bytes.
fn read_field_names(bytes: &[u8], p: usize, size: u32, max_length: u64) -> (r: Option<Vec<String>>)
    requires
        p + size <= bytes.len(),
        max_length > 0,
    ensures
        match r {
            Some(names) => spec_field_names(
                bytes@,
                p as int,
                max_length as int,
                size as int / (max_length as int),
            ) == Some(names_view(names@)),
            None => spec_field_names(
                bytes@,
                p as int,
                max_length as int,
                size as int / (max_length as int),
            ).is_none(),
        },
{
    let value_count: u64 = size as u64 / max_length;
    let ghost max_len = max_length as int;
    assert(value_count * max_length <= size) by (nonlinear_arith)
        requires
            value_count == size as u64 / max_length,
            max_length > 0,
    ;
    let mut result: Vec<String> = Vec::new();
    let mut idx: u64 = 0;
    let mut start: usize = p;
    while idx < value_count
        invariant
            idx <= value_count,
            max_length > 0,
            max_len == max_length,
            value_count * max_len <= size,
            value_count as int == size as int / max_len,
            p + size <= bytes.len(),
            start == p + idx * max_len,
            result@.len() == idx,
            forall|k: int|
                0 <= k < idx ==> #[trigger] spec_field_name_at(bytes@, p as int, max_len, k)
                    == Some(result@[k]@),
        decreases value_count - idx,
    {
        assert((idx + 1) * max_len == idx * max_len + max_len) by (nonlinear_arith);
        assert((idx + 1) * max_len <= value_count * max_len) by (nonlinear_arith)
            requires
                idx + 1 <= value_count,
                max_len > 0,
        ;
        let stop: usize = start + max_length as usize;
        match parse_field_name(bytes, start, stop) {
            None => {
                assert(spec_field_name_at(bytes@, p as int, max_len, idx as int).is_none());
                return None;
            },
            Some(name) => {
                result.push(name);
            },
        }
        start = stop;
        idx += 1;
    }
    proof {
        let names = spec_field_names(bytes@, p as int, max_len, value_count as int);
        assert(names.is_some());
        assert(names.unwrap() =~= names_view(result@));
    }
    Some(result)
}

/// Reads the field names subelement that starts at `pos` in the window
/// that ends at `end`, for names of `max_length` bytes.
///
/// Fails with the tag's error; with `UnexpectedSubelement` unless the tag
/// has the type `Int8` and a length above zero, and `max_length` is above
/// zero; with `UnexpectedEof` where the window ends too early; with
/// `BadEncoding` where a name has no NUL byte or is not UTF-8.
pub fn parse_struct_names(bytes: &[u8], order: ByteOrder, pos: usize, end: usize, max_length: u64)
    -> (r: Result<(Vec<String>, usize), ParseError>)
    requires
        pos <= end <= bytes.len(),
    ensures
        match r {
            Ok((names, next)) => spec_struct_names(
                bytes@,
                order,
                pos as int,
                end as int,
                max_length as int,
            ) == Ok::<(Seq<Seq<char>>, int), ParseError>((names_view(names@), next as int)),
            Err(e) => spec_struct_names(bytes@, order, pos as int, end as int, max_length as int)
                == Err::<(Seq<Seq<char>>, int), ParseError>(e),
        },
        r matches Ok((_, next)) ==> pos < next <= end,
{
    let (tag, p) = match parse_data_element_tag(bytes, order, pos, end) {
        Ok(v) => v,
        Err(e) => {
            return Err(e);
        },
    };
    let size: u32 = tag.data_byte_size;
    if !(tag.data_type == DataType::Int8 && size > 0 && max_length > 0) {
        return Err(ParseError { kind: ErrorKind::UnexpectedSubelement, offset: pos });
    }
    if end - p < size as usize {
        return Err(ParseError { kind: ErrorKind::UnexpectedEof, offset: p });
    }
    let q: usize = p + size as usize;
    if end - q < tag.padding_byte_size as usize {
        return Err(ParseError { kind: ErrorKind::UnexpectedEof, offset: q });
    }
    match read_field_names(bytes, p, size, max_length) {
        None => Err(ParseError { kind: ErrorKind::BadEncoding, offset: p }),
        Some(names) => Ok((names, q + tag.padding_byte_size as usize)),
    }
}

} // verus!
