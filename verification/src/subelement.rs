//! The subelements of an array: numeric payloads, array flags, extents,
//! index vectors and the array name.

use vstd::prelude::*;
use crate::data::ByteOrder;
use crate::model::NumericSeq;
use crate::parse::{
    error_at,
    ArrayFlags,
    ArrayType,
    DataType,
    ErrorKind,
    NumericData,
    ParseError,
};
use crate::primitive::{
    i16_at,
    i32_at,
    i64_at,
    i8_at,
    read_i16,
    read_i32,
    read_i64,
    read_i8,
    read_u16,
    read_u32,
    read_u64,
    u16_at,
    u32_at,
    u64_at,
};
use crate::tag::{parse_data_element_tag, spec_tag};
use crate::text::{decode_utf8_text, spec_utf8_text};

verus! {

/// The value of type `t` stored at `pos`; a floating-point value is given
/// by its bit pattern.
pub open spec fn numeric_value_at(s: Seq<u8>, pos: int, t: DataType, order: ByteOrder) -> int {
    match t {
        DataType::Int8 => i8_at(s, pos),
        DataType::UInt8 => s[pos] as int,
        DataType::Int16 => i16_at(s, pos, order),
        DataType::UInt16 => u16_at(s, pos, order),
        DataType::Int32 => i32_at(s, pos, order),
        DataType::UInt32 | DataType::Single => u32_at(s, pos, order),
        DataType::Int64 => i64_at(s, pos, order),
        DataType::UInt64 | DataType::Double => u64_at(s, pos, order),
        _ => 0,
    }
}

/// The `count` values of type `t` stored from `pos` on.
pub open spec fn numeric_values_at(s: Seq<u8>, pos: int, count: int, t: DataType, order: ByteOrder)
    -> Seq<int> {
    Seq::new(count as nat, |k: int| numeric_value_at(s, pos + k * t.spec_width(), t, order))
}

/// The numeric subelement that starts at `pos`, and the position after it.
///
/// Its tag names a numeric type. It holds as many values as fit into the
/// length that the tag gives, and after them the tag's padding.
pub open spec fn spec_numeric_subelement(s: Seq<u8>, order: ByteOrder, pos: int, end: int)
    -> Result<(NumericSeq, int), ParseError> {
    match spec_tag(s, order, pos, end) {
        Err(e) => Err(e),
        Ok((tag, p)) => {
            let t = tag.data_type;
            if !t.is_numeric() {
                Err(error_at(ErrorKind::UnexpectedSubelement, pos))
            } else {
                let count = tag.data_byte_size as int / t.spec_width();
                let q = p + count * t.spec_width();
                if end < q {
                    Err(error_at(ErrorKind::UnexpectedEof, p))
                } else if end - q < tag.padding_byte_size {
                    Err(error_at(ErrorKind::UnexpectedEof, q))
                } else {
                    Ok(
                        (
                            NumericSeq {
                                data_type: t,
                                values: numeric_values_at(s, p, count, t, order),
                            },
                            q + tag.padding_byte_size,
                        ),
                    )
                }
            }
        },
    }
}

/// Reads `count` signed 8-bit numbers from `pos` on.
fn read_i8_values(bytes: &[u8], pos: usize, count: usize) -> (v: Vec<i8>)
    requires
        pos + count <= bytes.len(),
    ensures
        v@.len() == count,
        forall|k: int| 0 <= k < count ==> v@[k] == i8_at(bytes@, pos + k),
{
    let mut v: Vec<i8> = Vec::new();
    let mut k: usize = 0;
    while k < count
        invariant
            k <= count,
            pos + count <= bytes.len(),
            v@.len() == k,
            forall|j: int| 0 <= j < k ==> v@[j] == i8_at(bytes@, pos + j),
        decreases count - k,
    {
        v.push(read_i8(bytes, pos + k));
        k += 1;
    }
    v
}

/// Reads `count` bytes from `pos` on.
fn read_u8_values(bytes: &[u8], pos: usize, count: usize) -> (v: Vec<u8>)
    requires
        pos + count <= bytes.len(),
    ensures
        v@.len() == count,
        forall|k: int| 0 <= k < count ==> v@[k] == bytes@[pos + k],
{
    let mut v: Vec<u8> = Vec::new();
    let mut k: usize = 0;
    while k < count
        invariant
            k <= count,
            pos + count <= bytes.len(),
            v@.len() == k,
            forall|j: int| 0 <= j < k ==> v@[j] == bytes@[pos + j],
        decreases count - k,
    {
        v.push(bytes[pos + k]);
        k += 1;
    }
    v
}

/// Reads `count` signed 16-bit numbers from `pos` on.
fn read_i16_values(bytes: &[u8], order: ByteOrder, pos: usize, count: usize) -> (v: Vec<i16>)
    requires
        pos + 2 * count <= bytes.len(),
    ensures
        v@.len() == count,
        forall|k: int| 0 <= k < count ==> v@[k] == i16_at(bytes@, pos + k * 2, order),
{
    let mut v: Vec<i16> = Vec::new();
    let mut k: usize = 0;
    while k < count
        invariant
            k <= count,
            pos + 2 * count <= bytes.len(),
            v@.len() == k,
            forall|j: int| 0 <= j < k ==> v@[j] == i16_at(bytes@, pos + j * 2, order),
        decreases count - k,
    {
        v.push(read_i16(bytes, pos + k * 2, order));
        k += 1;
    }
    v
}

/// Reads `count` unsigned 16-bit numbers from `pos` on.
fn read_u16_values(bytes: &[u8], order: ByteOrder, pos: usize, count: usize) -> (v: Vec<u16>)
    requires
        pos + 2 * count <= bytes.len(),
    ensures
        v@.len() == count,
        forall|k: int| 0 <= k < count ==> v@[k] == u16_at(bytes@, pos + k * 2, order),
{
    let mut v: Vec<u16> = Vec::new();
    let mut k: usize = 0;
    while k < count
        invariant
            k <= count,
            pos + 2 * count <= bytes.len(),
            v@.len() == k,
            forall|j: int| 0 <= j < k ==> v@[j] == u16_at(bytes@, pos + j * 2, order),
        decreases count - k,
    {
        v.push(read_u16(bytes, pos + k * 2, order));
        k += 1;
    }
    v
}

/// Reads `count` signed 32-bit numbers from `pos` on.
fn read_i32_values(bytes: &[u8], order: ByteOrder, pos: usize, count: usize) -> (v: Vec<i32>)
    requires
        pos + 4 * count <= bytes.len(),
    ensures
        v@.len() == count,
        forall|k: int| 0 <= k < count ==> v@[k] == i32_at(bytes@, pos + k * 4, order),
{
    let mut v: Vec<i32> = Vec::new();
    let mut k: usize = 0;
    while k < count
        invariant
            k <= count,
            pos + 4 * count <= bytes.len(),
            v@.len() == k,
            forall|j: int| 0 <= j < k ==> v@[j] == i32_at(bytes@, pos + j * 4, order),
        decreases count - k,
    {
        v.push(read_i32(bytes, pos + k * 4, order));
        k += 1;
    }
    v
}

/// Reads `count` unsigned 32-bit numbers from `pos` on.
fn read_u32_values(bytes: &[u8], order: ByteOrder, pos: usize, count: usize) -> (v: Vec<u32>)
    requires
        pos + 4 * count <= bytes.len(),
    ensures
        v@.len() == count,
        forall|k: int| 0 <= k < count ==> v@[k] == u32_at(bytes@, pos + k * 4, order),
{
    let mut v: Vec<u32> = Vec::new();
    let mut k: usize = 0;
    while k < count
        invariant
            k <= count,
            pos + 4 * count <= bytes.len(),
            v@.len() == k,
            forall|j: int| 0 <= j < k ==> v@[j] == u32_at(bytes@, pos + j * 4, order),
        decreases count - k,
    {
        v.push(read_u32(bytes, pos + k * 4, order));
        k += 1;
    }
    v
}

/// Reads `count` signed 64-bit numbers from `pos` on.
fn read_i64_values(bytes: &[u8], order: ByteOrder, pos: usize, count: usize) -> (v: Vec<i64>)
    requires
        pos + 8 * count <= bytes.len(),
    ensures
        v@.len() == count,
        forall|k: int| 0 <= k < count ==> v@[k] == i64_at(bytes@, pos + k * 8, order),
{
    let mut v: Vec<i64> = Vec::new();
    let mut k: usize = 0;
    while k < count
        invariant
            k <= count,
            pos + 8 * count <= bytes.len(),
            v@.len() == k,
            forall|j: int| 0 <= j < k ==> v@[j] == i64_at(bytes@, pos + j * 8, order),
        decreases count - k,
    {
        v.push(read_i64(bytes, pos + k * 8, order));
        k += 1;
    }
    v
}

/// Reads `count` unsigned 64-bit numbers from `pos` on.
fn read_u64_values(bytes: &[u8], order: ByteOrder, pos: usize, count: usize) -> (v: Vec<u64>)
    requires
        pos + 8 * count <= bytes.len(),
    ensures
        v@.len() == count,
        forall|k: int| 0 <= k < count ==> v@[k] == u64_at(bytes@, pos + k * 8, order),
{
    let mut v: Vec<u64> = Vec::new();
    let mut k: usize = 0;
    while k < count
        invariant
            k <= count,
            pos + 8 * count <= bytes.len(),
            v@.len() == k,
            forall|j: int| 0 <= j < k ==> v@[j] == u64_at(bytes@, pos + j * 8, order),
        decreases count - k,
    {
        v.push(read_u64(bytes, pos + k * 8, order));
        k += 1;
    }
    v
}

/// Reads `count` values of the numeric type `t` from `pos` on.
fn read_numeric_values(bytes: &[u8], order: ByteOrder, pos: usize, count: usize, t: DataType) -> (r:
    NumericData)
    requires
        t.is_numeric(),
        pos + count * t.spec_width() <= bytes.len(),
    ensures
        r@ == (NumericSeq {
            data_type: t,
            values: numeric_values_at(bytes@, pos as int, count as int, t, order),
        }),
{
    let r = match t {
        DataType::Int8 => NumericData::Int8(read_i8_values(bytes, pos, count)),
        DataType::UInt8 => NumericData::UInt8(read_u8_values(bytes, pos, count)),
        DataType::Int16 => NumericData::Int16(read_i16_values(bytes, order, pos, count)),
        DataType::UInt16 => NumericData::UInt16(read_u16_values(bytes, order, pos, count)),
        DataType::Int32 => NumericData::Int32(read_i32_values(bytes, order, pos, count)),
        DataType::UInt32 => NumericData::UInt32(read_u32_values(bytes, order, pos, count)),
        DataType::Int64 => NumericData::Int64(read_i64_values(bytes, order, pos, count)),
        DataType::UInt64 => NumericData::UInt64(read_u64_values(bytes, order, pos, count)),
        DataType::Single => NumericData::Single(read_u32_values(bytes, order, pos, count)),
        _ => NumericData::Double(read_u64_values(bytes, order, pos, count)),
    };
    assert(r@.values =~= numeric_values_at(bytes@, pos as int, count as int, t, order));
    r
}

/// How many values of the numeric type `t` fit into `size` bytes, and how
/// many bytes they take.
fn whole_values(size: u32, t: DataType) -> (r: (u32, u32))
    requires
        t.is_numeric(),
    ensures
        r.0 == size as int / t.spec_width(),
        r.1 == (size as int / t.spec_width()) * t.spec_width(),
        r.1 <= size,
{
    match t {
        DataType::Int8 | DataType::UInt8 => (size, size),
        DataType::Int16 | DataType::UInt16 => (size / 2, size / 2 * 2),
        DataType::Int32 | DataType::UInt32 | DataType::Single => (size / 4, size / 4 * 4),
        _ => (size / 8, size / 8 * 8),
    }
}

/// Reads the numeric subelement that starts at `pos` in the window that
/// ends at `end`.
///
/// Fails with the tag's error; with `UnexpectedSubelement` where the tag
/// names no numeric type; with `UnexpectedEof` where the window ends before
/// the values or the padding do.
pub fn parse_numeric_subelement(bytes: &[u8], order: ByteOrder, pos: usize, end: usize) -> (r:
    Result<(NumericData, usize), ParseError>)
    requires
        pos <= end <= bytes.len(),
    ensures
        match r {
            Ok((data, next)) => spec_numeric_subelement(bytes@, order, pos as int, end as int)
                == Ok::<(NumericSeq, int), ParseError>((data@, next as int)),
            Err(e) => spec_numeric_subelement(bytes@, order, pos as int, end as int) == Err::<
                (NumericSeq, int),
                ParseError,
            >(e),
        },
        r matches Ok((_, next)) ==> pos < next <= end,
{
    let (tag, p) = match parse_data_element_tag(bytes, order, pos, end) {
        Ok(v) => v,
        Err(e) => {
            return Err(e);
        },
    };
    if tag.data_type.width() == 0 {
        return Err(ParseError { kind: ErrorKind::UnexpectedSubelement, offset: pos });
    }
    let (count, taken) = whole_values(tag.data_byte_size, tag.data_type);
    if end - p < taken as usize {
        return Err(ParseError { kind: ErrorKind::UnexpectedEof, offset: p });
    }
    let q: usize = p + taken as usize;
    if end - q < tag.padding_byte_size as usize {
        return Err(ParseError { kind: ErrorKind::UnexpectedEof, offset: q });
    }
    let data = read_numeric_values(bytes, order, p, count as usize, tag.data_type);
    Ok((data, q + tag.padding_byte_size as usize))
}

/// The flags that the word `w` holds, with the class `class` and the limit
/// `nzmax`: bit 11 says complex, bit 10 global, bit 9 logical.
pub open spec fn flags_of_word(w: int, class: ArrayType, nzmax: int) -> ArrayFlags {
    ArrayFlags {
        complex: (w / 2048) % 2 == 1,
        global: (w / 1024) % 2 == 1,
        logical: (w / 512) % 2 == 1,
        class,
        nzmax: nzmax as usize,
    }
}

/// The array flags subelement that starts at `pos`, and the position after
/// it: a long tag of type `UInt32` and length 8, the flags word, whose low
/// byte is the class, and the limit on the number of nonzero entries.
pub open spec fn spec_array_flags(s: Seq<u8>, order: ByteOrder, pos: int, end: int) -> Result<
    (ArrayFlags, int),
    ParseError,
> {
    if end - pos < 8 {
        Err(error_at(ErrorKind::UnexpectedEof, pos))
    } else if u32_at(s, pos, order) != 6 || u32_at(s, pos + 4, order) != 8 {
        Err(error_at(ErrorKind::UnexpectedSubelement, pos))
    } else if end - pos < 16 {
        Err(error_at(ErrorKind::UnexpectedEof, pos + 8))
    } else {
        let w = u32_at(s, pos + 8, order);
        match ArrayType::of_code(w % 256) {
            None => Err(error_at(ErrorKind::InvalidArrayClass, pos + 8)),
            Some(class) => Ok((flags_of_word(w, class, u32_at(s, pos + 12, order)), pos + 16)),
        }
    }
}

/// Reads the array flags subelement that starts at `pos` in the window
/// that ends at `end`.
///
/// Fails with `UnexpectedEof` where the window is too short, with
/// `UnexpectedSubelement` where the tag is not that of two `UInt32` words,
/// and with `InvalidArrayClass` where the class is none of 1 to 15.
pub fn parse_array_flags_subelement(bytes: &[u8], order: ByteOrder, pos: usize, end: usize) -> (r:
    Result<(ArrayFlags, usize), ParseError>)
    requires
        pos <= end <= bytes.len(),
    ensures
        match r {
            Ok((flags, next)) => spec_array_flags(bytes@, order, pos as int, end as int) == Ok::<
                (ArrayFlags, int),
                ParseError,
            >((flags, next as int)),
            Err(e) => spec_array_flags(bytes@, order, pos as int, end as int) == Err::<
                (ArrayFlags, int),
                ParseError,
            >(e),
        },
        r matches Ok((_, next)) ==> next == pos + 16 && next <= end,
{
    if end - pos < 8 {
        return Err(ParseError { kind: ErrorKind::UnexpectedEof, offset: pos });
    }
    let tag_data_type: u32 = read_u32(bytes, pos, order);
    let tag_data_len: u32 = read_u32(bytes, pos + 4, order);
    if !(tag_data_type == 6 && tag_data_len == 8) {
        return Err(ParseError { kind: ErrorKind::UnexpectedSubelement, offset: pos });
    }
    if end - pos < 16 {
        return Err(ParseError { kind: ErrorKind::UnexpectedEof, offset: pos + 8 });
    }
    let flags_and_class: u32 = read_u32(bytes, pos + 8, order);
    let nzmax: u32 = read_u32(bytes, pos + 12, order);
    match ArrayType::from_u8((flags_and_class % 256) as u8) {
        None => Err(ParseError { kind: ErrorKind::InvalidArrayClass, offset: pos + 8 }),
        Some(class) => Ok(
            (
                ArrayFlags {
                    complex: (flags_and_class / 2048) % 2 == 1,
                    global: (flags_and_class / 1024) % 2 == 1,
                    logical: (flags_and_class / 512) % 2 == 1,
                    class,
                    nzmax: nzmax as usize,
                },
                pos + 16,
            ),
        ),
    }
}

/// The `count` signed 32-bit numbers stored from `pos` on.
pub open spec fn i32_values_at(s: Seq<u8>, pos: int, count: int, order: ByteOrder) -> Seq<i32> {
    Seq::new(count as nat, |k: int| i32_at(s, pos + k * 4, order) as i32)
}

/// The subelement of signed 32-bit numbers that starts at `pos`, and the
/// position after it. Its tag has the type `Int32` and a length that is a
/// multiple of four and at least `min_size`; the tag's padding follows the
/// numbers.
pub open spec fn spec_int32_subelement(
    s: Seq<u8>,
    order: ByteOrder,
    pos: int,
    end: int,
    min_size: int,
) -> Result<(Seq<i32>, int), ParseError> {
    match spec_tag(s, order, pos, end) {
        Err(e) => Err(e),
        Ok((tag, p)) => {
            let size = tag.data_byte_size as int;
            if !(tag.data_type == DataType::Int32 && size >= min_size && size % 4 == 0) {
                Err(error_at(ErrorKind::UnexpectedSubelement, pos))
            } else if end - p < size {
                Err(error_at(ErrorKind::UnexpectedEof, p))
            } else if end - (p + size) < tag.padding_byte_size {
                Err(error_at(ErrorKind::UnexpectedEof, p + size))
            } else {
                Ok((i32_values_at(s, p, size / 4, order), p + size + tag.padding_byte_size))
            }
        },
    }
}

/// The extents of an array: at least two signed 32-bit numbers.
pub open spec fn spec_dimensions(s: Seq<u8>, order: ByteOrder, pos: int, end: int) -> Result<
    (Seq<i32>, int),
    ParseError,
> {
    spec_int32_subelement(s, order, pos, end, 8)
}

/// The indices that the signed numbers `v` stand for.
pub open spec fn as_indices(v: Seq<i32>) -> Seq<usize> {
    Seq::new(v.len(), |k: int| v[k] as usize)
}

/// An index vector of a sparse array: at least one signed 32-bit number,
/// each of them taken as an index.
pub open spec fn spec_index_vector(s: Seq<u8>, order: ByteOrder, pos: int, end: int) -> Result<
    (Seq<usize>, int),
    ParseError,
> {
    match spec_int32_subelement(s, order, pos, end, 1) {
        Err(e) => Err(e),
        Ok((v, next)) => Ok((as_indices(v), next)),
    }
}

/// Reads a subelement of signed 32-bit numbers whose length is at least
/// `min_size`.
fn parse_int32_subelement(bytes: &[u8], order: ByteOrder, pos: usize, end: usize, min_size: u32)
    -> (r: Result<(Vec<i32>, usize), ParseError>)
    requires
        pos <= end <= bytes.len(),
    ensures
        match r {
            Ok((v, next)) => spec_int32_subelement(
                bytes@,
                order,
                pos as int,
                end as int,
                min_size as int,
            ) == Ok::<(Seq<i32>, int), ParseError>((v@, next as int)),
            Err(e) => spec_int32_subelement(bytes@, order, pos as int, end as int, min_size as int)
                == Err::<(Seq<i32>, int), ParseError>(e),
        },
        r matches Ok((v, next)) ==> pos < next <= end && v@.len() * 4 >= min_size,
{
    let (tag, p) = match parse_data_element_tag(bytes, order, pos, end) {
        Ok(v) => v,
        Err(e) => {
            return Err(e);
        },
    };
    let size: u32 = tag.data_byte_size;
    if !(tag.data_type == DataType::Int32 && size >= min_size && size % 4 == 0) {
        return Err(ParseError { kind: ErrorKind::UnexpectedSubelement, offset: pos });
    }
    if end - p < size as usize {
        return Err(ParseError { kind: ErrorKind::UnexpectedEof, offset: p });
    }
    let q: usize = p + size as usize;
    if end - q < tag.padding_byte_size as usize {
        return Err(ParseError { kind: ErrorKind::UnexpectedEof, offset: q });
    }
    let v = read_i32_values(bytes, order, p, (size / 4) as usize);
    assert(v@ =~= i32_values_at(bytes@, p as int, size as int / 4, order));
    Ok((v, q + tag.padding_byte_size as usize))
}

/// Reads the extents of an array from the subelement that starts at `pos`.
///
/// Fails with the tag's error; with `UnexpectedSubelement` unless the tag
/// has the type `Int32` and a length that is a multiple of four and at
/// least eight; with `UnexpectedEof` where the window ends too early.
pub fn parse_dimensions_array_subelement(bytes: &[u8], order: ByteOrder, pos: usize, end: usize)
    -> (r: Result<(Vec<i32>, usize), ParseError>)
    requires
        pos <= end <= bytes.len(),
    ensures
        match r {
            Ok((v, next)) => spec_dimensions(bytes@, order, pos as int, end as int) == Ok::<
                (Seq<i32>, int),
                ParseError,
            >((v@, next as int)),
            Err(e) => spec_dimensions(bytes@, order, pos as int, end as int) == Err::<
                (Seq<i32>, int),
                ParseError,
            >(e),
        },
        r matches Ok((v, next)) ==> pos < next <= end && v@.len() >= 2,
{
    parse_int32_subelement(bytes, order, pos, end, 8)
}

/// Takes each signed number as an index.
fn to_indices(v: &Vec<i32>) -> (r: Vec<usize>)
    ensures
        r@ == as_indices(v@),
{
    let mut r: Vec<usize> = Vec::new();
    let mut k: usize = 0;
    while k < v.len()
        invariant
            k <= v.len(),
            r@.len() == k,
            forall|j: int| 0 <= j < k ==> r@[j] == v@[j] as usize,
        decreases v.len() - k,
    {
        r.push(v[k] as usize);
        k += 1;
    }
    assert(r@ =~= as_indices(v@));
    r
}

/// Reads the row indices of a sparse array from the subelement that starts
/// at `pos`.
///
/// Fails with the tag's error; with `UnexpectedSubelement` unless the tag
/// has the type `Int32` and a length that is a positive multiple of four;
/// with `UnexpectedEof` where the window ends too early.
pub fn parse_row_index_array_subelement(bytes: &[u8], order: ByteOrder, pos: usize, end: usize)
    -> (r: Result<(Vec<usize>, usize), ParseError>)
    requires
        pos <= end <= bytes.len(),
    ensures
        match r {
            Ok((v, next)) => spec_index_vector(bytes@, order, pos as int, end as int) == Ok::<
                (Seq<usize>, int),
                ParseError,
            >((v@, next as int)),
            Err(e) => spec_index_vector(bytes@, order, pos as int, end as int) == Err::<
                (Seq<usize>, int),
                ParseError,
            >(e),
        },
        r matches Ok((v, next)) ==> pos < next <= end,
{
    match parse_int32_subelement(bytes, order, pos, end, 1) {
        Err(e) => Err(e),
        Ok((v, next)) => Ok((to_indices(&v), next)),
    }
}

/// Reads the column shifts of a sparse array from the subelement that
/// starts at `pos`: entry `j` is the place in the row indices at which
/// column `j` begins.
///
/// Fails as the row indices do.
pub fn parse_column_index_array_subelement(bytes: &[u8], order: ByteOrder, pos: usize, end: usize)
    -> (r: Result<(Vec<usize>, usize), ParseError>)
    requires
        pos <= end <= bytes.len(),
    ensures
        match r {
            Ok((v, next)) => spec_index_vector(bytes@, order, pos as int, end as int) == Ok::<
                (Seq<usize>, int),
                ParseError,
            >((v@, next as int)),
            Err(e) => spec_index_vector(bytes@, order, pos as int, end as int) == Err::<
                (Seq<usize>, int),
                ParseError,
            >(e),
        },
        r matches Ok((v, next)) ==> pos < next <= end,
{
    match parse_int32_subelement(bytes, order, pos, end, 1) {
        Err(e) => Err(e),
        Ok((v, next)) => Ok((to_indices(&v), next)),
    }
}

/// The name subelement that starts at `pos`, and the position after it.
/// Its tag has the type `Int8`. With length zero there is no name, and
/// nothing follows the tag; else the name is UTF-8 text of that length,
/// followed by the tag's padding.
pub open spec fn spec_array_name(s: Seq<u8>, order: ByteOrder, pos: int, end: int) -> Result<
    (Option<Seq<char>>, int),
    ParseError,
> {
    match spec_tag(s, order, pos, end) {
        Err(e) => Err(e),
        Ok((tag, p)) => {
            let size = tag.data_byte_size as int;
            if tag.data_type != DataType::Int8 {
                Err(error_at(ErrorKind::UnexpectedSubelement, pos))
            } else if size == 0 {
                Ok((None, p))
            } else if end - p < size {
                Err(error_at(ErrorKind::UnexpectedEof, p))
            } else {
                match spec_utf8_text(s, p, p + size) {
                    None => Err(error_at(ErrorKind::BadEncoding, p)),
                    Some(name) => if end - (p + size) < tag.padding_byte_size {
                        Err(error_at(ErrorKind::UnexpectedEof, p + size))
                    } else {
                        Ok((Some(name), p + size + tag.padding_byte_size))
                    },
                }
            }
        },
    }
}

/// Reads the name subelement that starts at `pos` in the window that ends
/// at `end`.
///
/// Fails with the tag's error; with `UnexpectedSubelement` unless the tag
/// has the type `Int8`; with `BadEncoding` where the name is not UTF-8; with
/// `UnexpectedEof` where the window ends too early.
pub fn parse_array_name_subelement(bytes: &[u8], order: ByteOrder, pos: usize, end: usize) -> (r:
    Result<(Option<String>, usize), ParseError>)
    requires
        pos <= end <= bytes.len(),
    ensures
        match r {
            Ok((name, next)) => spec_array_name(bytes@, order, pos as int, end as int) == Ok::<
                (Option<Seq<char>>, int),
                ParseError,
            >((name_view(name), next as int)),
            Err(e) => spec_array_name(bytes@, order, pos as int, end as int) == Err::<
                (Option<Seq<char>>, int),
                ParseError,
            >(e),
        },
        r matches Ok((_, next)) ==> pos < next <= end,
{
    let (tag, p) = match parse_data_element_tag(bytes, order, pos, end) {
        Ok(v) => v,
        Err(e) => {
            return Err(e);
        },
    };
    if tag.data_type != DataType::Int8 {
        return Err(ParseError { kind: ErrorKind::UnexpectedSubelement, offset: pos });
    }
    if tag.data_byte_size == 0 {
        return Ok((None, p));
    }
    if end - p < tag.data_byte_size as usize {
        return Err(ParseError { kind: ErrorKind::UnexpectedEof, offset: p });
    }
    let q: usize = p + tag.data_byte_size as usize;
    match decode_utf8_text(bytes, p, q) {
        None => Err(ParseError { kind: ErrorKind::BadEncoding, offset: p }),
        Some(name) => {
            if end - q < tag.padding_byte_size as usize {
                return Err(ParseError { kind: ErrorKind::UnexpectedEof, offset: q });
            }
            Ok((Some(name), q + tag.padding_byte_size as usize))
        },
    }
}

/// View of an optional name.
pub open spec fn name_view(name: Option<String>) -> Option<Seq<char>> {
    match name {
        Some(n) => Some(n@),
        None => None,
    }
}

/// View of an optional borrowed name.
pub open spec fn str_view(name: Option<&str>) -> Option<Seq<char>> {
    match name {
        Some(n) => Some(n@),
        None => None,
    }
}

/// The name of an array, from the name that its place supplies and the name
/// in the stream. Where the place supplies a name the stream must hold
/// none, and the supplied name is taken. With neither, the name is empty.
pub open spec fn spec_resolved_name(
    supplied: Option<Seq<char>>,
    in_stream: Option<Seq<char>>,
    pos: int,
) -> Result<Seq<char>, ParseError> {
    match (supplied, in_stream) {
        (Some(_), Some(_)) => Err(error_at(ErrorKind::Mismatch, pos)),
        (Some(v), None) => Ok(v),
        (None, Some(v)) => Ok(v),
        (None, None) => Ok(Seq::empty()),
    }
}

/// Chooses the name of an array between the name that its place supplies
/// and the name found in the stream at `pos`.
///
/// Fails with `Mismatch` where both are present.
pub fn resolve_array_name(supplied_name: Option<&str>, element_name: Option<String>, pos: usize)
    -> (r: Result<String, ParseError>)
    ensures
        match r {
            Ok(name) => spec_resolved_name(
                str_view(supplied_name),
                name_view(element_name),
                pos as int,
            ) == Ok::<Seq<char>, ParseError>(name@),
            Err(e) => spec_resolved_name(
                str_view(supplied_name),
                name_view(element_name),
                pos as int,
            ) == Err::<Seq<char>, ParseError>(e),
        },
{
    match (supplied_name, element_name) {
        (Some(_), Some(_)) => Err(ParseError { kind: ErrorKind::Mismatch, offset: pos }),
        (Some(v), None) => Ok(v.to_owned()),
        (None, Some(v)) => Ok(v),
        (None, None) => Ok(String::new()),
    }
}

/// The name of the array whose name subelement starts at `pos`, and the
/// position after the subelement.
pub open spec fn spec_maybe_array_name(
    s: Seq<u8>,
    order: ByteOrder,
    pos: int,
    end: int,
    supplied: Option<Seq<char>>,
) -> Result<(Seq<char>, int), ParseError> {
    match spec_array_name(s, order, pos, end) {
        Err(e) => Err(e),
        Ok((in_stream, next)) => match spec_resolved_name(supplied, in_stream, pos) {
            Err(e) => Err(e),
            Ok(name) => Ok((name, next)),
        },
    }
}

/// Reads the name subelement that starts at `pos` and chooses between its
/// name and the supplied one.
///
/// Fails as `parse_array_name_subelement` does, and with `Mismatch` where a
/// name is supplied and the stream holds one too.
pub fn maybe_parse_array_name_subelement(
    bytes: &[u8],
    order: ByteOrder,
    pos: usize,
    end: usize,
    supplied_name: Option<&str>,
) -> (r: Result<(String, usize), ParseError>)
    requires
        pos <= end <= bytes.len(),
    ensures
        match r {
            Ok((name, next)) => spec_maybe_array_name(
                bytes@,
                order,
                pos as int,
                end as int,
                str_view(supplied_name),
            ) == Ok::<(Seq<char>, int), ParseError>((name@, next as int)),
            Err(e) => spec_maybe_array_name(
                bytes@,
                order,
                pos as int,
                end as int,
                str_view(supplied_name),
            ) == Err::<(Seq<char>, int), ParseError>(e),
        },
        r matches Ok((_, next)) ==> pos < next <= end,
{
    let (element_name, next) = match parse_array_name_subelement(bytes, order, pos, end) {
        Ok(v) => v,
        Err(e) => {
            return Err(e);
        },
    };
    match resolve_array_name(supplied_name, element_name, pos) {
        Err(e) => Err(e),
        Ok(name) => Ok((name, next)),
    }
}

} // verus!
