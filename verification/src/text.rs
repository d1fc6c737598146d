//! Text in the encodings that the format uses.

use vstd::prelude::*;
use vstd::slice::slice_subrange;
use vstd::string::StrSliceExecFns;
use vstd::utf8::{decode_utf8, encode_utf8, encode_utf8_decode_utf8, is_scalar, valid_utf8};
use crate::data::ByteOrder;
use crate::extent::element_count;
use crate::model::{product, TextSeq};
use crate::parse::{error_at, CharacterData, DataType, ErrorKind, ParseError};
use crate::primitive::{read_u16, read_u32, u16_at, u32_at};
use crate::tag::{parse_data_element_tag, spec_tag};

verus! {

/// Trusted: `String::push` puts one scalar value at the end of the text
/// and leaves the rest as it is.
pub assume_specification[ String::push ](text: &mut String, ch: char)
    ensures
        final(text)@ == old(text)@.push(ch),
;

/// Trusted: `char::from_u32` gives the character of a number exactly
/// where the number is a Unicode scalar value.
pub assume_specification[ char::from_u32 ](i: u32) -> (r: Option<char>)
    ensures
        r == (if is_scalar(i) {
            Some(i as char)
        } else {
            None
        }),
;

/// Decodes UTF-8 text with `std::str::from_utf8`. Trusted: the call
/// succeeds exactly on well-formed UTF-8, and the string it gives holds the
/// scalar values that the bytes encode.
#[verifier::external_body]
fn string_from_utf8(bytes: &[u8]) -> (r: Option<String>)
    ensures
        r.is_some() == valid_utf8(bytes@),
        r matches Some(text) ==> text@ == decode_utf8(bytes@),
{
    match std::str::from_utf8(bytes) {
        Ok(text) => Some(text.to_owned()),
        Err(_) => None,
    }
}

/// The text that the bytes from `start` up to `end` encode in UTF-8, if
/// they are well-formed.
pub open spec fn spec_utf8_text(s: Seq<u8>, start: int, end: int) -> Option<Seq<char>> {
    if valid_utf8(s.subrange(start, end)) {
        Some(decode_utf8(s.subrange(start, end)))
    } else {
        None
    }
}

/// Decodes the bytes from `start` up to `end` as UTF-8.
pub fn decode_utf8_text(bytes: &[u8], start: usize, end: usize) -> (r: Option<String>)
    requires
        start <= end <= bytes.len(),
    ensures
        match r {
            Some(text) => spec_utf8_text(bytes@, start as int, end as int) == Some(text@),
            None => spec_utf8_text(bytes@, start as int, end as int).is_none(),
        },
{
    string_from_utf8(slice_subrange(bytes, start, end))
}

/// The `count` 16-bit code units stored from `pos` on.
pub open spec fn u16_units_at(s: Seq<u8>, pos: int, count: int, order: ByteOrder) -> Seq<u16> {
    Seq::new(count as nat, |k: int| u16_at(s, pos + k * 2, order) as u16)
}

/// The `count` 32-bit code points stored from `pos` on.
pub open spec fn u32_units_at(s: Seq<u8>, pos: int, count: int, order: ByteOrder) -> Seq<u32> {
    Seq::new(count as nat, |k: int| u32_at(s, pos + k * 4, order) as u32)
}

/// Whether `u` is the first unit of a surrogate pair.
pub open spec fn is_high_surrogate(u: u16) -> bool {
    0xD800 <= u <= 0xDBFF
}

/// Whether `u` is the second unit of a surrogate pair.
pub open spec fn is_low_surrogate(u: u16) -> bool {
    0xDC00 <= u <= 0xDFFF
}

/// The code point that a surrogate pair stands for.
pub open spec fn surrogate_pair_value(high: u16, low: u16) -> int {
    0x10000 + (high - 0xD800) * 0x400 + (low - 0xDC00)
}

/// `rest` with `prefix` put before it.
pub open spec fn prefixed(prefix: Seq<char>, rest: Option<Seq<char>>) -> Option<Seq<char>> {
    match rest {
        Some(r) => Some(prefix + r),
        None => None,
    }
}

/// The text that the UTF-16 code units from index `i` on encode, if every
/// surrogate among them is part of a pair.
pub open spec fn decode_utf16_from(units: Seq<u16>, i: int) -> Option<Seq<char>>
    decreases units.len() - i,
{
    if i < 0 || i >= units.len() {
        Some(Seq::empty())
    } else if !is_high_surrogate(units[i]) && !is_low_surrogate(units[i]) {
        prefixed(seq![units[i] as char], decode_utf16_from(units, i + 1))
    } else if is_high_surrogate(units[i]) && i + 1 < units.len() && is_low_surrogate(
        units[i + 1],
    ) {
        prefixed(
            seq![surrogate_pair_value(units[i], units[i + 1]) as char],
            decode_utf16_from(units, i + 2),
        )
    } else {
        None
    }
}

/// The text that UTF-16 code units encode.
pub open spec fn decode_utf16(units: Seq<u16>) -> Option<Seq<char>> {
    decode_utf16_from(units, 0)
}

/// The text that UTF-32 code points encode, if each is a scalar value.
pub open spec fn decode_utf32(units: Seq<u32>) -> Option<Seq<char>> {
    if forall|k: int| 0 <= k < units.len() ==> is_scalar(#[trigger] units[k]) {
        Some(Seq::new(units.len(), |k: int| units[k] as char))
    } else {
        None
    }
}

/// What a character payload of type `t` and `size` bytes at `p` holds,
/// for an array of `cells` cells.
///
/// Raw 16-bit units are kept as they are. UTF-8, UTF-16 and UTF-32 text
/// is decoded. Either way the payload holds one unit or scalar value for
/// each cell, and nothing else.
pub open spec fn spec_text_payload(
    s: Seq<u8>,
    order: ByteOrder,
    t: DataType,
    p: int,
    size: int,
    cells: int,
) -> Result<TextSeq, ErrorKind> {
    match t {
        DataType::UInt16 => if size % 2 != 0 {
            Err(ErrorKind::UnexpectedSubelement)
        } else if size / 2 != cells {
            Err(ErrorKind::Mismatch)
        } else {
            Ok(TextSeq::NonUnicode(u16_units_at(s, p, cells, order)))
        },
        DataType::Utf8 => match spec_utf8_text(s, p, p + size) {
            None => Err(ErrorKind::BadEncoding),
            Some(text) => if text.len() != cells {
                Err(ErrorKind::Mismatch)
            } else {
                Ok(TextSeq::Unicode(text))
            },
        },
        DataType::Utf16 => if size % 2 != 0 {
            Err(ErrorKind::UnexpectedSubelement)
        } else {
            match decode_utf16(u16_units_at(s, p, size / 2, order)) {
                None => Err(ErrorKind::BadEncoding),
                Some(text) => if text.len() != cells {
                    Err(ErrorKind::Mismatch)
                } else {
                    Ok(TextSeq::Unicode(text))
                },
            }
        },
        DataType::Utf32 => if size % 4 != 0 {
            Err(ErrorKind::UnexpectedSubelement)
        } else {
            match decode_utf32(u32_units_at(s, p, size / 4, order)) {
                None => Err(ErrorKind::BadEncoding),
                Some(text) => if text.len() != cells {
                    Err(ErrorKind::Mismatch)
                } else {
                    Ok(TextSeq::Unicode(text))
                },
            }
        },
        _ => Err(ErrorKind::UnexpectedSubelement),
    }
}

/// The character subelement that starts at `pos`, for an array of `cells`
/// cells, and the position after it. No padding follows the payload.
pub open spec fn spec_character_data(s: Seq<u8>, order: ByteOrder, pos: int, end: int, cells: int)
    -> Result<(TextSeq, int), ParseError> {
    match spec_tag(s, order, pos, end) {
        Err(e) => Err(e),
        Ok((tag, p)) => {
            let size = tag.data_byte_size as int;
            if end - p < size {
                Err(error_at(ErrorKind::UnexpectedEof, p))
            } else {
                match spec_text_payload(s, order, tag.data_type, p, size, cells) {
                    Err(kind) => Err(error_at(kind, pos)),
                    Ok(text) => Ok((text, p + size)),
                }
            }
        },
    }
}

/// Reads `count` 16-bit code units from `pos` on.
fn read_u16_units(bytes: &[u8], order: ByteOrder, pos: usize, count: usize) -> (v: Vec<u16>)
    requires
        pos + 2 * count <= bytes.len(),
    ensures
        v@ == u16_units_at(bytes@, pos as int, count as int, order),
{
    let mut v: Vec<u16> = Vec::new();
    let mut k: usize = 0;
    while k < count
        invariant
            k <= count,
            pos + 2 * count <= bytes.len(),
            v@.len() == k,
            forall|j: int| 0 <= j < k ==> v@[j] == u16_at(bytes@, pos + j * 2, order),
        decreases count - k,
    {
        v.push(read_u16(bytes, pos + k * 2, order));
        k += 1;
    }
    assert(v@ =~= u16_units_at(bytes@, pos as int, count as int, order));
    v
}

/// Decodes `count` UTF-16 code units from `pos` on, pairing surrogates.
pub fn decode_utf16_text(bytes: &[u8], order: ByteOrder, pos: usize, count: usize) -> (r: Option<
    String,
>)
    requires
        pos + 2 * count <= bytes.len(),
    ensures
        match r {
            Some(text) => decode_utf16(u16_units_at(bytes@, pos as int, count as int, order))
                == Some(text@),
            None => decode_utf16(u16_units_at(bytes@, pos as int, count as int, order)).is_none(),
        },
{
    let ghost units = u16_units_at(bytes@, pos as int, count as int, order);
    let mut text = String::new();
    let mut i: usize = 0;
    while i < count
        invariant
            i <= count,
            pos + 2 * count <= bytes.len(),
            units == u16_units_at(bytes@, pos as int, count as int, order),
            decode_utf16(units) == prefixed(text@, decode_utf16_from(units, i as int)),
        decreases count - i,
    {
        let ghost before = text@;
        let u: u16 = read_u16(bytes, pos + i * 2, order);
        assert(u == units[i as int]);
        if u < 0xD800 || u > 0xDFFF {
            let ch = match char::from_u32(u as u32) {
                Some(ch) => ch,
                None => {
                    return None;
                },
            };
            text.push(ch);
            proof {
                let rest = decode_utf16_from(units, i + 1);
                if let Some(r) = rest {
                    assert(before + (seq![ch] + r) =~= before.push(ch) + r);
                }
            }
            i += 1;
        } else if u <= 0xDBFF && i + 1 < count {
            let low: u16 = read_u16(bytes, pos + (i + 1) * 2, order);
            assert(low == units[i + 1]);
            if low < 0xDC00 || low > 0xDFFF {
                return None;
            }
            let value: u32 = 0x10000 + (u as u32 - 0xD800) * 0x400 + (low as u32 - 0xDC00);
            let ch = match char::from_u32(value) {
                Some(ch) => ch,
                None => {
                    return None;
                },
            };
            text.push(ch);
            proof {
                let rest = decode_utf16_from(units, i + 2);
                if let Some(r) = rest {
                    assert(before + (seq![ch] + r) =~= before.push(ch) + r);
                }
            }
            i += 2;
        } else {
            return None;
        }
    }
    proof {
        assert(text@ + Seq::<char>::empty() =~= text@);
    }
    Some(text)
}

/// Decodes `count` UTF-32 code points from `pos` on.
pub fn decode_utf32_text(bytes: &[u8], order: ByteOrder, pos: usize, count: usize) -> (r: Option<
    String,
>)
    requires
        pos + 4 * count <= bytes.len(),
    ensures
        match r {
            Some(text) => decode_utf32(u32_units_at(bytes@, pos as int, count as int, order))
                == Some(text@),
            None => decode_utf32(u32_units_at(bytes@, pos as int, count as int, order)).is_none(),
        },
{
    let ghost units = u32_units_at(bytes@, pos as int, count as int, order);
    let mut text = String::new();
    let mut i: usize = 0;
    while i < count
        invariant
            i <= count,
            pos + 4 * count <= bytes.len(),
            units == u32_units_at(bytes@, pos as int, count as int, order),
            text@.len() == i,
            forall|k: int| 0 <= k < i ==> is_scalar(#[trigger] units[k]) && text@[k] == units[k] as char,
        decreases count - i,
    {
        let v: u32 = read_u32(bytes, pos + i * 4, order);
        assert(v == units[i as int]);
        match char::from_u32(v) {
            Some(ch) => {
                text.push(ch);
            },
            None => {
                return None;
            },
        }
        i += 1;
    }
    assert(text@ =~= Seq::new(units.len(), |k: int| units[k] as char));
    Some(text)
}

/// Whether `cells` stands for the number `count`: `None` stands for a
/// number that no payload can have.
pub open spec fn stands_for(cells: Option<usize>, count: int) -> bool {
    match cells {
        Some(c) => count == c,
        None => count < 0 || count > usize::MAX,
    }
}

/// Reads raw 16-bit units that fill an array of `cells` cells.
fn read_raw_units(
    bytes: &[u8],
    order: ByteOrder,
    p: usize,
    size: u32,
    cells: Option<usize>,
    Ghost(count): Ghost<int>,
) -> (r: Result<CharacterData, ErrorKind>)
    requires
        p + size <= bytes.len(),
        stands_for(cells, count),
    ensures
        match r {
            Ok(data) => spec_text_payload(bytes@, order, DataType::UInt16, p as int, size as int, count)
                == Ok::<TextSeq, ErrorKind>(data@),
            Err(kind) => spec_text_payload(
                bytes@,
                order,
                DataType::UInt16,
                p as int,
                size as int,
                count,
            ) == Err::<TextSeq, ErrorKind>(kind),
        },
{
    if size % 2 != 0 {
        return Err(ErrorKind::UnexpectedSubelement);
    }
    if !holds_cells((size / 2) as usize, cells) {
        return Err(ErrorKind::Mismatch);
    }
    Ok(CharacterData::NonUnicode(read_u16_units(bytes, order, p, (size / 2) as usize)))
}

/// Gives the decoded text where it is well-formed and fills an array of
/// `cells` cells.
fn checked_text(text: Option<String>, cells: Option<usize>, Ghost(count): Ghost<int>) -> (r: Result<
    CharacterData,
    ErrorKind,
>)
    requires
        stands_for(cells, count),
    ensures
        match text {
            None => r matches Err(kind) && kind == ErrorKind::BadEncoding,
            Some(t) => if t@.len() != count {
                r matches Err(kind) && kind == ErrorKind::Mismatch
            } else {
                r matches Ok(data) && data@ == TextSeq::Unicode(t@)
            },
        },
{
    match text {
        None => Err(ErrorKind::BadEncoding),
        Some(t) => {
            if !holds_cells(t.as_str().unicode_len(), cells) {
                Err(ErrorKind::Mismatch)
            } else {
                Ok(CharacterData::Unicode(t))
            }
        },
    }
}

/// Reads a character payload of type `t` and `size` bytes at `p`.
fn read_text_payload(
    bytes: &[u8],
    order: ByteOrder,
    t: DataType,
    p: usize,
    size: u32,
    cells: Option<usize>,
    Ghost(count): Ghost<int>,
) -> (r: Result<CharacterData, ErrorKind>)
    requires
        p + size <= bytes.len(),
        stands_for(cells, count),
    ensures
        match r {
            Ok(data) => spec_text_payload(bytes@, order, t, p as int, size as int, count) == Ok::<
                TextSeq,
                ErrorKind,
            >(data@),
            Err(kind) => spec_text_payload(bytes@, order, t, p as int, size as int, count) == Err::<
                TextSeq,
                ErrorKind,
            >(kind),
        },
{
    match t {
        DataType::UInt16 => read_raw_units(bytes, order, p, size, cells, Ghost(count)),
        DataType::Utf8 => checked_text(
            decode_utf8_text(bytes, p, p + size as usize),
            cells,
            Ghost(count),
        ),
        DataType::Utf16 => {
            if size % 2 != 0 {
                return Err(ErrorKind::UnexpectedSubelement);
            }
            checked_text(
                decode_utf16_text(bytes, order, p, (size / 2) as usize),
                cells,
                Ghost(count),
            )
        },
        DataType::Utf32 => {
            if size % 4 != 0 {
                return Err(ErrorKind::UnexpectedSubelement);
            }
            checked_text(
                decode_utf32_text(bytes, order, p, (size / 4) as usize),
                cells,
                Ghost(count),
            )
        },
        _ => Err(ErrorKind::UnexpectedSubelement),
    }
}

/// Reads the character subelement that starts at `pos` in the window that
/// ends at `end`, for an array with the extents `dimensions`.
///
/// Fails with the tag's error; with `UnexpectedEof` where the window ends
/// inside the payload; with `UnexpectedSubelement` where the tag names no
/// character type or the length is no multiple of the unit; with
/// `BadEncoding` where the text is not well-formed; with `Mismatch` where
/// the payload does not hold one unit or scalar value for each cell.
pub fn parse_character_array_data(
    bytes: &[u8],
    order: ByteOrder,
    pos: usize,
    end: usize,
    dimensions: &Vec<i32>,
) -> (r: Result<(CharacterData, usize), ParseError>)
    requires
        pos <= end <= bytes.len(),
    ensures
        match r {
            Ok((data, next)) => spec_character_data(
                bytes@,
                order,
                pos as int,
                end as int,
                product(dimensions@),
            ) == Ok::<(TextSeq, int), ParseError>((data@, next as int)),
            Err(e) => spec_character_data(
                bytes@,
                order,
                pos as int,
                end as int,
                product(dimensions@),
            ) == Err::<(TextSeq, int), ParseError>(e),
        },
        r matches Ok((_, next)) ==> pos < next <= end,
{
    let (tag, p) = match parse_data_element_tag(bytes, order, pos, end) {
        Ok(v) => v,
        Err(e) => {
            return Err(e);
        },
    };
    let size: u32 = tag.data_byte_size;
    if end - p < size as usize {
        return Err(ParseError { kind: ErrorKind::UnexpectedEof, offset: p });
    }
    let cells = element_count(dimensions);
    match read_text_payload(
        bytes,
        order,
        tag.data_type,
        p,
        size,
        cells,
        Ghost(product(dimensions@)),
    ) {
        Err(kind) => Err(ParseError { kind, offset: pos }),
        Ok(data) => Ok((data, p + size as usize)),
    }
}

/// Whether a payload of `len` items fills an array of `cells` cells.
fn holds_cells(len: usize, cells: Option<usize>) -> (r: bool)
    ensures
        r == (cells matches Some(c) && c == len),
{
    match cells {
        Some(c) => c == len,
        None => false,
    }
}

/// Whether two texts hold the same characters.
pub fn same_text(a: &str, b: &str) -> (r: bool)
    ensures
        r == (a@ == b@),
{
    let x = a.as_bytes();
    let y = b.as_bytes();
    proof {
        encode_utf8_decode_utf8(a@);
        encode_utf8_decode_utf8(b@);
    }
    if x.len() != y.len() {
        return false;
    }
    let mut i: usize = 0;
    while i < x.len()
        invariant
            i <= x.len(),
            x.len() == y.len(),
            x@ == encode_utf8(a@),
            y@ == encode_utf8(b@),
            forall|k: int| 0 <= k < i ==> x@[k] == y@[k],
        decreases x.len() - i,
    {
        if x[i] != y[i] {
            return false;
        }
        i += 1;
    }
    assert(x@ =~= y@);
    true
}

} // verus!
