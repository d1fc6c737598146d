//! Data element tags.
//!
//! A tag gives the type of the data that follows, its length in bytes and
//! the number of padding bytes after it. The long form takes two 32-bit
//! words, type and length. The short form packs both into one word, the
//! length in its upper half, and holds at most four bytes of data.

use vstd::prelude::*;
use crate::data::ByteOrder;
use crate::parse::{error_at, DataType, ErrorKind, ParseError};
use crate::primitive::{ceil_multiple, ceil_to_multiple, read_u32, u32_at};

verus! {

/// The tag of a data element: the type of its data, the length of the data
/// in bytes, and the number of padding bytes after the data.
#[derive(Clone, Copy, Debug, PartialEq, Eq, Structural)]
pub struct DataElementTag {
    pub data_type: DataType,
    pub data_byte_size: u32,
    pub padding_byte_size: u32,
}

/// Whether the tag word `w` starts a long tag: its upper half is zero.
pub open spec fn is_long_form(w: int) -> bool {
    w < 65536
}

/// The tag that starts at `pos` in the window that ends at `end`, and the
/// position after it.
pub open spec fn spec_tag(s: Seq<u8>, order: ByteOrder, pos: int, end: int) -> Result<
    (DataElementTag, int),
    ParseError,
> {
    if end - pos < 4 {
        Err(error_at(ErrorKind::UnexpectedEof, pos))
    } else {
        let w = u32_at(s, pos, order);
        if is_long_form(w) {
            if end - pos < 8 {
                Err(error_at(ErrorKind::UnexpectedEof, pos))
            } else {
                let size = u32_at(s, pos + 4, order);
                match DataType::of_code(w) {
                    None => Err(error_at(ErrorKind::InvalidTag, pos)),
                    Some(data_type) => Ok(
                        (
                            DataElementTag {
                                data_type,
                                data_byte_size: size as u32,
                                padding_byte_size: (ceil_multiple(size, 8) - size) as u32,
                            },
                            pos + 8,
                        ),
                    ),
                }
            }
        } else {
            let size = w / 65536;
            if size > 4 {
                Err(error_at(ErrorKind::InvalidTag, pos))
            } else {
                match DataType::of_code(w % 65536) {
                    None => Err(error_at(ErrorKind::InvalidTag, pos)),
                    Some(data_type) => Ok(
                        (
                            DataElementTag {
                                data_type,
                                data_byte_size: size as u32,
                                padding_byte_size: (4 - size) as u32,
                            },
                            pos + 4,
                        ),
                    ),
                }
            }
        }
    }
}

/// Reads the tag that starts at `pos` in the window that ends at `end`.
///
/// Fails with `UnexpectedEof` where the window ends inside the tag, and with
/// `InvalidTag` where the short form gives a length above four or the type
/// code is unknown.
pub fn parse_data_element_tag(bytes: &[u8], order: ByteOrder, pos: usize, end: usize) -> (r: Result<
    (DataElementTag, usize),
    ParseError,
>)
    requires
        pos <= end <= bytes.len(),
    ensures
        match r {
            Ok((tag, next)) => spec_tag(bytes@, order, pos as int, end as int) == Ok::<
                (DataElementTag, int),
                ParseError,
            >((tag, next as int)),
            Err(e) => spec_tag(bytes@, order, pos as int, end as int) == Err::<
                (DataElementTag, int),
                ParseError,
            >(e),
        },
        r matches Ok((tag, next)) ==> pos + 4 <= next <= end && next <= pos + 8
            && tag.padding_byte_size < 8,
{
    if end - pos < 4 {
        return Err(ParseError { kind: ErrorKind::UnexpectedEof, offset: pos });
    }
    let starting_bytes: u32 = read_u32(bytes, pos, order);
    if starting_bytes < 65536 {
        if end - pos < 8 {
            return Err(ParseError { kind: ErrorKind::UnexpectedEof, offset: pos });
        }
        let byte_size: u32 = read_u32(bytes, pos + 4, order);
        let padding: u64 = ceil_to_multiple(byte_size, 8) - byte_size as u64;
        match DataType::from_u32(starting_bytes) {
            None => Err(ParseError { kind: ErrorKind::InvalidTag, offset: pos }),
            Some(data_type) => Ok(
                (
                    DataElementTag {
                        data_type,
                        data_byte_size: byte_size,
                        padding_byte_size: padding as u32,
                    },
                    pos + 8,
                ),
            ),
        }
    } else {
        let byte_size: u32 = starting_bytes / 65536;
        if byte_size > 4 {
            return Err(ParseError { kind: ErrorKind::InvalidTag, offset: pos });
        }
        match DataType::from_u32(starting_bytes % 65536) {
            None => Err(ParseError { kind: ErrorKind::InvalidTag, offset: pos }),
            Some(data_type) => Ok(
                (
                    DataElementTag {
                        data_type,
                        data_byte_size: byte_size,
                        padding_byte_size: 4 - byte_size,
                    },
                    pos + 4,
                ),
            ),
        }
    }
}

/// A short tag that gives a length above four is rejected, whatever else
/// it holds.
pub proof fn lemma_short_tag_over_four_rejected(s: Seq<u8>, order: ByteOrder, pos: int, end: int)
    requires
        end - pos >= 4,
        !is_long_form(u32_at(s, pos, order)),
        u32_at(s, pos, order) / 65536 > 4,
    ensures
        spec_tag(s, order, pos, end) == Err::<(DataElementTag, int), ParseError>(
            error_at(ErrorKind::InvalidTag, pos),
        ),
{
}

} // verus!
