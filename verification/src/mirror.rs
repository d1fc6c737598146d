//! Files that differ in byte order only.
//!
//! A file written low byte first and a file written high byte first hold
//! the same arrays where the second has every number of two, four or eight
//! bytes byte-reversed and every other byte that is read as it is. This
//! module says what that means for each part of a file, and proves that
//! both files then read the same.

use vstd::prelude::*;
use crate::array::{
    spec_array_header,
    spec_character_array,
    spec_dense_part,
    spec_numeric_matrix,
    spec_sparse_matrix,
    spec_sparse_part,
};
use crate::data::ByteOrder;
use crate::element::{
    inflated_len,
    spec_element_body,
    spec_frame,
    spec_inflated_element,
    spec_matrix,
    spec_next_element,
    spec_struct,
    spec_struct_fields,
    MAX_COMPRESSION_DEPTH,
};
use crate::inflate::zlib_inflated;
use crate::model::{product, ArrayHeaderModel, ElementModel, HeaderModel};
use crate::parse::{
    byte_order_of,
    lemma_elements_step,
    spec_elements,
    spec_parse_all,
    ArrayType,
    DataType,
    ParseError,
};
use crate::primitive::{i16_at, i32_at, i64_at, u16_at, u32_at, u64_at};
use crate::subelement::{
    i32_values_at,
    numeric_values_at,
    spec_array_flags,
    spec_array_name,
    spec_dimensions,
    spec_index_vector,
    spec_int32_subelement,
    spec_maybe_array_name,
    spec_numeric_subelement,
};
use crate::structure::{
    nul_index,
    spec_field_name_at,
    spec_field_name_length,
    spec_field_names,
    spec_struct_names,
};
use crate::tag::{is_long_form, spec_tag, DataElementTag};
use crate::text::{spec_character_data, spec_text_payload, u16_units_at, u32_units_at};

verus! {

/// Whether the `n` bytes of `b` from `pos` on are those of `a` in reverse.
pub open spec fn reversed_at(a: Seq<u8>, b: Seq<u8>, pos: int, n: int) -> bool {
    &&& 0 <= pos
    &&& pos + n <= a.len()
    &&& pos + n <= b.len()
    &&& b.subrange(pos, pos + n) == a.subrange(pos, pos + n).reverse()
}

/// Whether `a` and `b` hold the same bytes from `start` up to `end`.
pub open spec fn same_at(a: Seq<u8>, b: Seq<u8>, start: int, end: int) -> bool {
    &&& 0 <= start <= end
    &&& end <= a.len()
    &&& end <= b.len()
    &&& b.subrange(start, end) == a.subrange(start, end)
}

/// Whether each of the `count` numbers of `width` bytes that `a` holds
/// from `pos` on is byte-reversed in `b`.
pub open spec fn numbers_reversed(a: Seq<u8>, b: Seq<u8>, pos: int, count: int, width: int) -> bool {
    forall|k: int| 0 <= k < count ==> reversed_at(a, b, #[trigger] (pos + k * width), width)
}

/// Byte `k` of a reversed piece is byte `n - 1 - k` of the piece.
proof fn lemma_reversed_bytes(a: Seq<u8>, b: Seq<u8>, pos: int, n: int)
    requires
        reversed_at(a, b, pos, n),
    ensures
        forall|k: int| 0 <= k < n ==> #[trigger] b[pos + k] == a[pos + n - 1 - k],
{
    assert forall|k: int| 0 <= k < n implies #[trigger] b[pos + k] == a[pos + n - 1 - k] by {
        assert(b[pos + k] == b.subrange(pos, pos + n)[k]);
        assert(a.subrange(pos, pos + n).reverse()[k] == a.subrange(pos, pos + n)[n - 1 - k]);
    }
}

/// A 16-bit number reads the same from two bytes in one order as from the
/// same bytes reversed in the other order.
pub proof fn lemma_u16_byte_swapped(a: Seq<u8>, b: Seq<u8>, pos: int, order: ByteOrder)
    requires
        reversed_at(a, b, pos, 2),
    ensures
        u16_at(b, pos, order.swapped()) == u16_at(a, pos, order),
        i16_at(b, pos, order.swapped()) == i16_at(a, pos, order),
{
    lemma_reversed_bytes(a, b, pos, 2);
    assert(b[pos + 0] == a[pos + 1] && b[pos + 1] == a[pos]);
}

/// A 32-bit number reads the same from four bytes in one order as from
/// the same bytes reversed in the other order.
pub proof fn lemma_u32_byte_swapped(a: Seq<u8>, b: Seq<u8>, pos: int, order: ByteOrder)
    requires
        reversed_at(a, b, pos, 4),
    ensures
        u32_at(b, pos, order.swapped()) == u32_at(a, pos, order),
        i32_at(b, pos, order.swapped()) == i32_at(a, pos, order),
{
    lemma_reversed_bytes(a, b, pos, 4);
    assert(b[pos + 0] == a[pos + 3] && b[pos + 1] == a[pos + 2] && b[pos + 2] == a[pos + 1]
        && b[pos + 3] == a[pos]);
}

/// A 64-bit number reads the same from eight bytes in one order as from
/// the same bytes reversed in the other order.
pub proof fn lemma_u64_byte_swapped(a: Seq<u8>, b: Seq<u8>, pos: int, order: ByteOrder)
    requires
        reversed_at(a, b, pos, 8),
    ensures
        u64_at(b, pos, order.swapped()) == u64_at(a, pos, order),
        i64_at(b, pos, order.swapped()) == i64_at(a, pos, order),
{
    lemma_reversed_bytes(a, b, pos, 8);
    assert(b[pos + 0] == a[pos + 7] && b[pos + 1] == a[pos + 6] && b[pos + 2] == a[pos + 5]
        && b[pos + 3] == a[pos + 4]);
    assert(b[pos + 4] == a[pos + 3] && b[pos + 5] == a[pos + 2] && b[pos + 6] == a[pos + 1]
        && b[pos + 7] == a[pos]);
}

/// Whether the tag that `a` holds at `pos` is byte-reversed in `b`: its
/// first word, and for a long tag its second.
pub open spec fn swapped_tag(a: Seq<u8>, b: Seq<u8>, order: ByteOrder, pos: int, end: int) -> bool {
    &&& end - pos >= 4 ==> reversed_at(a, b, pos, 4)
    &&& end - pos >= 8 && is_long_form(u32_at(a, pos, order)) ==> reversed_at(a, b, pos + 4, 4)
}

/// A tag reads the same from a file in one byte order as from a copy in
/// the other order in which the tag is byte-reversed.
pub proof fn lemma_tag_byte_swapped(a: Seq<u8>, b: Seq<u8>, order: ByteOrder, pos: int, end: int)
    requires
        swapped_tag(a, b, order, pos, end),
    ensures
        spec_tag(b, order.swapped(), pos, end) == spec_tag(a, order, pos, end),
{
    if end - pos >= 4 {
        lemma_u32_byte_swapped(a, b, pos, order);
        if end - pos >= 8 && is_long_form(u32_at(a, pos, order)) {
            lemma_u32_byte_swapped(a, b, pos + 4, order);
        }
    }
}

/// A numeric payload reads the same from a file in one byte order as from
/// a copy in the other order in which each of its numbers is
/// byte-reversed.
pub proof fn lemma_numeric_values_byte_swapped(
    a: Seq<u8>,
    b: Seq<u8>,
    order: ByteOrder,
    pos: int,
    count: int,
    t: DataType,
)
    requires
        t.is_numeric(),
        0 <= count,
        numbers_reversed(a, b, pos, count, t.spec_width()),
    ensures
        numeric_values_at(b, pos, count, t, order.swapped()) == numeric_values_at(
            a,
            pos,
            count,
            t,
            order,
        ),
{
    let w = t.spec_width();
    let va = numeric_values_at(a, pos, count, t, order);
    let vb = numeric_values_at(b, pos, count, t, order.swapped());
    assert forall|k: int| 0 <= k < count implies #[trigger] vb[k] == va[k] by {
        let at = pos + k * w;
        assert(reversed_at(a, b, at, w));
        if w == 1 {
            lemma_reversed_bytes(a, b, at, 1);
            assert(b[at + 0] == a[at]);
        } else if w == 2 {
            lemma_u16_byte_swapped(a, b, at, order);
        } else if w == 4 {
            lemma_u32_byte_swapped(a, b, at, order);
        } else {
            lemma_u64_byte_swapped(a, b, at, order);
        }
    }
    assert(vb =~= va);
}

/// Whether the numeric subelement that `a` holds at `pos` is swapped in
/// `b`: its tag, and each of its values.
pub open spec fn swapped_numeric(a: Seq<u8>, b: Seq<u8>, order: ByteOrder, pos: int, end: int)
    -> bool {
    &&& swapped_tag(a, b, order, pos, end)
    &&& match spec_tag(a, order, pos, end) {
        Ok((tag, p)) => {
            let w = tag.data_type.spec_width();
            let count = tag.data_byte_size as int / w;
            tag.data_type.is_numeric() && p + count * w <= end ==> numbers_reversed(
                a,
                b,
                p,
                count,
                w,
            )
        },
        Err(_) => true,
    }
}

/// A numeric subelement reads the same from a file in one byte order as
/// from a copy in the other order in which it is swapped.
pub proof fn lemma_numeric_subelement_swapped(
    a: Seq<u8>,
    b: Seq<u8>,
    order: ByteOrder,
    pos: int,
    end: int,
)
    requires
        swapped_numeric(a, b, order, pos, end),
    ensures
        spec_numeric_subelement(b, order.swapped(), pos, end) == spec_numeric_subelement(
            a,
            order,
            pos,
            end,
        ),
{
    lemma_tag_byte_swapped(a, b, order, pos, end);
    if let Ok((tag, p)) = spec_tag(a, order, pos, end) {
        let w = tag.data_type.spec_width();
        let count = tag.data_byte_size as int / w;
        if tag.data_type.is_numeric() && p + count * w <= end {
            lemma_numeric_values_byte_swapped(a, b, order, p, count, tag.data_type);
        }
    }
}

/// Whether the array flags that `a` holds at `pos` are swapped in `b`:
/// each of the four words, as far as the window holds it.
pub open spec fn swapped_flags(a: Seq<u8>, b: Seq<u8>, pos: int, end: int) -> bool {
    &&& end - pos >= 8 ==> reversed_at(a, b, pos, 4) && reversed_at(a, b, pos + 4, 4)
    &&& end - pos >= 16 ==> reversed_at(a, b, pos + 8, 4) && reversed_at(a, b, pos + 12, 4)
}

/// The array flags read the same from a file in one byte order as from a
/// copy in the other order in which they are swapped.
pub proof fn lemma_array_flags_swapped(a: Seq<u8>, b: Seq<u8>, order: ByteOrder, pos: int, end: int)
    requires
        swapped_flags(a, b, pos, end),
    ensures
        spec_array_flags(b, order.swapped(), pos, end) == spec_array_flags(a, order, pos, end),
{
    if end - pos >= 8 {
        lemma_u32_byte_swapped(a, b, pos, order);
        lemma_u32_byte_swapped(a, b, pos + 4, order);
    }
    if end - pos >= 16 {
        lemma_u32_byte_swapped(a, b, pos + 8, order);
        lemma_u32_byte_swapped(a, b, pos + 12, order);
    }
}

/// Whether the subelement of signed 32-bit numbers that `a` holds at `pos`
/// is swapped in `b`: its tag, and each of its numbers.
pub open spec fn swapped_int32(a: Seq<u8>, b: Seq<u8>, order: ByteOrder, pos: int, end: int)
    -> bool {
    &&& swapped_tag(a, b, order, pos, end)
    &&& match spec_tag(a, order, pos, end) {
        Ok((tag, p)) => tag.data_type == DataType::Int32 && tag.data_byte_size % 4 == 0 && p
            + tag.data_byte_size <= end ==> numbers_reversed(
            a,
            b,
            p,
            tag.data_byte_size as int / 4,
            4,
        ),
        Err(_) => true,
    }
}

/// A subelement of signed 32-bit numbers reads the same from a file in
/// one byte order as from a copy in the other order in which it is
/// swapped.
pub proof fn lemma_int32_subelement_swapped(
    a: Seq<u8>,
    b: Seq<u8>,
    order: ByteOrder,
    pos: int,
    end: int,
    min_size: int,
)
    requires
        swapped_int32(a, b, order, pos, end),
    ensures
        spec_int32_subelement(b, order.swapped(), pos, end, min_size) == spec_int32_subelement(
            a,
            order,
            pos,
            end,
            min_size,
        ),
        spec_dimensions(b, order.swapped(), pos, end) == spec_dimensions(a, order, pos, end),
        spec_index_vector(b, order.swapped(), pos, end) == spec_index_vector(a, order, pos, end),
{
    lemma_tag_byte_swapped(a, b, order, pos, end);
    if let Ok((tag, p)) = spec_tag(a, order, pos, end) {
        let size = tag.data_byte_size as int;
        if tag.data_type == DataType::Int32 && size % 4 == 0 && p + size <= end {
            let va = i32_values_at(a, p, size / 4, order);
            let vb = i32_values_at(b, p, size / 4, order.swapped());
            assert forall|k: int| 0 <= k < size / 4 implies #[trigger] vb[k] == va[k] by {
                assert(reversed_at(a, b, p + k * 4, 4));
                lemma_u32_byte_swapped(a, b, p + k * 4, order);
            }
            assert(vb =~= va);
        }
    }
}

/// Whether the text subelement that `a` holds at `pos` with a tag of type
/// `Int8` is swapped in `b`: its tag is swapped, and its bytes are the
/// same.
pub open spec fn swapped_bytes(a: Seq<u8>, b: Seq<u8>, order: ByteOrder, pos: int, end: int)
    -> bool {
    &&& swapped_tag(a, b, order, pos, end)
    &&& match spec_tag(a, order, pos, end) {
        Ok((tag, p)) => tag.data_type == DataType::Int8 && tag.data_byte_size > 0 && p
            + tag.data_byte_size <= end ==> same_at(a, b, p, p + tag.data_byte_size),
        Err(_) => true,
    }
}

/// The name of an array reads the same from a file in one byte order as
/// from a copy in the other order in which its subelement is swapped.
#[verifier::rlimit(40)]
pub proof fn lemma_array_name_swapped(
    a: Seq<u8>,
    b: Seq<u8>,
    order: ByteOrder,
    pos: int,
    end: int,
    supplied: Option<Seq<char>>,
)
    requires
        swapped_bytes(a, b, order, pos, end),
    ensures
        spec_array_name(b, order.swapped(), pos, end) == spec_array_name(a, order, pos, end),
        spec_maybe_array_name(b, order.swapped(), pos, end, supplied) == spec_maybe_array_name(
            a,
            order,
            pos,
            end,
            supplied,
        ),
{
    lemma_tag_byte_swapped(a, b, order, pos, end);
    if let Ok((tag, p)) = spec_tag(a, order, pos, end) {
        let size = tag.data_byte_size as int;
        if tag.data_type == DataType::Int8 && size > 0 && p + size <= end {
            assert(b.subrange(p, p + size) == a.subrange(p, p + size));
        }
    }
}

/// Whether the array header that `a` holds at `pos` is swapped in `b`:
/// the flags, the extents and the name, each as far as it is read.
pub open spec fn swapped_header(a: Seq<u8>, b: Seq<u8>, order: ByteOrder, pos: int, end: int)
    -> bool {
    &&& swapped_flags(a, b, pos, end)
    &&& spec_array_flags(a, order, pos, end) matches Ok((_, pos1)) ==> {
        &&& swapped_int32(a, b, order, pos1, end)
        &&& spec_dimensions(a, order, pos1, end) matches Ok((_, pos2)) ==> swapped_bytes(
            a,
            b,
            order,
            pos2,
            end,
        )
    }
}

/// An array header reads the same from a file in one byte order as from a
/// copy in the other order in which it is swapped.
pub proof fn lemma_array_header_swapped(
    a: Seq<u8>,
    b: Seq<u8>,
    order: ByteOrder,
    pos: int,
    end: int,
    supplied: Option<Seq<char>>,
)
    requires
        swapped_header(a, b, order, pos, end),
    ensures
        spec_array_header(b, order.swapped(), pos, end, supplied) == spec_array_header(
            a,
            order,
            pos,
            end,
            supplied,
        ),
{
    lemma_array_flags_swapped(a, b, order, pos, end);
    if let Ok((_, pos1)) = spec_array_flags(a, order, pos, end) {
        lemma_int32_subelement_swapped(a, b, order, pos1, end, 8);
        if let Ok((_, pos2)) = spec_dimensions(a, order, pos1, end) {
            lemma_array_name_swapped(a, b, order, pos2, end, supplied);
        }
    }
}

/// Code units of 16 bits read the same from a file in one byte order as
/// from a copy in the other order in which each is byte-reversed.
pub proof fn lemma_u16_units_byte_swapped(
    a: Seq<u8>,
    b: Seq<u8>,
    order: ByteOrder,
    pos: int,
    count: int,
)
    requires
        0 <= count,
        numbers_reversed(a, b, pos, count, 2),
    ensures
        u16_units_at(b, pos, count, order.swapped()) == u16_units_at(a, pos, count, order),
{
    let va = u16_units_at(a, pos, count, order);
    let vb = u16_units_at(b, pos, count, order.swapped());
    assert forall|k: int| 0 <= k < count implies #[trigger] vb[k] == va[k] by {
        assert(reversed_at(a, b, pos + k * 2, 2));
        lemma_u16_byte_swapped(a, b, pos + k * 2, order);
    }
    assert(vb =~= va);
}

/// Code points of 32 bits read the same from a file in one byte order as
/// from a copy in the other order in which each is byte-reversed.
pub proof fn lemma_u32_units_byte_swapped(
    a: Seq<u8>,
    b: Seq<u8>,
    order: ByteOrder,
    pos: int,
    count: int,
)
    requires
        0 <= count,
        numbers_reversed(a, b, pos, count, 4),
    ensures
        u32_units_at(b, pos, count, order.swapped()) == u32_units_at(a, pos, count, order),
{
    let va = u32_units_at(a, pos, count, order);
    let vb = u32_units_at(b, pos, count, order.swapped());
    assert forall|k: int| 0 <= k < count implies #[trigger] vb[k] == va[k] by {
        assert(reversed_at(a, b, pos + k * 4, 4));
        lemma_u32_byte_swapped(a, b, pos + k * 4, order);
    }
    assert(vb =~= va);
}

/// Whether the character payload of type `t` and `size` bytes that `a`
/// holds at `p` is swapped in `b`: units of two or four bytes are
/// byte-reversed, and UTF-8 text is the same.
pub open spec fn swapped_text_payload(a: Seq<u8>, b: Seq<u8>, t: DataType, p: int, size: int)
    -> bool {
    match t {
        DataType::UInt16 | DataType::Utf16 => size % 2 == 0 ==> numbers_reversed(
            a,
            b,
            p,
            size / 2,
            2,
        ),
        DataType::Utf32 => size % 4 == 0 ==> numbers_reversed(a, b, p, size / 4, 4),
        DataType::Utf8 => same_at(a, b, p, p + size),
        _ => true,
    }
}

/// A character payload reads the same from a file in one byte order as
/// from a copy in the other order in which it is swapped.
pub proof fn lemma_text_payload_swapped(
    a: Seq<u8>,
    b: Seq<u8>,
    order: ByteOrder,
    t: DataType,
    p: int,
    size: int,
    cells: int,
)
    requires
        0 <= size,
        swapped_text_payload(a, b, t, p, size),
    ensures
        spec_text_payload(b, order.swapped(), t, p, size, cells) == spec_text_payload(
            a,
            order,
            t,
            p,
            size,
            cells,
        ),
{
    match t {
        DataType::UInt16 | DataType::Utf16 => {
            if size % 2 == 0 {
                lemma_u16_units_byte_swapped(a, b, order, p, size / 2);
            }
        },
        DataType::Utf32 => {
            if size % 4 == 0 {
                lemma_u32_units_byte_swapped(a, b, order, p, size / 4);
            }
        },
        _ => {},
    }
}

/// Whether the character subelement that `a` holds at `pos` is swapped in
/// `b`: its tag, and its payload.
pub open spec fn swapped_text(a: Seq<u8>, b: Seq<u8>, order: ByteOrder, pos: int, end: int) -> bool {
    &&& swapped_tag(a, b, order, pos, end)
    &&& match spec_tag(a, order, pos, end) {
        Ok((tag, p)) => p + tag.data_byte_size <= end ==> swapped_text_payload(
            a,
            b,
            tag.data_type,
            p,
            tag.data_byte_size as int,
        ),
        Err(_) => true,
    }
}

/// A character subelement reads the same from a file in one byte order as
/// from a copy in the other order in which it is swapped.
pub proof fn lemma_character_data_swapped(
    a: Seq<u8>,
    b: Seq<u8>,
    order: ByteOrder,
    pos: int,
    end: int,
    cells: int,
)
    requires
        swapped_text(a, b, order, pos, end),
    ensures
        spec_character_data(b, order.swapped(), pos, end, cells) == spec_character_data(
            a,
            order,
            pos,
            end,
            cells,
        ),
{
    lemma_tag_byte_swapped(a, b, order, pos, end);
    if let Ok((tag, p)) = spec_tag(a, order, pos, end) {
        if p + tag.data_byte_size <= end {
            lemma_text_payload_swapped(
                a,
                b,
                order,
                tag.data_type,
                p,
                tag.data_byte_size as int,
                cells,
            );
        }
    }
}

/// One part of a dense numeric array reads the same from a file in one
/// byte order as from a copy in the other order in which it is swapped.
pub proof fn lemma_dense_part_swapped(
    a: Seq<u8>,
    b: Seq<u8>,
    order: ByteOrder,
    pos: int,
    end: int,
    count: int,
    array_type: DataType,
)
    requires
        swapped_numeric(a, b, order, pos, end),
    ensures
        spec_dense_part(b, order.swapped(), pos, end, count, array_type) == spec_dense_part(
            a,
            order,
            pos,
            end,
            count,
            array_type,
        ),
{
    lemma_numeric_subelement_swapped(a, b, order, pos, end);
}

/// One part of a sparse array reads the same from a file in one byte
/// order as from a copy in the other order in which it is swapped.
pub proof fn lemma_sparse_part_swapped(
    a: Seq<u8>,
    b: Seq<u8>,
    order: ByteOrder,
    pos: int,
    end: int,
    nzmax: int,
)
    requires
        swapped_numeric(a, b, order, pos, end),
    ensures
        spec_sparse_part(b, order.swapped(), pos, end, nzmax) == spec_sparse_part(
            a,
            order,
            pos,
            end,
            nzmax,
        ),
{
    lemma_numeric_subelement_swapped(a, b, order, pos, end);
}

/// Whether the payload of the dense numeric array with the header
/// `header` that `a` holds at `pos` is swapped in `b`: the real part, and
/// the imaginary part where it is read.
pub open spec fn swapped_numeric_matrix(
    a: Seq<u8>,
    b: Seq<u8>,
    order: ByteOrder,
    pos: int,
    end: int,
    header: ArrayHeaderModel,
) -> bool {
    match header.flags.class.spec_numeric_data_type() {
        None => true,
        Some(t) => {
            &&& swapped_numeric(a, b, order, pos, end)
            &&& header.flags.complex ==> (spec_dense_part(
                a,
                order,
                pos,
                end,
                product(header.dimensions),
                t,
            ) matches Ok((_, pos1)) ==> swapped_numeric(a, b, order, pos1, end))
        },
    }
}

/// A dense numeric array reads the same from a file in one byte order as
/// from a copy in the other order in which its payload is swapped.
pub proof fn lemma_numeric_matrix_swapped(
    a: Seq<u8>,
    b: Seq<u8>,
    order: ByteOrder,
    pos: int,
    end: int,
    header: ArrayHeaderModel,
)
    requires
        swapped_numeric_matrix(a, b, order, pos, end, header),
    ensures
        spec_numeric_matrix(b, order.swapped(), pos, end, header) == spec_numeric_matrix(
            a,
            order,
            pos,
            end,
            header,
        ),
{
    if let Some(t) = header.flags.class.spec_numeric_data_type() {
        lemma_dense_part_swapped(a, b, order, pos, end, product(header.dimensions), t);
        if let Ok((_, pos1)) = spec_dense_part(a, order, pos, end, product(header.dimensions), t) {
            if header.flags.complex {
                lemma_dense_part_swapped(a, b, order, pos1, end, product(header.dimensions), t);
            }
        }
    }
}

/// Whether the payload of the sparse array with the header `header` that
/// `a` holds at `pos` is swapped in `b`: the row indices, the column
/// shifts, the real part and the imaginary part, each as far as it is
/// read.
pub open spec fn swapped_sparse_matrix(
    a: Seq<u8>,
    b: Seq<u8>,
    order: ByteOrder,
    pos: int,
    end: int,
    header: ArrayHeaderModel,
) -> bool {
    &&& swapped_int32(a, b, order, pos, end)
    &&& spec_index_vector(a, order, pos, end) matches Ok((_, pos1)) ==> {
        &&& swapped_int32(a, b, order, pos1, end)
        &&& spec_index_vector(a, order, pos1, end) matches Ok((_, pos2)) ==> {
            &&& swapped_numeric(a, b, order, pos2, end)
            &&& header.flags.complex ==> (spec_sparse_part(
                a,
                order,
                pos2,
                end,
                header.flags.nzmax as int,
            ) matches Ok((_, pos3)) ==> swapped_numeric(a, b, order, pos3, end))
        }
    }
}

/// A sparse array reads the same from a file in one byte order as from a
/// copy in the other order in which its payload is swapped.
pub proof fn lemma_sparse_matrix_swapped(
    a: Seq<u8>,
    b: Seq<u8>,
    order: ByteOrder,
    pos: int,
    end: int,
    header: ArrayHeaderModel,
)
    requires
        swapped_sparse_matrix(a, b, order, pos, end, header),
    ensures
        spec_sparse_matrix(b, order.swapped(), pos, end, header) == spec_sparse_matrix(
            a,
            order,
            pos,
            end,
            header,
        ),
{
    lemma_int32_subelement_swapped(a, b, order, pos, end, 1);
    if let Ok((_, pos1)) = spec_index_vector(a, order, pos, end) {
        lemma_int32_subelement_swapped(a, b, order, pos1, end, 1);
        if let Ok((_, pos2)) = spec_index_vector(a, order, pos1, end) {
            lemma_sparse_part_swapped(a, b, order, pos2, end, header.flags.nzmax as int);
            if let Ok((_, pos3)) = spec_sparse_part(
                a,
                order,
                pos2,
                end,
                header.flags.nzmax as int,
            ) {
                if header.flags.complex {
                    lemma_sparse_part_swapped(a, b, order, pos3, end, header.flags.nzmax as int);
                }
            }
        }
    }
}

/// Whether the payload of the character array with the header `header`
/// that `a` holds at `pos` is swapped in `b`: the real part, and the
/// imaginary part where it is read.
pub open spec fn swapped_character_array(
    a: Seq<u8>,
    b: Seq<u8>,
    order: ByteOrder,
    pos: int,
    end: int,
    header: ArrayHeaderModel,
) -> bool {
    &&& swapped_text(a, b, order, pos, end)
    &&& header.flags.complex ==> (spec_character_data(
        a,
        order,
        pos,
        end,
        product(header.dimensions),
    ) matches Ok((_, pos1)) ==> swapped_text(a, b, order, pos1, end))
}

/// A character array reads the same from a file in one byte order as from
/// a copy in the other order in which its payload is swapped.
pub proof fn lemma_character_array_swapped(
    a: Seq<u8>,
    b: Seq<u8>,
    order: ByteOrder,
    pos: int,
    end: int,
    header: ArrayHeaderModel,
)
    requires
        swapped_character_array(a, b, order, pos, end, header),
    ensures
        spec_character_array(b, order.swapped(), pos, end, header) == spec_character_array(
            a,
            order,
            pos,
            end,
            header,
        ),
{
    lemma_character_data_swapped(a, b, order, pos, end, product(header.dimensions));
    if let Ok((_, pos1)) = spec_character_data(a, order, pos, end, product(header.dimensions)) {
        if header.flags.complex {
            lemma_character_data_swapped(a, b, order, pos1, end, product(header.dimensions));
        }
    }
}

/// Two files that hold the same bytes in a range hold the same bytes in
/// every range inside it.
proof fn lemma_same_within(a: Seq<u8>, b: Seq<u8>, start: int, end: int, from: int, to: int)
    requires
        same_at(a, b, start, end),
        start <= from <= to <= end,
    ensures
        same_at(a, b, from, to),
        forall|i: int| start <= i < end ==> b[i] == a[i],
{
    assert forall|i: int| start <= i < end implies b[i] == a[i] by {
        assert(b[i] == b.subrange(start, end)[i - start]);
        assert(a[i] == a.subrange(start, end)[i - start]);
    }
    assert(b.subrange(from, to) =~= a.subrange(from, to));
}

/// The first NUL byte of a range is at the same place in two files that
/// hold the same bytes there.
proof fn lemma_nul_index_same(a: Seq<u8>, b: Seq<u8>, start: int, end: int)
    requires
        same_at(a, b, start, end),
    ensures
        nul_index(b, start, end) == nul_index(a, start, end),
    decreases end - start,
{
    if start < end {
        lemma_same_within(a, b, start, end, start + 1, end);
        if a[start] != 0 {
            lemma_nul_index_same(a, b, start + 1, end);
        }
    }
}

/// The field names of a structure are the same in two files that hold the
/// same bytes where the names are stored.
proof fn lemma_field_names_same(
    a: Seq<u8>,
    b: Seq<u8>,
    p: int,
    size: int,
    max_len: int,
    count: int,
)
    requires
        same_at(a, b, p, p + size),
        max_len > 0,
        0 <= count,
        count * max_len <= size,
    ensures
        spec_field_names(b, p, max_len, count) == spec_field_names(a, p, max_len, count),
{
    assert forall|k: int|
        #![trigger spec_field_name_at(b, p, max_len, k)]
        #![trigger spec_field_name_at(a, p, max_len, k)]
        0 <= k < count implies spec_field_name_at(b, p, max_len, k) == spec_field_name_at(
        a,
        p,
        max_len,
        k,
    ) by {
        let start = p + k * max_len;
        let stop = start + max_len;
        assert(0 <= k * max_len && k * max_len + max_len <= count * max_len) by (nonlinear_arith)
            requires
                0 <= k < count,
                max_len > 0,
        ;
        lemma_same_within(a, b, p, p + size, start, stop);
        lemma_nul_index_same(a, b, start, stop);
        let n = nul_index(a, start, stop);
        lemma_nul_index_bounds(a, start, stop);
        if n < stop {
            lemma_same_within(a, b, p, p + size, start, n);
        }
    }
    if spec_field_names(a, p, max_len, count).is_some() {
        assert(spec_field_names(b, p, max_len, count).unwrap() =~= spec_field_names(
            a,
            p,
            max_len,
            count,
        ).unwrap());
    }
}

/// The first NUL byte of a range lies in the range or at its end.
proof fn lemma_nul_index_bounds(s: Seq<u8>, start: int, end: int)
    requires
        start <= end,
    ensures
        start <= nul_index(s, start, end) <= end,
    decreases end - start,
{
    if start < end && s[start] != 0 {
        lemma_nul_index_bounds(s, start + 1, end);
    }
}

/// The field names of a structure read the same from a file in one byte
/// order as from a copy in the other order in which their subelement is
/// swapped.
pub proof fn lemma_struct_names_swapped(
    a: Seq<u8>,
    b: Seq<u8>,
    order: ByteOrder,
    pos: int,
    end: int,
    max_len: int,
)
    requires
        swapped_bytes(a, b, order, pos, end),
    ensures
        spec_struct_names(b, order.swapped(), pos, end, max_len) == spec_struct_names(
            a,
            order,
            pos,
            end,
            max_len,
        ),
{
    lemma_tag_byte_swapped(a, b, order, pos, end);
    if let Ok((tag, p)) = spec_tag(a, order, pos, end) {
        let size = tag.data_byte_size as int;
        if tag.data_type == DataType::Int8 && size > 0 && max_len > 0 && p + size <= end {
            assert(0 <= size / max_len && (size / max_len) * max_len <= size)
                by (nonlinear_arith)
                requires
                    size > 0,
                    max_len > 0,
            ;
            lemma_field_names_same(a, b, p, size, max_len, size / max_len);
        }
    }
}

/// An element lies at the same place in a file in one byte order as in a
/// copy in the other order in which its tag is swapped.
pub proof fn lemma_frame_swapped(a: Seq<u8>, b: Seq<u8>, order: ByteOrder, pos: int, end: int)
    requires
        swapped_tag(a, b, order, pos, end),
    ensures
        spec_frame(b, order.swapped(), pos, end) == spec_frame(a, order, pos, end),
{
    lemma_tag_byte_swapped(a, b, order, pos, end);
}

/// Whether the values of the fields of a structure that `a` holds from
/// field `k` on, the first at `pos`, are swapped in `b`: each element as
/// far as it is read.
pub open spec fn swapped_fields(
    a: Seq<u8>,
    b: Seq<u8>,
    order: ByteOrder,
    pos: int,
    end: int,
    names: Seq<Seq<char>>,
    k: int,
    depth: nat,
) -> bool
    decreases depth, end - pos, 2int,
{
    if k < 0 || k >= names.len() {
        true
    } else {
        &&& swapped_tag(a, b, order, pos, end)
        &&& spec_frame(a, order, pos, end) matches Ok(frame) ==> {
            &&& swapped_body(
                a,
                b,
                order,
                frame.tag,
                frame.start,
                frame.end,
                Some(names[k]),
                depth,
            )
            &&& spec_element_body(
                a,
                order,
                frame.tag,
                frame.start,
                frame.end,
                Some(names[k]),
                depth,
            ).is_ok() ==> swapped_fields(a, b, order, frame.next, end, names, k + 1, depth)
        }
    }
}

/// Whether the payload of the structure array that `a` holds at `pos` is
/// swapped in `b`: the length of the field names, the names, and the
/// values of the fields, each as far as it is read.
pub open spec fn swapped_struct(
    a: Seq<u8>,
    b: Seq<u8>,
    order: ByteOrder,
    pos: int,
    end: int,
    depth: nat,
) -> bool
    decreases depth, end - pos, 3int,
{
    &&& swapped_numeric(a, b, order, pos, end)
    &&& spec_field_name_length(a, order, pos, end) matches Ok((max_len, pos1)) ==> {
        &&& swapped_bytes(a, b, order, pos1, end)
        &&& spec_struct_names(a, order, pos1, end, max_len) matches Ok((names, pos2))
            ==> swapped_fields(a, b, order, pos2, end, names, 0, depth)
    }
}

/// Whether the array that `a` holds at `pos` is swapped in `b`: its
/// header, and the payload that its class asks for.
pub open spec fn swapped_matrix(
    a: Seq<u8>,
    b: Seq<u8>,
    order: ByteOrder,
    pos: int,
    end: int,
    name: Option<Seq<char>>,
    depth: nat,
) -> bool
    decreases depth, end - pos, 4int,
{
    &&& swapped_header(a, b, order, pos, end)
    &&& spec_array_header(a, order, pos, end, name) matches Ok((header, p)) ==> match header.flags.class {
        ArrayType::Char => swapped_character_array(a, b, order, p, end, header),
        ArrayType::Struct => swapped_struct(a, b, order, p, end, depth),
        ArrayType::Sparse => swapped_sparse_matrix(a, b, order, p, end, header),
        ArrayType::Cell | ArrayType::Object => true,
        _ => swapped_numeric_matrix(a, b, order, p, end, header),
    }
}

/// Whether the element with the tag `tag` that `a` holds from `start` up
/// to `end` is swapped in `b`. An array is swapped as arrays are. A
/// compressed element that is read decompresses in `b` to a swapped copy
/// of what it decompresses to in `a`. Of other elements nothing is read.
pub open spec fn swapped_body(
    a: Seq<u8>,
    b: Seq<u8>,
    order: ByteOrder,
    tag: DataElementTag,
    start: int,
    end: int,
    name: Option<Seq<char>>,
    depth: nat,
) -> bool
    decreases depth, end - start, 6int,
{
    match tag.data_type {
        DataType::Matrix => swapped_matrix(a, b, order, start, end, name, depth),
        DataType::Compressed => name.is_none() && depth > 0 ==> swapped_inflated(
            zlib_inflated(a.subrange(start, end)),
            zlib_inflated(b.subrange(start, end)),
            order,
            (depth - 1) as nat,
        ),
        _ => true,
    }
}

/// Whether the second of two decompressed payloads is a swapped copy of
/// the first: both were rejected, or both have the same length and the
/// element that the first holds is swapped in the second.
pub open spec fn swapped_inflated(
    a: Option<Seq<u8>>,
    b: Option<Seq<u8>>,
    order: ByteOrder,
    depth: nat,
) -> bool
    decreases depth, inflated_len(a), 7int,
{
    match (a, b) {
        (None, None) => true,
        (Some(x), Some(y)) => x.len() == y.len() && swapped_next(
            x,
            y,
            order,
            0,
            x.len() as int,
            None,
            depth,
        ),
        _ => false,
    }
}

/// Whether the element that `a` holds at `pos` is swapped in `b`: its tag,
/// and its body.
pub open spec fn swapped_next(
    a: Seq<u8>,
    b: Seq<u8>,
    order: ByteOrder,
    pos: int,
    end: int,
    name: Option<Seq<char>>,
    depth: nat,
) -> bool
    decreases depth, end - pos, 0int,
{
    &&& swapped_tag(a, b, order, pos, end)
    &&& spec_frame(a, order, pos, end) matches Ok(frame) ==> swapped_body(
        a,
        b,
        order,
        frame.tag,
        frame.start,
        frame.end,
        name,
        depth,
    )
}

/// The values of the fields of a structure read the same from a file in
/// one byte order as from a copy in the other order in which they are
/// swapped.
pub proof fn lemma_struct_fields_swapped(
    a: Seq<u8>,
    b: Seq<u8>,
    order: ByteOrder,
    pos: int,
    end: int,
    names: Seq<Seq<char>>,
    k: int,
    depth: nat,
)
    requires
        swapped_fields(a, b, order, pos, end, names, k, depth),
    ensures
        spec_struct_fields(b, order.swapped(), pos, end, names, k, depth) == spec_struct_fields(
            a,
            order,
            pos,
            end,
            names,
            k,
            depth,
        ),
    decreases depth, end - pos, 2int,
{
    if 0 <= k < names.len() {
        lemma_frame_swapped(a, b, order, pos, end);
        if let Ok(frame) = spec_frame(a, order, pos, end) {
            lemma_body_swapped(
                a,
                b,
                order,
                frame.tag,
                frame.start,
                frame.end,
                Some(names[k]),
                depth,
            );
            if spec_element_body(
                a,
                order,
                frame.tag,
                frame.start,
                frame.end,
                Some(names[k]),
                depth,
            ).is_ok() {
                lemma_struct_fields_swapped(a, b, order, frame.next, end, names, k + 1, depth);
            }
        }
    }
}

/// A structure array reads the same from a file in one byte order as from
/// a copy in the other order in which its payload is swapped.
#[verifier::rlimit(40)]
pub proof fn lemma_struct_swapped(
    a: Seq<u8>,
    b: Seq<u8>,
    order: ByteOrder,
    pos: int,
    end: int,
    header: ArrayHeaderModel,
    depth: nat,
)
    requires
        swapped_struct(a, b, order, pos, end, depth),
    ensures
        spec_struct(b, order.swapped(), pos, end, header, depth) == spec_struct(
            a,
            order,
            pos,
            end,
            header,
            depth,
        ),
    decreases depth, end - pos, 3int,
{
    lemma_numeric_subelement_swapped(a, b, order, pos, end);
    if let Ok((max_len, pos1)) = spec_field_name_length(a, order, pos, end) {
        lemma_struct_names_swapped(a, b, order, pos1, end, max_len);
        if let Ok((names, pos2)) = spec_struct_names(a, order, pos1, end, max_len) {
            lemma_struct_fields_swapped(a, b, order, pos2, end, names, 0, depth);
        }
    }
}

/// An array reads the same from a file in one byte order as from a copy
/// in the other order in which it is swapped.
#[verifier::rlimit(40)]
pub proof fn lemma_matrix_swapped(
    a: Seq<u8>,
    b: Seq<u8>,
    order: ByteOrder,
    pos: int,
    end: int,
    name: Option<Seq<char>>,
    depth: nat,
)
    requires
        swapped_matrix(a, b, order, pos, end, name, depth),
    ensures
        spec_matrix(b, order.swapped(), pos, end, name, depth) == spec_matrix(
            a,
            order,
            pos,
            end,
            name,
            depth,
        ),
    decreases depth, end - pos, 4int,
{
    lemma_array_header_swapped(a, b, order, pos, end, name);
    if let Ok((header, p)) = spec_array_header(a, order, pos, end, name) {
        match header.flags.class {
            ArrayType::Char => lemma_character_array_swapped(a, b, order, p, end, header),
            ArrayType::Struct => lemma_struct_swapped(a, b, order, p, end, header, depth),
            ArrayType::Sparse => lemma_sparse_matrix_swapped(a, b, order, p, end, header),
            ArrayType::Cell | ArrayType::Object => {},
            _ => lemma_numeric_matrix_swapped(a, b, order, p, end, header),
        }
    }
}

/// An element reads the same from a file in one byte order as from a copy
/// in the other order in which it is swapped.
pub proof fn lemma_body_swapped(
    a: Seq<u8>,
    b: Seq<u8>,
    order: ByteOrder,
    tag: DataElementTag,
    start: int,
    end: int,
    name: Option<Seq<char>>,
    depth: nat,
)
    requires
        swapped_body(a, b, order, tag, start, end, name, depth),
    ensures
        spec_element_body(b, order.swapped(), tag, start, end, name, depth) == spec_element_body(
            a,
            order,
            tag,
            start,
            end,
            name,
            depth,
        ),
    decreases depth, end - start, 6int,
{
    match tag.data_type {
        DataType::Matrix => lemma_matrix_swapped(a, b, order, start, end, name, depth),
        DataType::Compressed => {
            if name.is_none() && depth > 0 {
                lemma_inflated_swapped(
                    zlib_inflated(a.subrange(start, end)),
                    zlib_inflated(b.subrange(start, end)),
                    order,
                    start,
                    (depth - 1) as nat,
                );
            }
        },
        _ => {},
    }
}

/// The element that a decompressed payload holds reads the same from a
/// payload in one byte order as from a swapped copy in the other order.
pub proof fn lemma_inflated_swapped(
    a: Option<Seq<u8>>,
    b: Option<Seq<u8>>,
    order: ByteOrder,
    at: int,
    depth: nat,
)
    requires
        swapped_inflated(a, b, order, depth),
    ensures
        spec_inflated_element(b, order.swapped(), at, depth) == spec_inflated_element(
            a,
            order,
            at,
            depth,
        ),
    decreases depth, inflated_len(a), 7int,
{
    if let (Some(x), Some(y)) = (a, b) {
        lemma_next_swapped(x, y, order, 0, x.len() as int, None, depth);
    }
}

/// The element at a position reads the same from a file in one byte order
/// as from a copy in the other order in which it is swapped.
pub proof fn lemma_next_swapped(
    a: Seq<u8>,
    b: Seq<u8>,
    order: ByteOrder,
    pos: int,
    end: int,
    name: Option<Seq<char>>,
    depth: nat,
)
    requires
        swapped_next(a, b, order, pos, end, name, depth),
    ensures
        spec_next_element(b, order.swapped(), pos, end, name, depth) == spec_next_element(
            a,
            order,
            pos,
            end,
            name,
            depth,
        ),
    decreases depth, end - pos, 0int,
{
    lemma_frame_swapped(a, b, order, pos, end);
    if let Ok(frame) = spec_frame(a, order, pos, end) {
        lemma_body_swapped(a, b, order, frame.tag, frame.start, frame.end, name, depth);
    }
}

/// Whether the elements that `a` holds from `pos` on are swapped in `b`:
/// each as far as it is read.
pub open spec fn swapped_elements(
    a: Seq<u8>,
    b: Seq<u8>,
    order: ByteOrder,
    pos: int,
    depth: nat,
) -> bool
    decreases a.len() - pos,
{
    if pos >= a.len() {
        true
    } else {
        &&& swapped_next(a, b, order, pos, a.len() as int, None, depth)
        &&& spec_frame(a, order, pos, a.len() as int) matches Ok(frame) ==> (spec_element_body(
            a,
            order,
            frame.tag,
            frame.start,
            frame.end,
            None,
            depth,
        ).is_ok() ==> swapped_elements(a, b, order, frame.next, depth))
    }
}

/// The elements of a file read the same from a file in one byte order as
/// from a copy of the same length in the other order in which they are
/// swapped.
pub proof fn lemma_elements_swapped(
    a: Seq<u8>,
    b: Seq<u8>,
    order: ByteOrder,
    pos: int,
    depth: nat,
)
    requires
        a.len() == b.len(),
        swapped_elements(a, b, order, pos, depth),
    ensures
        spec_elements(b, order.swapped(), pos, depth) == spec_elements(a, order, pos, depth),
    decreases a.len() - pos,
{
    if pos < a.len() {
        lemma_next_swapped(a, b, order, pos, a.len() as int, None, depth);
        lemma_elements_step(a, order, pos, depth);
        lemma_elements_step(b, order.swapped(), pos, depth);
        if let Ok((_, next)) = spec_next_element(a, order, pos, a.len() as int, None, depth) {
            lemma_elements_swapped(a, b, order, next, depth);
        }
    }
}

/// Whether `b` is a copy of the file `a` in the other byte order: the same
/// length, the same first four bytes and descriptive text, the version
/// and the marker of the byte order byte-reversed, and the elements
/// swapped. The marker of `a` is "IM" or "MI".
pub open spec fn swapped_file(a: Seq<u8>, b: Seq<u8>) -> bool {
    &&& a.len() == b.len()
    &&& a.len() >= 4 ==> same_at(a, b, 0, 4)
    &&& a.len() >= 128 ==> {
        &&& same_at(a, b, 0, 116)
        &&& reversed_at(a, b, 124, 2)
        &&& reversed_at(a, b, 126, 2)
        &&& (a[126] == 0x49 && a[127] == 0x4D) || (a[126] == 0x4D && a[127] == 0x49)
        &&& swapped_elements(
            a,
            b,
            byte_order_of(a[126] == 0x49),
            128,
            MAX_COMPRESSION_DEPTH as nat,
        )
    }
}

/// What a file holds, seen in the other byte order.
pub open spec fn in_other_byte_order(
    r: Result<(HeaderModel, Seq<ElementModel>), ParseError>,
) -> Result<(HeaderModel, Seq<ElementModel>), ParseError> {
    match r {
        Ok((header, elements)) => Ok(
            (
                HeaderModel { text: header.text, is_little_endian: !header.is_little_endian },
                elements,
            ),
        ),
        Err(e) => Err(e),
    }
}

/// A copy of a file in the other byte order reads as the file does: it
/// fails where the file fails, with the same error, and else holds the
/// same text and the same elements, in the other byte order.
pub proof fn lemma_swapped_file_reads_the_same(a: Seq<u8>, b: Seq<u8>)
    requires
        swapped_file(a, b),
    ensures
        spec_parse_all(b) == in_other_byte_order(spec_parse_all(a)),
{
    if a.len() >= 4 {
        lemma_same_within(a, b, 0, 4, 0, 4);
    }
    if a.len() >= 128 {
        let order = byte_order_of(a[126] == 0x49);
        lemma_reversed_bytes(a, b, 126, 2);
        assert(b[126int + 0] == a[127] && b[126int + 1] == a[126]);
        lemma_u16_byte_swapped(a, b, 124, order);
        assert(byte_order_of(b[126] == 0x49) == order.swapped());
        lemma_elements_swapped(a, b, order, 128, MAX_COMPRESSION_DEPTH as nat);
    }
}

} // verus!
