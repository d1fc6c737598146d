//! What holds of every file that is read.

use vstd::prelude::*;
use crate::array::{
    spec_array_header,
    spec_character_array,
    spec_numeric_matrix,
    spec_sparse_matrix,
};
use crate::data::ByteOrder;
use crate::element::{
    lemma_struct_fields_step,
    spec_element_body,
    spec_frame,
    spec_inflated_element,
    spec_matrix,
    spec_next_element,
    spec_struct,
    spec_struct_fields,
};
use crate::inflate::zlib_inflated;
use crate::model::{product, ArrayHeaderModel, ElementModel};
use crate::parse::{
    byte_order_of,
    error_at,
    spec_elements,
    spec_parse_all,
    ArrayType,
    DataType,
    ErrorKind,
    ParseError,
};
use crate::structure::{spec_field_name_length, spec_struct_names};
use crate::subelement::{
    spec_array_name,
    spec_maybe_array_name,
    spec_numeric_subelement,
};
use crate::tag::DataElementTag;

verus! {

/// A dense numeric array that is read holds one value for each element of
/// the array in its real part, and in its imaginary part if it has one; it
/// has one exactly if it is complex.
pub proof fn lemma_numeric_matrix_counts(
    s: Seq<u8>,
    order: ByteOrder,
    pos: int,
    end: int,
    header: ArrayHeaderModel,
)
    requires
        spec_numeric_matrix(s, order, pos, end, header).is_ok(),
    ensures
        spec_numeric_matrix(s, order, pos, end, header).unwrap().well_formed(),
        spec_numeric_matrix(s, order, pos, end, header).unwrap().bears(Some(header.name)),
{
}

/// A dense numeric array whose payload does not hold one value for each
/// element of the array is rejected.
pub proof fn lemma_dense_length_mismatch_rejected(
    s: Seq<u8>,
    order: ByteOrder,
    pos: int,
    end: int,
    header: ArrayHeaderModel,
)
    requires
        header.flags.class.spec_numeric_data_type().is_some(),
        spec_numeric_subelement(s, order, pos, end) matches Ok((data, _)) && data.values.len()
            != product(header.dimensions),
    ensures
        spec_numeric_matrix(s, order, pos, end, header) == Err::<ElementModel, ParseError>(
            error_at(ErrorKind::Mismatch, pos),
        ),
{
}

/// A sparse array that is read holds as many values as its flags give
/// room for in its real part, and in its imaginary part if it has one; it
/// has one exactly if it is complex.
pub proof fn lemma_sparse_matrix_counts(
    s: Seq<u8>,
    order: ByteOrder,
    pos: int,
    end: int,
    header: ArrayHeaderModel,
)
    requires
        spec_sparse_matrix(s, order, pos, end, header).is_ok(),
    ensures
        spec_sparse_matrix(s, order, pos, end, header).unwrap().well_formed(),
        spec_sparse_matrix(s, order, pos, end, header).unwrap().bears(Some(header.name)),
{
}

/// A character array that is read holds one scalar value or raw unit for
/// each cell.
pub proof fn lemma_character_array_counts(
    s: Seq<u8>,
    order: ByteOrder,
    pos: int,
    end: int,
    header: ArrayHeaderModel,
)
    requires
        spec_character_array(s, order, pos, end, header).is_ok(),
    ensures
        spec_character_array(s, order, pos, end, header).unwrap().well_formed(),
        spec_character_array(s, order, pos, end, header).unwrap().bears(Some(header.name)),
{
}

/// Where a name is supplied, an array is read only if the stream holds no
/// name for it, and then it has the supplied name.
pub proof fn lemma_supplied_name_wins(
    s: Seq<u8>,
    order: ByteOrder,
    pos: int,
    end: int,
    supplied: Seq<char>,
)
    ensures
        spec_maybe_array_name(s, order, pos, end, Some(supplied)) matches Ok((name, _)) ==> name
            == supplied && spec_array_name(s, order, pos, end) matches Ok((None, _)),
        spec_array_name(s, order, pos, end) matches Ok((Some(_), _)) ==> spec_maybe_array_name(
            s,
            order,
            pos,
            end,
            Some(supplied),
        ) == Err::<(Seq<char>, int), ParseError>(error_at(ErrorKind::Mismatch, pos)),
{
}

/// The values of the fields of a structure that are read: there is one
/// for each name, each of them is well-formed, and each that was read
/// bears its field's name.
pub proof fn lemma_struct_fields_well_formed(
    s: Seq<u8>,
    order: ByteOrder,
    pos: int,
    end: int,
    names: Seq<Seq<char>>,
    k: int,
    depth: nat,
    values: Seq<ElementModel>,
)
    requires
        0 <= k <= names.len(),
        spec_struct_fields(s, order, pos, end, names, k, depth) == Ok::<
            Seq<ElementModel>,
            ParseError,
        >(values),
    ensures
        values.len() == names.len() - k,
        forall|i: int|
            0 <= i < values.len() ==> (#[trigger] values[i]).well_formed() && values[i].bears(
                Some(names[k + i]),
            ),
    decreases depth, end - pos, 2int,
{
    if k < names.len() {
        lemma_struct_fields_step(s, order, pos, end, names, k, depth);
        let first = spec_next_element(s, order, pos, end, Some(names[k]), depth);
        assert(first.is_ok());
        let (value, next) = first.unwrap();
        lemma_next_element_well_formed(s, order, pos, end, Some(names[k]), depth);
        let rest = spec_struct_fields(s, order, next, end, names, k + 1, depth).unwrap();
        lemma_struct_fields_well_formed(s, order, next, end, names, k + 1, depth, rest);
        assert(values == seq![value] + rest);
        lemma_fields_joined(value, rest, names, k);
    }
}

/// A well-formed value under its field's name, put before well-formed
/// values under the names after it, gives well-formed values under their
/// names.
proof fn lemma_fields_joined(
    value: ElementModel,
    rest: Seq<ElementModel>,
    names: Seq<Seq<char>>,
    k: int,
)
    requires
        0 <= k < names.len(),
        value.well_formed(),
        value.bears(Some(names[k])),
        rest.len() == names.len() - k - 1,
        forall|i: int|
            0 <= i < rest.len() ==> (#[trigger] rest[i]).well_formed() && rest[i].bears(
                Some(names[k + 1 + i]),
            ),
    ensures
        (seq![value] + rest).len() == names.len() - k,
        forall|i: int|
            0 <= i < names.len() - k ==> (#[trigger] (seq![value] + rest)[i]).well_formed() && (
            seq![value] + rest)[i].bears(Some(names[k + i])),
{
    let all = seq![value] + rest;
    assert forall|i: int| 0 <= i < names.len() - k implies (#[trigger] all[i]).well_formed()
        && all[i].bears(Some(names[k + i])) by {
        if i > 0 {
            assert(all[i] == rest[i - 1]);
        }
    }
}

/// A structure that is read is well-formed.
pub proof fn lemma_struct_well_formed(
    s: Seq<u8>,
    order: ByteOrder,
    pos: int,
    end: int,
    header: ArrayHeaderModel,
    depth: nat,
)
    requires
        spec_struct(s, order, pos, end, header, depth).is_ok(),
    ensures
        spec_struct(s, order, pos, end, header, depth).unwrap().well_formed(),
        spec_struct(s, order, pos, end, header, depth).unwrap().bears(Some(header.name)),
    decreases depth, end - pos, 3int,
{
    let (max_len, pos1) = spec_field_name_length(s, order, pos, end).unwrap();
    let (field_names, pos2) = spec_struct_names(s, order, pos1, end, max_len).unwrap();
    let values = spec_struct_fields(s, order, pos2, end, field_names, 0, depth).unwrap();
    lemma_struct_fields_well_formed(s, order, pos2, end, field_names, 0, depth, values);
}

/// An array that is read is well-formed and bears the name that its place
/// supplies.
pub proof fn lemma_matrix_well_formed(
    s: Seq<u8>,
    order: ByteOrder,
    pos: int,
    end: int,
    name: Option<Seq<char>>,
    depth: nat,
)
    requires
        spec_matrix(s, order, pos, end, name, depth).is_ok(),
    ensures
        spec_matrix(s, order, pos, end, name, depth).unwrap().well_formed(),
        spec_matrix(s, order, pos, end, name, depth).unwrap().bears(name),
    decreases depth, end - pos, 4int,
{
    let (header, p) = spec_array_header(s, order, pos, end, name).unwrap();
    match header.flags.class {
        ArrayType::Char => lemma_character_array_counts(s, order, p, end, header),
        ArrayType::Struct => lemma_struct_well_formed(s, order, p, end, header, depth),
        ArrayType::Sparse => lemma_sparse_matrix_counts(s, order, p, end, header),
        ArrayType::Cell | ArrayType::Object => {},
        _ => lemma_numeric_matrix_counts(s, order, p, end, header),
    }
}

/// An element that is read is well-formed and bears the name that its
/// place supplies.
pub proof fn lemma_element_body_well_formed(
    s: Seq<u8>,
    order: ByteOrder,
    tag: DataElementTag,
    start: int,
    end: int,
    name: Option<Seq<char>>,
    depth: nat,
)
    requires
        spec_element_body(s, order, tag, start, end, name, depth).is_ok(),
    ensures
        spec_element_body(s, order, tag, start, end, name, depth).unwrap().well_formed(),
        spec_element_body(s, order, tag, start, end, name, depth).unwrap().bears(name),
    decreases depth, end - start, 6int,
{
    match tag.data_type {
        DataType::Matrix => lemma_matrix_well_formed(s, order, start, end, name, depth),
        DataType::Compressed => {
            lemma_inflated_element_well_formed(
                zlib_inflated(s.subrange(start, end)),
                order,
                start,
                (depth - 1) as nat,
            );
        },
        _ => {},
    }
}

/// The element that a decompressed payload holds is well-formed if it is
/// read.
pub proof fn lemma_inflated_element_well_formed(
    inflated: Option<Seq<u8>>,
    order: ByteOrder,
    at: int,
    depth: nat,
)
    requires
        spec_inflated_element(inflated, order, at, depth).is_ok(),
    ensures
        spec_inflated_element(inflated, order, at, depth).unwrap().well_formed(),
    decreases depth, crate::element::inflated_len(inflated), 7int,
{
    let buf = inflated.unwrap();
    lemma_next_element_well_formed(buf, order, 0, buf.len() as int, None, depth);
}

/// An element that is read from a window is well-formed, bears the name
/// that its place supplies, and ends after its start and inside the
/// window.
pub proof fn lemma_next_element_well_formed(
    s: Seq<u8>,
    order: ByteOrder,
    pos: int,
    end: int,
    name: Option<Seq<char>>,
    depth: nat,
)
    requires
        spec_next_element(s, order, pos, end, name, depth).is_ok(),
    ensures
        spec_next_element(s, order, pos, end, name, depth).unwrap().0.well_formed(),
        spec_next_element(s, order, pos, end, name, depth).unwrap().0.bears(name),
        pos < spec_next_element(s, order, pos, end, name, depth).unwrap().1 <= end,
    decreases depth, end - pos, 0int,
{
    let frame = spec_frame(s, order, pos, end).unwrap();
    lemma_element_body_well_formed(s, order, frame.tag, frame.start, frame.end, name, depth);
}

/// Every element of a file that is read is well-formed.
pub proof fn lemma_elements_well_formed(s: Seq<u8>, order: ByteOrder, pos: int, depth: nat)
    requires
        spec_elements(s, order, pos, depth).is_ok(),
    ensures
        forall|i: int|
            0 <= i < spec_elements(s, order, pos, depth).unwrap().len() ==> (
            #[trigger] spec_elements(s, order, pos, depth).unwrap()[i]).well_formed(),
    decreases s.len() - pos,
{
    if pos < s.len() {
        let frame = spec_frame(s, order, pos, s.len() as int).unwrap();
        lemma_element_body_well_formed(s, order, frame.tag, frame.start, frame.end, None, depth);
        lemma_elements_well_formed(s, order, frame.next, depth);
        let first = spec_element_body(s, order, frame.tag, frame.start, frame.end, None, depth).unwrap();
        let rest = spec_elements(s, order, frame.next, depth).unwrap();
        let all = spec_elements(s, order, pos, depth).unwrap();
        assert(all == seq![first] + rest);
        assert forall|i: int| 0 <= i < all.len() implies (#[trigger] all[i]).well_formed() by {
            if i > 0 {
                assert(all[i] == rest[i - 1]);
            }
        }
    }
}

/// Every element of a file that is read is well-formed: dense and sparse
/// arrays hold the number of values that their headers ask for, character
/// arrays one scalar value for each cell, and structures one value for
/// each field name, under that name.
pub proof fn lemma_parse_all_well_formed(s: Seq<u8>)
    requires
        spec_parse_all(s).is_ok(),
    ensures
        forall|i: int|
            0 <= i < spec_parse_all(s).unwrap().1.len() ==> (#[trigger] spec_parse_all(
                s,
            ).unwrap().1[i]).well_formed(),
{
    let header = crate::parse::spec_header(s).unwrap();
    lemma_elements_well_formed(
        s,
        byte_order_of(header.is_little_endian),
        128,
        crate::element::MAX_COMPRESSION_DEPTH as nat,
    );
}

/// The positions at which the elements of a file end, from the element
/// that starts at `pos` on.
pub open spec fn spec_element_ends(s: Seq<u8>, order: ByteOrder, pos: int) -> Seq<int>
    decreases s.len() - pos,
{
    if pos >= s.len() {
        Seq::empty()
    } else {
        match spec_frame(s, order, pos, s.len() as int) {
            Err(_) => Seq::empty(),
            Ok(frame) => seq![frame.next] + spec_element_ends(s, order, frame.next),
        }
    }
}

/// Where element `i` of the elements from `pos` on starts: at `pos`, or
/// where the element before it ends.
pub open spec fn spec_element_start(s: Seq<u8>, order: ByteOrder, pos: int, i: int) -> int {
    if i == 0 {
        pos
    } else {
        spec_element_ends(s, order, pos)[i - 1]
    }
}

/// The elements of a file that is read cover the input after the header
/// without gap or overlap: each is the element read at its start, the
/// first starts at `pos`, each other one where the one before it ends, and
/// the last ends with the input.
pub proof fn lemma_elements_tile_input(s: Seq<u8>, order: ByteOrder, pos: int, depth: nat)
    requires
        0 <= pos <= s.len(),
        spec_elements(s, order, pos, depth).is_ok(),
    ensures
        spec_element_ends(s, order, pos).len() == spec_elements(s, order, pos, depth).unwrap().len(),
        forall|i: int|
            0 <= i < spec_element_ends(s, order, pos).len() ==> spec_element_start(s, order, pos, i)
                < #[trigger] spec_element_ends(s, order, pos)[i] <= s.len(),
        forall|i: int|
            0 <= i < spec_element_ends(s, order, pos).len() ==> spec_next_element(
                s,
                order,
                spec_element_start(s, order, pos, i),
                s.len() as int,
                None,
                depth,
            ) == Ok::<(ElementModel, int), ParseError>(
                (
                    #[trigger] spec_elements(s, order, pos, depth).unwrap()[i],
                    spec_element_ends(s, order, pos)[i],
                ),
            ),
        spec_element_start(s, order, pos, spec_element_ends(s, order, pos).len() as int) == s.len(),
    decreases s.len() - pos,
{
    if pos < s.len() {
        let frame = spec_frame(s, order, pos, s.len() as int).unwrap();
        lemma_elements_tile_input(s, order, frame.next, depth);
        let first = spec_element_body(s, order, frame.tag, frame.start, frame.end, None, depth).unwrap();
        let rest = spec_elements(s, order, frame.next, depth).unwrap();
        let all = spec_elements(s, order, pos, depth).unwrap();
        let ends = spec_element_ends(s, order, pos);
        let rest_ends = spec_element_ends(s, order, frame.next);
        assert(all == seq![first] + rest);
        assert(ends == seq![frame.next] + rest_ends);
        assert forall|i: int| 0 <= i < ends.len() implies spec_element_start(s, order, pos, i)
            < #[trigger] ends[i] <= s.len() by {
            if i > 0 {
                assert(ends[i] == rest_ends[i - 1]);
                assert(spec_element_start(s, order, pos, i) == spec_element_start(
                    s,
                    order,
                    frame.next,
                    i - 1,
                ));
            }
        }
        assert forall|i: int| 0 <= i < ends.len() implies spec_next_element(
            s,
            order,
            spec_element_start(s, order, pos, i),
            s.len() as int,
            None,
            depth,
        ) == Ok::<(ElementModel, int), ParseError>((#[trigger] all[i], ends[i])) by {
            if i > 0 {
                assert(ends[i] == rest_ends[i - 1]);
                assert(all[i] == rest[i - 1]);
                assert(spec_element_start(s, order, pos, i) == spec_element_start(
                    s,
                    order,
                    frame.next,
                    i - 1,
                ));
            }
        }
        if rest_ends.len() > 0 {
            assert(ends[ends.len() - 1] == rest_ends[rest_ends.len() - 1]);
        }
    }
}

} // verus!
