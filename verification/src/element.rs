//! Data elements: the tagged units of the element stream, and the arrays
//! that are made of other elements.

use vstd::prelude::*;
use crate::array::{
    parse_array_header,
    parse_character_array,
    parse_numeric_matrix_subelements,
    parse_sparse_matrix_subelements,
    spec_array_header,
    spec_character_array,
    spec_numeric_matrix,
    spec_sparse_matrix,
};
use crate::data::ByteOrder;
use crate::inflate::{inflate, zlib_inflated};
use crate::model::{ArrayHeaderModel, ElementModel};
use crate::parse::{
    elements_view,
    error_at,
    lemma_structure_view,
    names_view,
    replace_err_slice,
    ArrayHeader,
    ArrayType,
    DataElement,
    DataType,
    ErrorKind,
    ParseError,
    Structure,
};
use crate::structure::{
    parse_struct_field_name_length,
    parse_struct_names,
    spec_field_name_length,
    spec_struct_names,
};
use crate::subelement::str_view;
use crate::tag::{parse_data_element_tag, spec_tag, DataElementTag};

verus! {

/// How many compressed elements may lie inside one another.
pub const MAX_COMPRESSION_DEPTH: u32 = 16;

/// Where an element lies: its tag, its payload from `start` up to `end`,
/// and the position `next` of what follows it.
pub struct ElementFrame {
    pub tag: DataElementTag,
    pub start: int,
    pub end: int,
    pub next: int,
}

/// The frame of the element that starts at `pos` in the window that ends
/// at `end`.
///
/// The payload follows the tag and has the length that the tag gives. No
/// padding follows a compressed element. After another element comes the
/// tag's padding, or as much of it as the window still holds.
pub open spec fn spec_frame(s: Seq<u8>, order: ByteOrder, pos: int, end: int) -> Result<
    ElementFrame,
    ParseError,
> {
    match spec_tag(s, order, pos, end) {
        Err(e) => Err(e),
        Ok((tag, p)) => {
            let stop = p + tag.data_byte_size;
            if end < stop {
                Err(error_at(ErrorKind::UnexpectedEof, p))
            } else {
                Ok(
                    ElementFrame {
                        tag,
                        start: p,
                        end: stop,
                        next: if tag.data_type == DataType::Compressed {
                            stop
                        } else if end - stop >= tag.padding_byte_size {
                            stop + tag.padding_byte_size
                        } else {
                            end
                        },
                    },
                )
            }
        },
    }
}

/// `rest` with `first` put before it.
pub open spec fn prefixed_elements(
    first: Seq<ElementModel>,
    rest: Result<Seq<ElementModel>, ParseError>,
) -> Result<Seq<ElementModel>, ParseError> {
    match rest {
        Err(e) => Err(e),
        Ok(r) => Ok(first + r),
    }
}

/// The values of the fields of a structure from field `k` on, the first of
/// them starting at `pos`: one element for each name, each with its name
/// supplied.
pub open spec fn spec_struct_fields(
    s: Seq<u8>,
    order: ByteOrder,
    pos: int,
    end: int,
    names: Seq<Seq<char>>,
    k: int,
    depth: nat,
) -> Result<Seq<ElementModel>, ParseError>
    decreases depth, end - pos, 2int,
{
    if k < 0 || k >= names.len() {
        Ok(Seq::empty())
    } else {
        match spec_frame(s, order, pos, end) {
            Err(e) => Err(e),
            Ok(frame) => match spec_element_body(
                s,
                order,
                frame.tag,
                frame.start,
                frame.end,
                Some(names[k]),
                depth,
            ) {
                Err(e) => Err(e),
                Ok(value) => prefixed_elements(
                    seq![value],
                    spec_struct_fields(s, order, frame.next, end, names, k + 1, depth),
                ),
            },
        }
    }
}

/// The structure array whose payload starts at `pos`: the length of the
/// field names, the names, and one element for each name.
pub open spec fn spec_struct(
    s: Seq<u8>,
    order: ByteOrder,
    pos: int,
    end: int,
    header: ArrayHeaderModel,
    depth: nat,
) -> Result<ElementModel, ParseError>
    decreases depth, end - pos, 3int,
{
    match spec_field_name_length(s, order, pos, end) {
        Err(e) => Err(e),
        Ok((max_len, pos1)) => match spec_struct_names(s, order, pos1, end, max_len) {
            Err(e) => Err(e),
            Ok((field_names, pos2)) => match spec_struct_fields(
                s,
                order,
                pos2,
                end,
                field_names,
                0,
                depth,
            ) {
                Err(e) => Err(e),
                Ok(values) => Ok(ElementModel::StructureMatrix { header, field_names, values }),
            },
        },
    }
}

/// The array whose header starts at `pos` and whose payload ends at `end`.
/// Its class decides how the payload is read; an array of cells or of
/// objects is unsupported.
pub open spec fn spec_matrix(
    s: Seq<u8>,
    order: ByteOrder,
    pos: int,
    end: int,
    name: Option<Seq<char>>,
    depth: nat,
) -> Result<ElementModel, ParseError>
    decreases depth, end - pos, 4int,
{
    match spec_array_header(s, order, pos, end, name) {
        Err(e) => Err(e),
        Ok((header, p)) => match header.flags.class {
            ArrayType::Char => spec_character_array(s, order, p, end, header),
            ArrayType::Struct => spec_struct(s, order, p, end, header, depth),
            ArrayType::Sparse => spec_sparse_matrix(s, order, p, end, header),
            ArrayType::Cell | ArrayType::Object => Ok(ElementModel::Unsupported),
            _ => spec_numeric_matrix(s, order, p, end, header),
        },
    }
}

/// The element with the tag `tag` and the payload from `start` up to
/// `end`.
///
/// A matrix is an array. A compressed element is the element that its
/// decompressed payload holds; it may not stand where a name is supplied,
/// nor deeper than `depth` compressed elements inside one another. Every
/// other element is unsupported.
pub open spec fn spec_element_body(
    s: Seq<u8>,
    order: ByteOrder,
    tag: DataElementTag,
    start: int,
    end: int,
    name: Option<Seq<char>>,
    depth: nat,
) -> Result<ElementModel, ParseError>
    decreases depth, end - start, 6int,
{
    match tag.data_type {
        DataType::Matrix => spec_matrix(s, order, start, end, name, depth),
        DataType::Compressed => if name.is_some() {
            Err(error_at(ErrorKind::UnexpectedSubelement, start))
        } else {
            spec_compressed(s, order, start, end, depth)
        },
        _ => Ok(ElementModel::Unsupported),
    }
}

/// The compressed element whose payload lies from `start` up to `end`:
/// the element that the decompressed payload holds, unless `depth`
/// compressed elements lie around it already.
pub open spec fn spec_compressed(s: Seq<u8>, order: ByteOrder, start: int, end: int, depth: nat)
    -> Result<ElementModel, ParseError>
    decreases depth, end - start, 5int,
{
    if depth == 0 {
        Err(error_at(ErrorKind::Decompression, start))
    } else {
        spec_inflated_element(
            zlib_inflated(s.subrange(start, end)),
            order,
            start,
            (depth - 1) as nat,
        )
    }
}

/// The length of a decompressed payload.
pub open spec fn inflated_len(inflated: Option<Seq<u8>>) -> nat {
    match inflated {
        Some(buf) => buf.len(),
        None => 0,
    }
}

/// The element that a decompressed payload holds: the first element of
/// the buffer, whatever follows it. `None` stands for a payload that could
/// not be decompressed. Every failure is placed at `at`.
pub open spec fn spec_inflated_element(
    inflated: Option<Seq<u8>>,
    order: ByteOrder,
    at: int,
    depth: nat,
) -> Result<ElementModel, ParseError>
    decreases depth, inflated_len(inflated), 7int,
{
    match inflated {
        None => Err(error_at(ErrorKind::Decompression, at)),
        Some(buf) => match spec_next_element(buf, order, 0, buf.len() as int, None, depth) {
            Err(e) => Err(error_at(e.kind, at)),
            Ok((element, _)) => Ok(element),
        },
    }
}

/// The element that starts at `pos` in the window that ends at `end`, and
/// the position after it.
pub open spec fn spec_next_element(
    s: Seq<u8>,
    order: ByteOrder,
    pos: int,
    end: int,
    name: Option<Seq<char>>,
    depth: nat,
) -> Result<(ElementModel, int), ParseError>
    decreases depth, end - pos, 0int,
{
    match spec_frame(s, order, pos, end) {
        Err(e) => Err(e),
        Ok(frame) => match spec_element_body(
            s,
            order,
            frame.tag,
            frame.start,
            frame.end,
            name,
            depth,
        ) {
            Err(e) => Err(e),
            Ok(element) => Ok((element, frame.next)),
        },
    }
}

/// Stands for an element that is not read.
pub fn parse_unsupported_data_element() -> (r: DataElement)
    ensures
        r@ == ElementModel::Unsupported,
{
    DataElement::Unsupported
}

/// Reads the value of one field of a structure: the element that starts
/// at `pos`, with the field's name supplied.
///
/// Fails as `parse_next_data_element` does.
pub fn parse_struct_field(
    bytes: &[u8],
    order: ByteOrder,
    pos: usize,
    end: usize,
    name: &str,
    depth: u32,
) -> (r: Result<(DataElement, usize), ParseError>)
    requires
        pos <= end <= bytes.len(),
    ensures
        match r {
            Ok((element, next)) => spec_next_element(
                bytes@,
                order,
                pos as int,
                end as int,
                Some(name@),
                depth as nat,
            ) == Ok::<(ElementModel, int), ParseError>((element@, next as int)),
            Err(e) => spec_next_element(
                bytes@,
                order,
                pos as int,
                end as int,
                Some(name@),
                depth as nat,
            ) == Err::<(ElementModel, int), ParseError>(e),
        },
        r matches Ok((_, next)) ==> pos < next <= end,
    decreases depth, end - pos, 1int,
{
    parse_next_data_element(bytes, order, pos, end, Some(name), depth)
}

/// Reads the values of the fields of a structure, the first of them
/// starting at `pos`: one element for each name.
///
/// Fails with the error of the first field that cannot be read.
pub fn parse_struct_fields(
    bytes: &[u8],
    order: ByteOrder,
    pos: usize,
    end: usize,
    names: &Vec<String>,
    depth: u32,
) -> (r: Result<Vec<DataElement>, ParseError>)
    requires
        pos <= end <= bytes.len(),
    ensures
        match r {
            Ok(values) => spec_struct_fields(
                bytes@,
                order,
                pos as int,
                end as int,
                names_view(names@),
                0,
                depth as nat,
            ) == Ok::<Seq<ElementModel>, ParseError>(elements_view(values@)),
            Err(e) => spec_struct_fields(
                bytes@,
                order,
                pos as int,
                end as int,
                names_view(names@),
                0,
                depth as nat,
            ) == Err::<Seq<ElementModel>, ParseError>(e),
        },
        r matches Ok(values) ==> values@.len() == names@.len(),
    decreases depth, end - pos, 2int,
{
    let ghost all = names_view(names@);
    let mut result: Vec<DataElement> = Vec::new();
    let mut i: usize = pos;
    let mut k: usize = 0;
    proof {
        lemma_prefixed_by_nothing(
            spec_struct_fields(bytes@, order, pos as int, end as int, all, 0, depth as nat),
        );
        assert(elements_view(result@) =~= Seq::<ElementModel>::empty());
    }
    while k < names.len()
        invariant
            pos <= i <= end <= bytes.len(),
            k <= names.len(),
            all == names_view(names@),
            result@.len() == k,
            spec_struct_fields(bytes@, order, pos as int, end as int, all, 0, depth as nat)
                == prefixed_elements(
                elements_view(result@),
                spec_struct_fields(bytes@, order, i as int, end as int, all, k as int, depth as nat),
            ),
        decreases names.len() - k,
    {
        let ghost before = elements_view(result@);
        let field = parse_struct_field(bytes, order, i, end, names[k].as_str(), depth);
        proof {
            lemma_struct_fields_step(bytes@, order, i as int, end as int, all, k as int, depth as nat);
        }
        let (val, j) = match field {
            Ok(v) => v,
            Err(e) => {
                return Err(e);
            },
        };
        result.push(val);
        proof {
            assert(elements_view(result@) =~= before.push(val@));
            lemma_prefixed_twice(
                before,
                val@,
                spec_struct_fields(bytes@, order, j as int, end as int, all, k + 1, depth as nat),
            );
        }
        i = j;
        k += 1;
    }
    proof {
        assert(elements_view(result@) + Seq::<ElementModel>::empty() =~= elements_view(result@));
    }
    Ok(result)
}

/// Putting nothing before a result leaves it as it is.
pub proof fn lemma_prefixed_by_nothing(rest: Result<Seq<ElementModel>, ParseError>)
    ensures
        prefixed_elements(Seq::empty(), rest) == rest,
{
    if let Ok(r) = rest {
        assert(Seq::<ElementModel>::empty() + r =~= r);
    }
}

/// Putting one element before a result and then others before that is
/// putting the others with the element at their end before the result.
pub proof fn lemma_prefixed_twice(
    first: Seq<ElementModel>,
    value: ElementModel,
    rest: Result<Seq<ElementModel>, ParseError>,
)
    ensures
        prefixed_elements(first, prefixed_elements(seq![value], rest)) == prefixed_elements(
            first.push(value),
            rest,
        ),
{
    if let Ok(r) = rest {
        assert(first + (seq![value] + r) =~= first.push(value) + r);
    }
}

/// The values of the fields from field `k` on are the value of field `k`,
/// read as an element with the field's name supplied, and the values of
/// the fields after it, read from where that element ends.
pub proof fn lemma_struct_fields_step(
    s: Seq<u8>,
    order: ByteOrder,
    pos: int,
    end: int,
    names: Seq<Seq<char>>,
    k: int,
    depth: nat,
)
    requires
        0 <= k < names.len(),
    ensures
        spec_struct_fields(s, order, pos, end, names, k, depth) == (match spec_next_element(
            s,
            order,
            pos,
            end,
            Some(names[k]),
            depth,
        ) {
            Err(e) => Err(e),
            Ok((value, next)) => prefixed_elements(
                seq![value],
                spec_struct_fields(s, order, next, end, names, k + 1, depth),
            ),
        }),
{
}

/// Reads the payload of a structure array from `pos` on.
///
/// Fails with the error of the length of the field names, of the names or
/// of a field's value.
pub fn parse_struct(
    bytes: &[u8],
    order: ByteOrder,
    pos: usize,
    end: usize,
    header: ArrayHeader,
    depth: u32,
) -> (r: Result<Structure, ParseError>)
    requires
        pos <= end <= bytes.len(),
    ensures
        match r {
            Ok(structure) => spec_struct(
                bytes@,
                order,
                pos as int,
                end as int,
                header@,
                depth as nat,
            ) == Ok::<ElementModel, ParseError>(DataElement::StructureMatrix(structure)@),
            Err(e) => spec_struct(bytes@, order, pos as int, end as int, header@, depth as nat)
                == Err::<ElementModel, ParseError>(e),
        },
        r matches Ok(structure) ==> structure.wf(),
    decreases depth, end - pos, 3int,
{
    let (max_length, pos1) = match parse_struct_field_name_length(bytes, order, pos, end) {
        Ok(v) => v,
        Err(e) => {
            return Err(e);
        },
    };
    let (field_names, pos2) = match parse_struct_names(bytes, order, pos1, end, max_length) {
        Ok(v) => v,
        Err(e) => {
            return Err(e);
        },
    };
    let values = match parse_struct_fields(bytes, order, pos2, end, &field_names, depth) {
        Ok(v) => v,
        Err(e) => {
            return Err(e);
        },
    };
    let structure = Structure { header, field_names, values };
    proof {
        lemma_structure_view(structure);
    }
    Ok(structure)
}

/// Reads the array whose header starts at `pos` and whose payload ends at
/// `end`. A supplied name becomes the array's name.
///
/// Fails with the error of the header or of the payload that the array's
/// class asks for.
pub fn parse_matrix_data_element(
    bytes: &[u8],
    order: ByteOrder,
    pos: usize,
    end: usize,
    supplied_name: Option<&str>,
    depth: u32,
) -> (r: Result<DataElement, ParseError>)
    requires
        pos <= end <= bytes.len(),
    ensures
        match r {
            Ok(element) => spec_matrix(
                bytes@,
                order,
                pos as int,
                end as int,
                str_view(supplied_name),
                depth as nat,
            ) == Ok::<ElementModel, ParseError>(element@),
            Err(e) => spec_matrix(
                bytes@,
                order,
                pos as int,
                end as int,
                str_view(supplied_name),
                depth as nat,
            ) == Err::<ElementModel, ParseError>(e),
        },
    decreases depth, end - pos, 4int,
{
    let (header, p) = match parse_array_header(bytes, order, pos, end, supplied_name) {
        Ok(v) => v,
        Err(e) => {
            return Err(e);
        },
    };
    match header.flags.class {
        ArrayType::Char => parse_character_array(bytes, order, p, end, header),
        ArrayType::Struct => match parse_struct(bytes, order, p, end, header, depth) {
            Ok(structure) => Ok(DataElement::StructureMatrix(structure)),
            Err(e) => Err(e),
        },
        ArrayType::Sparse => parse_sparse_matrix_subelements(bytes, order, p, end, header),
        ArrayType::Cell | ArrayType::Object => Ok(parse_unsupported_data_element()),
        _ => parse_numeric_matrix_subelements(bytes, order, p, end, header),
    }
}

/// Gives the element that a decompressed payload holds: the first element
/// of the buffer. `None` stands for a payload that could not be
/// decompressed.
///
/// Fails with `Decompression` for `None`, and with the kind of the error
/// of the element in the buffer; every failure is placed at `at`.
pub fn parse_inflated_element(inflated: Option<Vec<u8>>, order: ByteOrder, at: usize, depth: u32)
    -> (r: Result<DataElement, ParseError>)
    ensures
        match r {
            Ok(element) => spec_inflated_element(
                inflated_view(inflated),
                order,
                at as int,
                depth as nat,
            ) == Ok::<ElementModel, ParseError>(element@),
            Err(e) => spec_inflated_element(inflated_view(inflated), order, at as int, depth as nat)
                == Err::<ElementModel, ParseError>(e),
        },
    decreases depth, inflated_len(inflated_view(inflated)), 7int,
{
    match inflated {
        None => Err(ParseError { kind: ErrorKind::Decompression, offset: at }),
        Some(buf) => match parse_next_data_element(buf.as_slice(), order, 0, buf.len(), None, depth) {
            Err(e) => Err(replace_err_slice(e, at)),
            Ok((element, _)) => Ok(element),
        },
    }
}

/// View of an optional buffer.
pub open spec fn inflated_view(inflated: Option<Vec<u8>>) -> Option<Seq<u8>> {
    match inflated {
        Some(buf) => Some(buf@),
        None => None,
    }
}

/// Reads the compressed element whose payload lies from `start` up to
/// `end`: decompresses the payload and reads the element that it holds.
/// `depth` says how many compressed elements may still lie inside one
/// another.
///
/// Fails with `Decompression` where `depth` is zero or the payload is
/// rejected, and with the kind of the error of the element inside; every
/// failure is placed at `start`.
pub fn parse_compressed_data_element(
    bytes: &[u8],
    order: ByteOrder,
    start: usize,
    end: usize,
    depth: u32,
) -> (r: Result<DataElement, ParseError>)
    requires
        start <= end <= bytes.len(),
    ensures
        match r {
            Ok(element) => spec_compressed(bytes@, order, start as int, end as int, depth as nat)
                == Ok::<ElementModel, ParseError>(element@),
            Err(e) => spec_compressed(bytes@, order, start as int, end as int, depth as nat)
                == Err::<ElementModel, ParseError>(e),
        },
    decreases depth, end - start, 5int,
{
    if depth == 0 {
        return Err(ParseError { kind: ErrorKind::Decompression, offset: start });
    }
    parse_inflated_element(inflate(bytes, start, end), order, start, depth - 1)
}

/// Reads the element with the tag `tag` and the payload from `start` up
/// to `end`.
///
/// Fails with `UnexpectedSubelement` where a compressed element stands
/// where a name is supplied, and with the error of the array or of the
/// compressed element.
pub fn parse_element_body(
    bytes: &[u8],
    order: ByteOrder,
    tag: DataElementTag,
    start: usize,
    end: usize,
    name: Option<&str>,
    depth: u32,
) -> (r: Result<DataElement, ParseError>)
    requires
        start <= end <= bytes.len(),
    ensures
        match r {
            Ok(element) => spec_element_body(
                bytes@,
                order,
                tag,
                start as int,
                end as int,
                str_view(name),
                depth as nat,
            ) == Ok::<ElementModel, ParseError>(element@),
            Err(e) => spec_element_body(
                bytes@,
                order,
                tag,
                start as int,
                end as int,
                str_view(name),
                depth as nat,
            ) == Err::<ElementModel, ParseError>(e),
        },
    decreases depth, end - start, 6int,
{
    match tag.data_type {
        DataType::Matrix => parse_matrix_data_element(bytes, order, start, end, name, depth),
        DataType::Compressed => {
            if name.is_some() {
                return Err(ParseError { kind: ErrorKind::UnexpectedSubelement, offset: start });
            }
            parse_compressed_data_element(bytes, order, start, end, depth)
        },
        _ => Ok(parse_unsupported_data_element()),
    }
}

/// Reads the element that starts at `pos` in the window that ends at
/// `end`. A supplied name becomes the name of the array that the element
/// holds. `depth` says how many compressed elements may lie inside one
/// another.
///
/// Fails with the tag's error; with `UnexpectedEof` where the window ends
/// inside the payload; and with the error of the element's body.
pub fn parse_next_data_element(
    bytes: &[u8],
    order: ByteOrder,
    pos: usize,
    end: usize,
    name: Option<&str>,
    depth: u32,
) -> (r: Result<(DataElement, usize), ParseError>)
    requires
        pos <= end <= bytes.len(),
    ensures
        match r {
            Ok((element, next)) => spec_next_element(
                bytes@,
                order,
                pos as int,
                end as int,
                str_view(name),
                depth as nat,
            ) == Ok::<(ElementModel, int), ParseError>((element@, next as int)),
            Err(e) => spec_next_element(
                bytes@,
                order,
                pos as int,
                end as int,
                str_view(name),
                depth as nat,
            ) == Err::<(ElementModel, int), ParseError>(e),
        },
        r matches Ok((_, next)) ==> pos < next <= end,
    decreases depth, end - pos, 0int,
{
    let (tag, p) = match parse_data_element_tag(bytes, order, pos, end) {
        Ok(v) => v,
        Err(e) => {
            return Err(e);
        },
    };
    if end - p < tag.data_byte_size as usize {
        return Err(ParseError { kind: ErrorKind::UnexpectedEof, offset: p });
    }
    let stop: usize = p + tag.data_byte_size as usize;
    let data_element = match parse_element_body(bytes, order, tag, p, stop, name, depth) {
        Ok(v) => v,
        Err(e) => {
            return Err(e);
        },
    };
    let num_padding_bytes: usize = if tag.data_type == DataType::Compressed {
        0
    } else {
        tag.padding_byte_size as usize
    };
    if end - stop >= num_padding_bytes {
        Ok((data_element, stop + num_padding_bytes))
    } else {
        Ok((data_element, end))
    }
}

} // verus!
