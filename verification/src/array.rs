//! The arrays: header, payload by class, and the element that wraps them.

use vstd::prelude::*;
use crate::data::ByteOrder;
use crate::extent::element_count;
use crate::model::{product, ArrayHeaderModel, ElementModel, NumericSeq};
use crate::parse::{
    compatible,
    error_at,
    numeric_data_types_are_compatible,
    ArrayHeader,
    Character,
    DataElement,
    DataType,
    ErrorKind,
    Numeric,
    NumericData,
    ParseError,
    Sparse,
};
use crate::subelement::{
    maybe_parse_array_name_subelement,
    parse_array_flags_subelement,
    parse_column_index_array_subelement,
    parse_dimensions_array_subelement,
    parse_numeric_subelement,
    parse_row_index_array_subelement,
    spec_array_flags,
    spec_dimensions,
    spec_index_vector,
    spec_maybe_array_name,
    spec_numeric_subelement,
    str_view,
};
use crate::text::{parse_character_array_data, spec_character_data};

verus! {

/// The array header that starts at `pos`, and the position after it: the
/// flags, the extents and the name, in this order.
pub open spec fn spec_array_header(
    s: Seq<u8>,
    order: ByteOrder,
    pos: int,
    end: int,
    supplied: Option<Seq<char>>,
) -> Result<(ArrayHeaderModel, int), ParseError> {
    match spec_array_flags(s, order, pos, end) {
        Err(e) => Err(e),
        Ok((flags, pos1)) => match spec_dimensions(s, order, pos1, end) {
            Err(e) => Err(e),
            Ok((dimensions, pos2)) => match spec_maybe_array_name(s, order, pos2, end, supplied) {
                Err(e) => Err(e),
                Ok((name, pos3)) => Ok((ArrayHeaderModel { flags, dimensions, name }, pos3)),
            },
        },
    }
}

/// Reads the array header that starts at `pos` in the window that ends at
/// `end`. A supplied name becomes the array's name.
///
/// Fails with the first error among those of the flags, the extents and
/// the name.
pub fn parse_array_header(
    bytes: &[u8],
    order: ByteOrder,
    pos: usize,
    end: usize,
    supplied_name: Option<&str>,
) -> (r: Result<(ArrayHeader, usize), ParseError>)
    requires
        pos <= end <= bytes.len(),
    ensures
        match r {
            Ok((header, next)) => spec_array_header(
                bytes@,
                order,
                pos as int,
                end as int,
                str_view(supplied_name),
            ) == Ok::<(ArrayHeaderModel, int), ParseError>((header@, next as int)),
            Err(e) => spec_array_header(
                bytes@,
                order,
                pos as int,
                end as int,
                str_view(supplied_name),
            ) == Err::<(ArrayHeaderModel, int), ParseError>(e),
        },
        r matches Ok((header, next)) ==> pos < next <= end && header.dimensions@.len() >= 2,
{
    let (flags, pos1) = match parse_array_flags_subelement(bytes, order, pos, end) {
        Ok(v) => v,
        Err(e) => {
            return Err(e);
        },
    };
    let (dimensions, pos2) = match parse_dimensions_array_subelement(bytes, order, pos1, end) {
        Ok(v) => v,
        Err(e) => {
            return Err(e);
        },
    };
    let (name, pos3) = match maybe_parse_array_name_subelement(bytes, order, pos2, end, supplied_name) {
        Ok(v) => v,
        Err(e) => {
            return Err(e);
        },
    };
    Ok((ArrayHeader { flags, dimensions, name }, pos3))
}

/// The numeric subelement that starts at `pos`, for an array of `count`
/// values of type `array_type`, and the position after it. It holds
/// exactly `count` values, of a type that may stand for `array_type`.
pub open spec fn spec_dense_part(
    s: Seq<u8>,
    order: ByteOrder,
    pos: int,
    end: int,
    count: int,
    array_type: DataType,
) -> Result<(NumericSeq, int), ParseError> {
    match spec_numeric_subelement(s, order, pos, end) {
        Err(e) => Err(e),
        Ok((data, next)) => if data.values.len() == count && compatible(
            array_type,
            data.data_type,
        ) {
            Ok((data, next))
        } else {
            Err(error_at(ErrorKind::Mismatch, pos))
        },
    }
}

/// The dense numeric array whose payload starts at `pos`: the real part
/// and, for a complex array, the imaginary part, each with one value for
/// each element of the array. An array of a class without numeric values
/// is unsupported.
pub open spec fn spec_numeric_matrix(
    s: Seq<u8>,
    order: ByteOrder,
    pos: int,
    end: int,
    header: ArrayHeaderModel,
) -> Result<ElementModel, ParseError> {
    match header.flags.class.spec_numeric_data_type() {
        None => Ok(ElementModel::Unsupported),
        Some(array_type) => match spec_dense_part(
            s,
            order,
            pos,
            end,
            product(header.dimensions),
            array_type,
        ) {
            Err(e) => Err(e),
            Ok((real_part, pos1)) => if header.flags.complex {
                match spec_dense_part(s, order, pos1, end, product(header.dimensions), array_type) {
                    Err(e) => Err(e),
                    Ok((imag_part, _)) => Ok(
                        ElementModel::NumericMatrix { header, real_part, imag_part: Some(imag_part) },
                    ),
                }
            } else {
                Ok(ElementModel::NumericMatrix { header, real_part, imag_part: None })
            },
        },
    }
}

/// Reads one part of a dense numeric array.
fn parse_dense_part(
    bytes: &[u8],
    order: ByteOrder,
    pos: usize,
    end: usize,
    count: Option<usize>,
    array_type: DataType,
    Ghost(n): Ghost<int>,
) -> (r: Result<(NumericData, usize), ParseError>)
    requires
        pos <= end <= bytes.len(),
        match count {
            Some(c) => n == c,
            None => n < 0 || n > usize::MAX,
        },
    ensures
        match r {
            Ok((data, next)) => spec_dense_part(
                bytes@,
                order,
                pos as int,
                end as int,
                n,
                array_type,
            ) == Ok::<(NumericSeq, int), ParseError>((data@, next as int)),
            Err(e) => spec_dense_part(bytes@, order, pos as int, end as int, n, array_type) == Err::<
                (NumericSeq, int),
                ParseError,
            >(e),
        },
        r matches Ok((_, next)) ==> pos < next <= end,
{
    let (data, next) = match parse_numeric_subelement(bytes, order, pos, end) {
        Ok(v) => v,
        Err(e) => {
            return Err(e);
        },
    };
    let fits = match count {
        Some(c) => data.len() == c,
        None => false,
};
    if !(fits && numeric_data_types_are_compatible(array_type, data.data_type())) {
        return Err(ParseError { kind: ErrorKind::Mismatch, offset: pos });
    }
    Ok((data, next))
}

/// Reads the payload of a dense numeric array from `pos` on. An array of
/// a class without numeric values is unsupported, and nothing is read of
/// it.
///
/// Fails with the error of a numeric subelement, and with `Mismatch` where
/// a part does not hold one value for each element of the array or has a
/// type that may not stand for the array's.
pub fn parse_numeric_matrix_subelements(
    bytes: &[u8],
    order: ByteOrder,
    pos: usize,
    end: usize,
    header: ArrayHeader,
) -> (r: Result<DataElement, ParseError>)
    requires
        pos <= end <= bytes.len(),
    ensures
        match r {
            Ok(element) => spec_numeric_matrix(bytes@, order, pos as int, end as int, header@)
                == Ok::<ElementModel, ParseError>(element@),
            Err(e) => spec_numeric_matrix(bytes@, order, pos as int, end as int, header@) == Err::<
                ElementModel,
                ParseError,
            >(e),
        },
{
    let array_type = match header.flags.class.numeric_data_type() {
        Some(t) => t,
        None => {
            return Ok(DataElement::Unsupported);
        },
    };
    let count = element_count(&header.dimensions);
    let ghost n = product(header.dimensions@);
    let (real_part, pos1) = match parse_dense_part(bytes, order, pos, end, count, array_type, Ghost(n)) {
        Ok(v) => v,
        Err(e) => {
            return Err(e);
        },
    };
    let imag_part = if header.flags.complex {
        match parse_dense_part(bytes, order, pos1, end, count, array_type, Ghost(n)) {
            Ok((data, _)) => Some(data),
            Err(e) => {
                return Err(e);
            },
        }
    } else {
        None
    };
    Ok(DataElement::NumericMatrix(Numeric { header, real_part, imag_part }))
}

/// The numeric subelement that starts at `pos`, for a sparse array with
/// room for `nzmax` entries, and the position after it. It holds exactly
/// `nzmax` values, of any numeric type.
pub open spec fn spec_sparse_part(s: Seq<u8>, order: ByteOrder, pos: int, end: int, nzmax: int)
    -> Result<(NumericSeq, int), ParseError> {
    match spec_numeric_subelement(s, order, pos, end) {
        Err(e) => Err(e),
        Ok((data, next)) => if data.values.len() == nzmax {
            Ok((data, next))
        } else {
            Err(error_at(ErrorKind::Mismatch, pos))
        },
    }
}

/// The sparse array whose payload starts at `pos`: the row indices, the
/// column shifts, the real part and, for a complex array, the imaginary
/// part.
pub open spec fn spec_sparse_matrix(
    s: Seq<u8>,
    order: ByteOrder,
    pos: int,
    end: int,
    header: ArrayHeaderModel,
) -> Result<ElementModel, ParseError> {
    match spec_index_vector(s, order, pos, end) {
        Err(e) => Err(e),
        Ok((row_index, pos1)) => match spec_index_vector(s, order, pos1, end) {
            Err(e) => Err(e),
            Ok((column_index, pos2)) => match spec_sparse_part(
                s,
                order,
                pos2,
                end,
                header.flags.nzmax as int,
            ) {
                Err(e) => Err(e),
                Ok((real_part, pos3)) => if header.flags.complex {
                    match spec_sparse_part(s, order, pos3, end, header.flags.nzmax as int) {
                        Err(e) => Err(e),
                        Ok((imag_part, _)) => Ok(
                            ElementModel::SparseMatrix {
                                header,
                                row_index,
                                column_index,
                                real_part,
                                imag_part: Some(imag_part),
                            },
                        ),
                    }
                } else {
                    Ok(
                        ElementModel::SparseMatrix {
                            header,
                            row_index,
                            column_index,
                            real_part,
                            imag_part: None,
                        },
                    )
                },
            },
        },
    }
}

/// Reads one part of a sparse array.
fn parse_sparse_part(bytes: &[u8], order: ByteOrder, pos: usize, end: usize, nzmax: usize) -> (r:
    Result<(NumericData, usize), ParseError>)
    requires
        pos <= end <= bytes.len(),
    ensures
        match r {
            Ok((data, next)) => spec_sparse_part(bytes@, order, pos as int, end as int, nzmax as int)
                == Ok::<(NumericSeq, int), ParseError>((data@, next as int)),
            Err(e) => spec_sparse_part(bytes@, order, pos as int, end as int, nzmax as int) == Err::<
                (NumericSeq, int),
                ParseError,
            >(e),
        },
        r matches Ok((_, next)) ==> pos < next <= end,
{
    let (data, next) = match parse_numeric_subelement(bytes, order, pos, end) {
        Ok(v) => v,
        Err(e) => {
            return Err(e);
        },
    };
    if data.len() != nzmax {
        return Err(ParseError { kind: ErrorKind::Mismatch, offset: pos });
    }
    Ok((data, next))
}

/// Reads the payload of a sparse array from `pos` on.
///
/// Fails with the error of an index vector or of a numeric subelement, and
/// with `Mismatch` where a part does not hold as many values as the flags
/// give room for.
pub fn parse_sparse_matrix_subelements(
    bytes: &[u8],
    order: ByteOrder,
    pos: usize,
    end: usize,
    header: ArrayHeader,
) -> (r: Result<DataElement, ParseError>)
    requires
        pos <= end <= bytes.len(),
    ensures
        match r {
            Ok(element) => spec_sparse_matrix(bytes@, order, pos as int, end as int, header@)
                == Ok::<ElementModel, ParseError>(element@),
            Err(e) => spec_sparse_matrix(bytes@, order, pos as int, end as int, header@) == Err::<
                ElementModel,
                ParseError,
            >(e),
        },
{
    let (row_index, pos1) = match parse_row_index_array_subelement(bytes, order, pos, end) {
        Ok(v) => v,
        Err(e) => {
            return Err(e);
        },
    };
    let (column_index, pos2) = match parse_column_index_array_subelement(bytes, order, pos1, end) {
        Ok(v) => v,
        Err(e) => {
            return Err(e);
        },
    };
    let (real_part, pos3) = match parse_sparse_part(bytes, order, pos2, end, header.flags.nzmax) {
        Ok(v) => v,
        Err(e) => {
            return Err(e);
        },
    };
    let imag_part = if header.flags.complex {
        match parse_sparse_part(bytes, order, pos3, end, header.flags.nzmax) {
            Ok((data, _)) => Some(data),
            Err(e) => {
                return Err(e);
            },
        }
    } else {
        None
    };
    Ok(DataElement::SparseMatrix(Sparse { header, row_index, column_index, real_part, imag_part }))
}

/// The character array whose payload starts at `pos`: the real part and,
/// for a complex array, the imaginary part, each with one unit or scalar
/// value for each cell.
pub open spec fn spec_character_array(
    s: Seq<u8>,
    order: ByteOrder,
    pos: int,
    end: int,
    header: ArrayHeaderModel,
) -> Result<ElementModel, ParseError> {
    match spec_character_data(s, order, pos, end, product(header.dimensions)) {
        Err(e) => Err(e),
        Ok((real_part, pos1)) => if header.flags.complex {
            match spec_character_data(s, order, pos1, end, product(header.dimensions)) {
                Err(e) => Err(e),
                Ok((imag_part, _)) => Ok(
                    ElementModel::CharacterMatrix { header, real_part, imag_part: Some(imag_part) },
                ),
            }
        } else {
            Ok(ElementModel::CharacterMatrix { header, real_part, imag_part: None })
        },
    }
}

/// Reads the payload of a character array from `pos` on.
///
/// Fails with the error of a character subelement.
pub fn parse_character_array(
    bytes: &[u8],
    order: ByteOrder,
    pos: usize,
    end: usize,
    header: ArrayHeader,
) -> (r: Result<DataElement, ParseError>)
    requires
        pos <= end <= bytes.len(),
    ensures
        match r {
            Ok(element) => spec_character_array(bytes@, order, pos as int, end as int, header@)
                == Ok::<ElementModel, ParseError>(element@),
            Err(e) => spec_character_array(bytes@, order, pos as int, end as int, header@) == Err::<
                ElementModel,
                ParseError,
            >(e),
        },
{
    let (real_part, pos1) = match parse_character_array_data(
        bytes,
        order,
        pos,
        end,
        &header.dimensions,
    ) {
        Ok(v) => v,
        Err(e) => {
            return Err(e);
        },
    };
    let imag_part = if header.flags.complex {
        match parse_character_array_data(bytes, order, pos1, end, &header.dimensions) {
            Ok((data, _)) => Some(data),
            Err(e) => {
                return Err(e);
            },
        }
    } else {
        None
    };
    Ok(DataElement::CharacterMatrix(Character { header, real_part, imag_part }))
}

} // verus!
