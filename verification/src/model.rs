//! Mathematical models of the decoded values.
//!
//! Each executable type of the data model has a view into one of these
//! types; the wire format is described over them.

use vstd::prelude::*;
use crate::parse::{ArrayFlags, DataType};

verus! {

/// The file header: its descriptive text and the byte order of the file.
pub struct HeaderModel {
    pub text: Seq<char>,
    pub is_little_endian: bool,
}

/// A numeric payload: the type that encoded it and its values in file order.
/// Floating-point payloads are modelled by their IEEE-754 bit patterns.
pub struct NumericSeq {
    pub data_type: DataType,
    pub values: Seq<int>,
}

/// A character payload: decoded Unicode scalars, or raw 16-bit code units.
pub enum TextSeq {
    Unicode(Seq<char>),
    NonUnicode(Seq<u16>),
}

/// Flags, extents and name shared by every array.
pub struct ArrayHeaderModel {
    pub flags: ArrayFlags,
    pub dimensions: Seq<i32>,
    pub name: Seq<char>,
}

/// A decoded element.
#[allow(inconsistent_fields)]
pub enum ElementModel {
    NumericMatrix { header: ArrayHeaderModel, real_part: NumericSeq, imag_part: Option<NumericSeq> },
    SparseMatrix {
        header: ArrayHeaderModel,
        row_index: Seq<usize>,
        column_index: Seq<usize>,
        real_part: NumericSeq,
        imag_part: Option<NumericSeq>,
    },
    CharacterMatrix { header: ArrayHeaderModel, real_part: TextSeq, imag_part: Option<TextSeq> },
    StructureMatrix {
        header: ArrayHeaderModel,
        field_names: Seq<Seq<char>>,
        values: Seq<ElementModel>,
    },
    Unsupported,
}

/// Product of the extents.
pub open spec fn product(dims: Seq<i32>) -> int
    decreases dims.len(),
{
    if dims.len() == 0 {
        1
    } else {
        product(dims.drop_last()) * (dims.last() as int)
    }
}

impl TextSeq {
    /// The number of cells that the payload fills: one for each scalar
    /// value or raw unit.
    pub open spec fn len(self) -> nat {
        match self {
            TextSeq::Unicode(text) => text.len(),
            TextSeq::NonUnicode(units) => units.len(),
        }
    }
}

impl ElementModel {
    /// The name of the array, where the element is one that was read.
    pub open spec fn name(self) -> Option<Seq<char>> {
        match self {
            ElementModel::NumericMatrix { header, .. } => Some(header.name),
            ElementModel::SparseMatrix { header, .. } => Some(header.name),
            ElementModel::CharacterMatrix { header, .. } => Some(header.name),
            ElementModel::StructureMatrix { header, .. } => Some(header.name),
            ElementModel::Unsupported => None,
        }
    }

    /// Whether the element bears the name that its place supplies, where
    /// the place supplies one and the element was read.
    pub open spec fn bears(self, supplied: Option<Seq<char>>) -> bool {
        match (supplied, self.name()) {
            (Some(n), Some(name)) => name == n,
            _ => true,
        }
    }

    /// Whether the parts of the element agree with one another, and those
    /// of every element inside it.
    ///
    /// A dense numeric array holds one value for each element of the
    /// array, in the real and in the imaginary part, and has an imaginary
    /// part exactly if it is complex. A sparse array holds as many values
    /// as its flags give room for. A character array holds one scalar
    /// value or raw unit for each cell. A structure has one value for each
    /// field name, and each value that was read bears its field's name.
    pub open spec fn well_formed(self) -> bool
        decreases self,
    {
        match self {
            ElementModel::NumericMatrix { header, real_part, imag_part } => {
                &&& real_part.values.len() == product(header.dimensions)
                &&& imag_part.is_some() == header.flags.complex
                &&& imag_part matches Some(imag) ==> imag.values.len() == product(header.dimensions)
            },
            ElementModel::SparseMatrix { header, real_part, imag_part, .. } => {
                &&& real_part.values.len() == header.flags.nzmax
                &&& imag_part.is_some() == header.flags.complex
                &&& imag_part matches Some(imag) ==> imag.values.len() == header.flags.nzmax
            },
            ElementModel::CharacterMatrix { header, real_part, imag_part } => {
                &&& real_part.len() == product(header.dimensions)
                &&& imag_part.is_some() == header.flags.complex
                &&& imag_part matches Some(imag) ==> imag.len() == product(header.dimensions)
            },
            ElementModel::StructureMatrix { field_names, values, .. } => {
                &&& field_names.len() == values.len()
                &&& forall|i: int|
                    0 <= i < values.len() ==> (#[trigger] values[i]).well_formed() && values[i].bears(
                        Some(field_names[i]),
                    )
            },
            ElementModel::Unsupported => true,
        }
    }
}

} // verus!
