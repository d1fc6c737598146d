//! The decoded tree and the decoder that builds it.

use vstd::prelude::*;
use crate::data::ByteOrder;
use crate::element::{
    lemma_prefixed_by_nothing,
    lemma_prefixed_twice,
    parse_next_data_element,
    prefixed_elements,
    spec_element_body,
    spec_frame,
    spec_next_element,
    MAX_COMPRESSION_DEPTH,
};
use crate::laws::lemma_parse_all_well_formed;
use crate::model::{ArrayHeaderModel, ElementModel, HeaderModel, NumericSeq, TextSeq};
use crate::primitive::{read_u16, u16_at};
use crate::text::{decode_utf8_text, same_text, spec_utf8_text};

verus! {

/// Type code of a data element tag.
#[derive(Debug, PartialEq, Eq, Clone, Copy, Structural)]
pub enum DataType {
    Int8,
    UInt8,
    Int16,
    UInt16,
    Int32,
    UInt32,
    Single,
    Double,
    Int64,
    UInt64,
    Matrix,
    Compressed,
    Utf8,
    Utf16,
    Utf32,
}

/// Class of an array.
#[derive(Debug, PartialEq, Eq, Clone, Copy, Structural)]
pub enum ArrayType {
    Cell,
    Struct,
    Object,
    Char,
    Sparse,
    Double,
    Single,
    Int8,
    UInt8,
    Int16,
    UInt16,
    Int32,
    UInt32,
    Int64,
    UInt64,
}

impl DataType {
    /// The number that stands for this type in a tag.
    pub open spec fn spec_code(self) -> int {
        match self {
            DataType::Int8 => 1,
            DataType::UInt8 => 2,
            DataType::Int16 => 3,
            DataType::UInt16 => 4,
            DataType::Int32 => 5,
            DataType::UInt32 => 6,
            DataType::Single => 7,
            DataType::Double => 9,
            DataType::Int64 => 12,
            DataType::UInt64 => 13,
            DataType::Matrix => 14,
            DataType::Compressed => 15,
            DataType::Utf8 => 16,
            DataType::Utf16 => 17,
            DataType::Utf32 => 18,
        }
    }

    /// The type that `code` stands for, if any.
    pub open spec fn of_code(code: int) -> Option<DataType> {
        if code == 1 {
            Some(DataType::Int8)
        } else if code == 2 {
            Some(DataType::UInt8)
        } else if code == 3 {
            Some(DataType::Int16)
        } else if code == 4 {
            Some(DataType::UInt16)
        } else if code == 5 {
            Some(DataType::Int32)
        } else if code == 6 {
            Some(DataType::UInt32)
        } else if code == 7 {
            Some(DataType::Single)
        } else if code == 9 {
            Some(DataType::Double)
        } else if code == 12 {
            Some(DataType::Int64)
        } else if code == 13 {
            Some(DataType::UInt64)
        } else if code == 14 {
            Some(DataType::Matrix)
        } else if code == 15 {
            Some(DataType::Compressed)
        } else if code == 16 {
            Some(DataType::Utf8)
        } else if code == 17 {
            Some(DataType::Utf16)
        } else if code == 18 {
            Some(DataType::Utf32)
        } else {
            None
        }
    }

    /// Bytes taken by one value of a numeric type; 0 for the other types.
    pub open spec fn spec_width(self) -> int {
        match self {
            DataType::Int8 | DataType::UInt8 => 1,
            DataType::Int16 | DataType::UInt16 => 2,
            DataType::Int32 | DataType::UInt32 | DataType::Single => 4,
            DataType::Int64 | DataType::UInt64 | DataType::Double => 8,
            _ => 0,
        }
    }

    /// Whether values of this type are numbers.
    pub open spec fn is_numeric(self) -> bool {
        self.spec_width() > 0
    }

    /// Whether values of this type are integers.
    pub open spec fn is_integer(self) -> bool {
        self.is_numeric() && self != DataType::Single && self != DataType::Double
    }

    /// How wide the values of a numeric type are, on a scale from 0
    /// (one byte) to 3 (eight bytes or floating point).
    pub open spec fn spec_rank(self) -> int {
        match self {
            DataType::Int8 | DataType::UInt8 => 0,
            DataType::Int16 | DataType::UInt16 => 1,
            DataType::Int32 | DataType::UInt32 => 2,
            _ => 3,
        }
    }

    /// The number that stands for this type in a tag.
    pub fn code(self) -> (c: u32)
        ensures
            c == self.spec_code(),
            DataType::of_code(c as int) == Some(self),
    {
        match self {
            DataType::Int8 => 1,
            DataType::UInt8 => 2,
            DataType::Int16 => 3,
            DataType::UInt16 => 4,
            DataType::Int32 => 5,
            DataType::UInt32 => 6,
            DataType::Single => 7,
            DataType::Double => 9,
            DataType::Int64 => 12,
            DataType::UInt64 => 13,
            DataType::Matrix => 14,
            DataType::Compressed => 15,
            DataType::Utf8 => 16,
            DataType::Utf16 => 17,
            DataType::Utf32 => 18,
        }
    }

    /// The type that `code` stands for, if any.
    pub fn from_u32(code: u32) -> (r: Option<DataType>)
        ensures
            r == DataType::of_code(code as int),
            r matches Some(t) ==> t.spec_code() == code,
    {
        match code {
            1 => Some(DataType::Int8),
            2 => Some(DataType::UInt8),
            3 => Some(DataType::Int16),
            4 => Some(DataType::UInt16),
            5 => Some(DataType::Int32),
            6 => Some(DataType::UInt32),
            7 => Some(DataType::Single),
            9 => Some(DataType::Double),
            12 => Some(DataType::Int64),
            13 => Some(DataType::UInt64),
            14 => Some(DataType::Matrix),
            15 => Some(DataType::Compressed),
            16 => Some(DataType::Utf8),
            17 => Some(DataType::Utf16),
            18 => Some(DataType::Utf32),
            _ => None,
        }
    }

    /// Bytes taken by one value of a numeric type; 0 for the other types.
    pub fn width(self) -> (w: u32)
        ensures
            w == self.spec_width(),
    {
        match self {
            DataType::Int8 | DataType::UInt8 => 1,
            DataType::Int16 | DataType::UInt16 => 2,
            DataType::Int32 | DataType::UInt32 | DataType::Single => 4,
            DataType::Int64 | DataType::UInt64 | DataType::Double => 8,
            _ => 0,
        }
    }
}

impl ArrayType {
    /// The number that stands for this class in the array flags.
    pub open spec fn spec_code(self) -> int {
        match self {
            ArrayType::Cell => 1,
            ArrayType::Struct => 2,
            ArrayType::Object => 3,
            ArrayType::Char => 4,
            ArrayType::Sparse => 5,
            ArrayType::Double => 6,
            ArrayType::Single => 7,
            ArrayType::Int8 => 8,
            ArrayType::UInt8 => 9,
            ArrayType::Int16 => 10,
            ArrayType::UInt16 => 11,
            ArrayType::Int32 => 12,
            ArrayType::UInt32 => 13,
            ArrayType::Int64 => 14,
            ArrayType::UInt64 => 15,
        }
    }

    /// The class that `code` stands for, if any.
    pub open spec fn of_code(code: int) -> Option<ArrayType> {
        if code == 1 {
            Some(ArrayType::Cell)
        } else if code == 2 {
            Some(ArrayType::Struct)
        } else if code == 3 {
            Some(ArrayType::Object)
        } else if code == 4 {
            Some(ArrayType::Char)
        } else if code == 5 {
            Some(ArrayType::Sparse)
        } else if code == 6 {
            Some(ArrayType::Double)
        } else if code == 7 {
            Some(ArrayType::Single)
        } else if code == 8 {
            Some(ArrayType::Int8)
        } else if code == 9 {
            Some(ArrayType::UInt8)
        } else if code == 10 {
            Some(ArrayType::Int16)
        } else if code == 11 {
            Some(ArrayType::UInt16)
        } else if code == 12 {
            Some(ArrayType::Int32)
        } else if code == 13 {
            Some(ArrayType::UInt32)
        } else if code == 14 {
            Some(ArrayType::Int64)
        } else if code == 15 {
            Some(ArrayType::UInt64)
        } else {
            None
        }
    }

    /// The numeric type whose values an array of this class holds, if it
    /// is a numeric class.
    pub open spec fn spec_numeric_data_type(self) -> Option<DataType> {
        match self {
            ArrayType::Double => Some(DataType::Double),
            ArrayType::Single => Some(DataType::Single),
            ArrayType::Int8 => Some(DataType::Int8),
            ArrayType::UInt8 => Some(DataType::UInt8),
            ArrayType::Int16 => Some(DataType::Int16),
            ArrayType::UInt16 => Some(DataType::UInt16),
            ArrayType::Int32 => Some(DataType::Int32),
            ArrayType::UInt32 => Some(DataType::UInt32),
            ArrayType::Int64 => Some(DataType::Int64),
            ArrayType::UInt64 => Some(DataType::UInt64),
            _ => None,
        }
    }

    /// The number that stands for this class in the array flags.
    pub fn code(self) -> (c: u8)
        ensures
            c == self.spec_code(),
            ArrayType::of_code(c as int) == Some(self),
            1 <= c <= 15,
    {
        match self {
            ArrayType::Cell => 1,
            ArrayType::Struct => 2,
            ArrayType::Object => 3,
            ArrayType::Char => 4,
            ArrayType::Sparse => 5,
            ArrayType::Double => 6,
            ArrayType::Single => 7,
            ArrayType::Int8 => 8,
            ArrayType::UInt8 => 9,
            ArrayType::Int16 => 10,
            ArrayType::UInt16 => 11,
            ArrayType::Int32 => 12,
            ArrayType::UInt32 => 13,
            ArrayType::Int64 => 14,
            ArrayType::UInt64 => 15,
        }
    }

    /// The class that `code` stands for, if any: exactly the codes 1 to 15
    /// stand for one.
    pub fn from_u8(code: u8) -> (r: Option<ArrayType>)
        ensures
            r == ArrayType::of_code(code as int),
            r.is_some() <==> 1 <= code <= 15,
            r matches Some(t) ==> t.spec_code() == code,
    {
        match code {
            1 => Some(ArrayType::Cell),
            2 => Some(ArrayType::Struct),
            3 => Some(ArrayType::Object),
            4 => Some(ArrayType::Char),
            5 => Some(ArrayType::Sparse),
            6 => Some(ArrayType::Double),
            7 => Some(ArrayType::Single),
            8 => Some(ArrayType::Int8),
            9 => Some(ArrayType::UInt8),
            10 => Some(ArrayType::Int16),
            11 => Some(ArrayType::UInt16),
            12 => Some(ArrayType::Int32),
            13 => Some(ArrayType::UInt32),
            14 => Some(ArrayType::Int64),
            15 => Some(ArrayType::UInt64),
            _ => None,
        }
    }

    /// The numeric type whose values an array of this class holds, if it
    /// is a numeric class.
    pub fn numeric_data_type(&self) -> (r: Option<DataType>)
        ensures
            r == self.spec_numeric_data_type(),
            r matches Some(t) ==> t.is_numeric(),
    {
        match self {
            ArrayType::Double => Some(DataType::Double),
            ArrayType::Single => Some(DataType::Single),
            ArrayType::Int8 => Some(DataType::Int8),
            ArrayType::UInt8 => Some(DataType::UInt8),
            ArrayType::Int16 => Some(DataType::Int16),
            ArrayType::UInt16 => Some(DataType::UInt16),
            ArrayType::Int32 => Some(DataType::Int32),
            ArrayType::UInt32 => Some(DataType::UInt32),
            ArrayType::Int64 => Some(DataType::Int64),
            ArrayType::UInt64 => Some(DataType::UInt64),
            _ => None,
        }
    }
}

/// Whether an array whose values have type `array_type` may be stored with
/// values of type `subelement_type`: as its own type, or narrowed to a type
/// that a writer may choose for small values. One-byte unsigned values may
/// stand for every type but `Int8`; two-byte values for types of four bytes
/// or more; `Int32` for the eight-byte and floating-point types.
pub open spec fn compatible(array_type: DataType, subelement_type: DataType) -> bool {
    array_type.is_numeric() && (subelement_type == array_type || (subelement_type
        == DataType::UInt8 && array_type != DataType::Int8) || ((subelement_type == DataType::Int16
        || subelement_type == DataType::UInt16) && array_type.spec_rank() >= 2) || (subelement_type
        == DataType::Int32 && array_type.spec_rank() >= 3))
}

/// Whether an array whose values have type `array_type` may be stored with
/// values of type `subelement_type`.
pub fn numeric_data_types_are_compatible(array_type: DataType, subelement_type: DataType) -> (r:
    bool)
    ensures
        r == compatible(array_type, subelement_type),
{
    match array_type {
        DataType::Int8 => match subelement_type {
            DataType::Int8 => true,
            _ => false,
        },
        DataType::UInt8 => match subelement_type {
            DataType::UInt8 => true,
            _ => false,
        },
        DataType::Int16 => match subelement_type {
            DataType::UInt8 | DataType::Int16 => true,
            _ => false,
        },
        DataType::UInt16 => match subelement_type {
            DataType::UInt8 | DataType::UInt16 => true,
            _ => false,
        },
        DataType::Int32 => match subelement_type {
            DataType::UInt8 | DataType::Int16 | DataType::UInt16 | DataType::Int32 => true,
            _ => false,
        },
        DataType::UInt32 => match subelement_type {
            DataType::UInt8 | DataType::Int16 | DataType::UInt16 | DataType::UInt32 => true,
            _ => false,
        },
        DataType::Int64 => match subelement_type {
            DataType::UInt8
            | DataType::Int16
            | DataType::UInt16
            | DataType::Int32
            | DataType::Int64 => true,
            _ => false,
        },
        DataType::UInt64 => match subelement_type {
            DataType::UInt8
            | DataType::Int16
            | DataType::UInt16
            | DataType::Int32
            | DataType::UInt64 => true,
            _ => false,
        },
        DataType::Single => match subelement_type {
            DataType::UInt8
            | DataType::Int16
            | DataType::UInt16
            | DataType::Int32
            | DataType::Single => true,
            _ => false,
        },
        DataType::Double => match subelement_type {
            DataType::UInt8
            | DataType::Int16
            | DataType::UInt16
            | DataType::Int32
            | DataType::Double => true,
            _ => false,
        },
        _ => false,
    }
}

/// What went wrong in a file.
#[derive(Debug, PartialEq, Eq, Clone, Copy, Structural)]
pub enum ErrorKind {
    /// The file header starts with a NUL byte, has no byte-order marker or
    /// has another version than 0x0100.
    BadHeader,
    /// A tag names no known data type, or its short form holds more than
    /// four bytes.
    InvalidTag,
    /// A subelement has a type or length that its place does not allow.
    UnexpectedSubelement,
    /// The array flags name no known class.
    InvalidArrayClass,
    /// Two parts of an array contradict each other.
    Mismatch,
    /// Text is not valid in its encoding.
    BadEncoding,
    /// A compressed element could not be decompressed.
    Decompression,
    /// The input ends inside an element.
    UnexpectedEof,
}

/// A failure and the byte offset in the input at which it was found.
#[derive(Debug, PartialEq, Eq, Clone, Copy, Structural)]
pub struct ParseError {
    pub kind: ErrorKind,
    pub offset: usize,
}

/// The error of kind `kind` at position `pos`.
pub open spec fn error_at(kind: ErrorKind, pos: int) -> ParseError {
    ParseError { kind, offset: pos as usize }
}

/// Moves an error to another position of the input, keeping its kind.
pub fn replace_err_slice(err: ParseError, offset: usize) -> (r: ParseError)
    ensures
        r.kind == err.kind,
        r.offset == offset,
{
    ParseError { kind: err.kind, offset }
}

/// The flags of an array: whether it is complex, global or logical, its
/// class, and for a sparse array the number of entries it has room for.
#[derive(Clone, Copy, Debug)]
pub struct ArrayFlags {
    pub complex: bool,
    pub global: bool,
    pub logical: bool,
    pub class: ArrayType,
    pub nzmax: usize,
}

/// The extents of an array; their product is the number of its elements.
pub type Dimensions = Vec<i32>;

/// The row of each stored entry of a sparse array.
pub type RowIndex = Vec<usize>;

/// For each column of a sparse array, the place of its first stored entry;
/// one more entry closes the last column.
pub type ColumnShift = Vec<usize>;

/// A numeric payload in column-major order. `Single` and `Double` hold the
/// IEEE-754 bit patterns of their values.
#[derive(Debug, PartialEq)]
pub enum NumericData {
    Int8(Vec<i8>),
    UInt8(Vec<u8>),
    Int16(Vec<i16>),
    UInt16(Vec<u16>),
    Int32(Vec<i32>),
    UInt32(Vec<u32>),
    Int64(Vec<i64>),
    UInt64(Vec<u64>),
    Single(Vec<u32>),
    Double(Vec<u64>),
}

impl NumericData {
    /// The type that encodes values of this kind.
    pub open spec fn spec_data_type(&self) -> DataType {
        match self {
            NumericData::Single(_) => DataType::Single,
            NumericData::Double(_) => DataType::Double,
            NumericData::Int8(_) => DataType::Int8,
            NumericData::UInt8(_) => DataType::UInt8,
            NumericData::Int16(_) => DataType::Int16,
            NumericData::UInt16(_) => DataType::UInt16,
            NumericData::Int32(_) => DataType::Int32,
            NumericData::UInt32(_) => DataType::UInt32,
            NumericData::Int64(_) => DataType::Int64,
            NumericData::UInt64(_) => DataType::UInt64,
        }
    }

    /// The values in their order, as integers.
    pub open spec fn spec_values(&self) -> Seq<int> {
        match self {
            NumericData::Single(v) => v@.map_values(|x: u32| x as int),
            NumericData::Double(v) => v@.map_values(|x: u64| x as int),
            NumericData::Int8(v) => v@.map_values(|x: i8| x as int),
            NumericData::UInt8(v) => v@.map_values(|x: u8| x as int),
            NumericData::Int16(v) => v@.map_values(|x: i16| x as int),
            NumericData::UInt16(v) => v@.map_values(|x: u16| x as int),
            NumericData::Int32(v) => v@.map_values(|x: i32| x as int),
            NumericData::UInt32(v) => v@.map_values(|x: u32| x as int),
            NumericData::Int64(v) => v@.map_values(|x: i64| x as int),
            NumericData::UInt64(v) => v@.map_values(|x: u64| x as int),
        }
    }

    /// Number of values.
    pub fn len(&self) -> (n: usize)
        ensures
            n == self@.values.len(),
    {
        match self {
            NumericData::Single(vec) => vec.len(),
            NumericData::Double(vec) => vec.len(),
            NumericData::Int8(vec) => vec.len(),
            NumericData::UInt8(vec) => vec.len(),
            NumericData::Int16(vec) => vec.len(),
            NumericData::UInt16(vec) => vec.len(),
            NumericData::Int32(vec) => vec.len(),
            NumericData::UInt32(vec) => vec.len(),
            NumericData::Int64(vec) => vec.len(),
            NumericData::UInt64(vec) => vec.len(),
        }
    }

    /// The type that encodes values of this kind.
    pub fn data_type(&self) -> (t: DataType)
        ensures
            t == self@.data_type,
    {
        match self {
            NumericData::Single(_) => DataType::Single,
            NumericData::Double(_) => DataType::Double,
            NumericData::Int8(_) => DataType::Int8,
            NumericData::UInt8(_) => DataType::UInt8,
            NumericData::Int16(_) => DataType::Int16,
            NumericData::UInt16(_) => DataType::UInt16,
            NumericData::Int32(_) => DataType::Int32,
            NumericData::UInt32(_) => DataType::UInt32,
            NumericData::Int64(_) => DataType::Int64,
            NumericData::UInt64(_) => DataType::UInt64,
        }
    }
}

impl View for NumericData {
    type V = NumericSeq;

    open spec fn view(&self) -> NumericSeq {
        NumericSeq { data_type: self.spec_data_type(), values: self.spec_values() }
    }
}

/// A character payload: decoded text, or raw 16-bit code units that were
/// not interpreted.
#[derive(Debug)]
pub enum CharacterData {
    Unicode(String),
    NonUnicode(Vec<u16>),
}

impl View for CharacterData {
    type V = TextSeq;

    open spec fn view(&self) -> TextSeq {
        match self {
            CharacterData::Unicode(s) => TextSeq::Unicode(s@),
            CharacterData::NonUnicode(v) => TextSeq::NonUnicode(v@),
        }
    }
}

/// Flags, extents and name of an array.
#[derive(Debug)]
pub struct ArrayHeader {
    pub flags: ArrayFlags,
    pub dimensions: Dimensions,
    pub name: String,
}

impl View for ArrayHeader {
    type V = ArrayHeaderModel;

    open spec fn view(&self) -> ArrayHeaderModel {
        ArrayHeaderModel { flags: self.flags, dimensions: self.dimensions@, name: self.name@ }
    }
}

/// A dense numeric array. The imaginary part is present exactly if the array
/// is complex.
#[derive(Debug)]
pub struct Numeric {
    pub header: ArrayHeader,
    pub real_part: NumericData,
    pub imag_part: Option<NumericData>,
}

/// A sparse array in compressed-sparse-column form.
#[derive(Debug)]
pub struct Sparse {
    pub header: ArrayHeader,
    pub row_index: RowIndex,
    pub column_index: ColumnShift,
    pub real_part: NumericData,
    pub imag_part: Option<NumericData>,
}

/// A character array.
#[derive(Debug)]
pub struct Character {
    pub header: ArrayHeader,
    pub real_part: CharacterData,
    pub imag_part: Option<CharacterData>,
}

/// A structure array: field names in the order of the file, and one value
/// for each of them.
#[derive(Debug)]
pub struct Structure {
    pub header: ArrayHeader,
    pub field_names: Vec<String>,
    pub values: Vec<DataElement>,
}

/// An element of a file.
#[derive(Debug)]
pub enum DataElement {
    NumericMatrix(Numeric),
    SparseMatrix(Sparse),
    CharacterMatrix(Character),
    StructureMatrix(Structure),
    Unsupported,
}

/// Whether `i` is the place of the first of `names` that equals `name`.
pub open spec fn is_first_field(names: Seq<Seq<char>>, name: Seq<char>, i: int) -> bool {
    &&& 0 <= i < names.len()
    &&& names[i] == name
    &&& forall|j: int| 0 <= j < i ==> names[j] != name
}

/// The place of the first of `names` that equals `name`, if there is one.
pub open spec fn field_index(names: Seq<Seq<char>>, name: Seq<char>) -> Option<int> {
    if exists|i: int| is_first_field(names, name, i) {
        Some(choose|i: int| is_first_field(names, name, i))
    } else {
        None
    }
}

/// A name has at most one first place.
pub proof fn lemma_field_index(names: Seq<Seq<char>>, name: Seq<char>, i: int)
    requires
        is_first_field(names, name, i),
    ensures
        field_index(names, name) == Some(i),
{
    let j = choose|j: int| is_first_field(names, name, j);
    if j < i {
        assert(names[j] != name);
    } else if i < j {
        assert(names[i] != name);
    }
}

/// A name that no field has is at no place.
pub proof fn lemma_field_absent(names: Seq<Seq<char>>, name: Seq<char>)
    requires
        forall|j: int| 0 <= j < names.len() ==> names[j] != name,
    ensures
        field_index(names, name).is_none(),
{
}

impl Structure {
    /// Every field has a name and a value.
    pub open spec fn wf(&self) -> bool {
        self.field_names@.len() == self.values@.len()
    }

    /// The names of the fields in their order.
    pub open spec fn spec_names(&self) -> Seq<Seq<char>> {
        names_view(self.field_names@)
    }

    /// A structure without fields.
    pub fn new(header: ArrayHeader) -> (r: Self)
        ensures
            r.header == header,
            r.spec_names() == Seq::<Seq<char>>::empty(),
            r.values@ == Seq::<DataElement>::empty(),
            r.wf(),
    {
        let r = Structure { header, field_names: Vec::new(), values: Vec::new() };
        assert(r.spec_names() =~= Seq::<Seq<char>>::empty());
        r
    }

    /// Flags, extents and name of the structure.
    pub fn header(&self) -> (r: &ArrayHeader)
        ensures
            *r == self.header,
    {
        &self.header
    }

    /// The place of the first field named `name`.
    pub fn index(&self, name: &str) -> (r: Option<usize>)
        ensures
            match r {
                Some(i) => field_index(self.spec_names(), name@) == Some(i as int)
                    && is_first_field(self.spec_names(), name@, i as int),
                None => field_index(self.spec_names(), name@).is_none(),
            },
    {
        let mut i: usize = 0;
        while i < self.field_names.len()
            invariant
                i <= self.field_names.len(),
                forall|j: int| 0 <= j < i ==> self.spec_names()[j] != name@,
            decreases self.field_names.len() - i,
        {
            if same_text(self.field_names[i].as_str(), name) {
                proof {
                    lemma_field_index(self.spec_names(), name@, i as int);
                }
                return Some(i);
            }
            i += 1;
        }
        proof {
            lemma_field_absent(self.spec_names(), name@);
        }
        None
    }

    /// The number of fields.
    pub fn len(&self) -> (n: usize)
        ensures
            n == self.spec_names().len(),
    {
        self.field_names.len()
    }

    /// The names of the fields in their order.
    pub fn field_names(&self) -> (r: Vec<&str>)
        ensures
            r@.len() == self.spec_names().len(),
            forall|i: int| 0 <= i < r@.len() ==> r@[i]@ == self.spec_names()[i],
    {
        let mut r: Vec<&str> = Vec::new();
        let mut i: usize = 0;
        while i < self.field_names.len()
            invariant
                i <= self.field_names.len(),
                r@.len() == i,
                forall|j: int| 0 <= j < i ==> r@[j]@ == self.spec_names()[j],
            decreases self.field_names.len() - i,
        {
            r.push(self.field_names[i].as_str());
            i += 1;
        }
        r
    }

    /// The values of the fields in their order.
    pub fn values(&self) -> (r: Vec<&DataElement>)
        ensures
            r@.len() == self.values@.len(),
            forall|i: int| 0 <= i < r@.len() ==> *r@[i] == self.values@[i],
    {
        let mut r: Vec<&DataElement> = Vec::new();
        let mut i: usize = 0;
        while i < self.values.len()
            invariant
                i <= self.values.len(),
                r@.len() == i,
                forall|j: int| 0 <= j < i ==> *r@[j] == self.values@[j],
            decreases self.values.len() - i,
        {
            r.push(&self.values[i]);
            i += 1;
        }
        r
    }

    /// The fields in their order, each as its name and its value: as many
    /// as have both.
    pub fn iter(&self) -> (r: Vec<(&str, &DataElement)>)
        ensures
            r@.len() <= self.spec_names().len(),
            r@.len() <= self.values@.len(),
            r@.len() == self.spec_names().len() || r@.len() == self.values@.len(),
            forall|i: int|
                0 <= i < r@.len() ==> r@[i].0@ == self.spec_names()[i] && *r@[i].1
                    == self.values@[i],
    {
        let mut r: Vec<(&str, &DataElement)> = Vec::new();
        let mut i: usize = 0;
        while i < self.values.len() && i < self.field_names.len()
            invariant
                i <= self.values.len(),
                i <= self.field_names.len(),
                r@.len() == i,
                forall|j: int|
                    0 <= j < i ==> r@[j].0@ == self.spec_names()[j] && *r@[j].1 == self.values@[j],
            decreases self.values.len() - i,
        {
            r.push((self.field_names[i].as_str(), &self.values[i]));
            i += 1;
        }
        r
    }

    /// The value of the first field named `name`.
    pub fn get(&self, name: &str) -> (r: Option<&DataElement>)
        requires
            self.wf(),
        ensures
            match field_index(self.spec_names(), name@) {
                Some(i) => r matches Some(v) && *v == self.values@[i],
                None => r.is_none(),
            },
    {
        match self.index(name) {
            Some(idx) => Some(&self.values[idx]),
            None => None,
        }
    }

    /// The value of the first field named `name`, to be changed in place.
    pub fn get_mut(&mut self, name: &str) -> (r: Option<&mut DataElement>)
        requires
            old(self).wf(),
        ensures
            match field_index(old(self).spec_names(), name@) {
                Some(i) => {
                    &&& r matches Some(v) && *v == old(self).values@[i] && final(self).values@
                        == old(self).values@.update(i, *final(v))
                    &&& final(self).field_names == old(self).field_names
                    &&& final(self).header == old(self).header
                },
                None => r.is_none() && *final(self) == *old(self),
            },
    {
        match self.index(name) {
            Some(idx) => Some(&mut self.values[idx]),
            None => None,
        }
    }

    /// Gives the first field named `name` the value `v` and returns the
    /// value that it had; where there is no such field, adds one at the
    /// end.
    pub fn insert(&mut self, name: &str, v: DataElement) -> (r: Option<DataElement>)
        requires
            old(self).wf(),
        ensures
            final(self).wf(),
            final(self).header == old(self).header,
            match field_index(old(self).spec_names(), name@) {
                Some(i) => {
                    &&& r == Some(old(self).values@[i])
                    &&& final(self).values@ == old(self).values@.update(i, v)
                    &&& final(self).field_names == old(self).field_names
                },
                None => {
                    &&& r.is_none()
                    &&& final(self).values@ == old(self).values@.push(v)
                    &&& final(self).spec_names() == old(self).spec_names().push(name@)
                },
            },
    {
        match self.index(name) {
            Some(idx) => {
                self.values.push(v);
                let previous = self.values.swap_remove(idx);
                assert(self.values@ =~= old(self).values@.update(idx as int, v));
                Some(previous)
            },
            None => {
                self.field_names.push(name.to_owned());
                self.values.push(v);
                assert(self.spec_names() =~= old(self).spec_names().push(name@));
                None
            },
        }
    }

    /// Takes the first field named `name` out and returns its value; the
    /// fields after it move up by one place.
    pub fn remove(&mut self, name: &str) -> (r: Option<DataElement>)
        requires
            old(self).wf(),
        ensures
            final(self).wf(),
            final(self).header == old(self).header,
            match field_index(old(self).spec_names(), name@) {
                Some(i) => {
                    &&& r == Some(old(self).values@[i])
                    &&& final(self).values@ == old(self).values@.remove(i)
                    &&& final(self).spec_names() == old(self).spec_names().remove(i)
                },
                None => r.is_none() && *final(self) == *old(self),
            },
    {
        match self.index(name) {
            Some(idx) => {
                self.field_names.remove(idx);
                let value = self.values.remove(idx);
                assert(self.spec_names() =~= old(self).spec_names().remove(idx as int));
                Some(value)
            },
            None => None,
        }
    }
}

impl Clone for NumericData {
    fn clone(&self) -> (r: Self)
        ensures
            r@ == self@,
    {
        match self {
            NumericData::Int8(v) => {
                let c = v.clone();
                assert(c@ =~= v@);
                NumericData::Int8(c)
            },
            NumericData::UInt8(v) => {
                let c = v.clone();
                assert(c@ =~= v@);
                NumericData::UInt8(c)
            },
            NumericData::Int16(v) => {
                let c = v.clone();
                assert(c@ =~= v@);
                NumericData::Int16(c)
            },
            NumericData::UInt16(v) => {
                let c = v.clone();
                assert(c@ =~= v@);
                NumericData::UInt16(c)
            },
            NumericData::Int32(v) => {
                let c = v.clone();
                assert(c@ =~= v@);
                NumericData::Int32(c)
            },
            NumericData::UInt32(v) => {
                let c = v.clone();
                assert(c@ =~= v@);
                NumericData::UInt32(c)
            },
            NumericData::Int64(v) => {
                let c = v.clone();
                assert(c@ =~= v@);
                NumericData::Int64(c)
            },
            NumericData::UInt64(v) => {
                let c = v.clone();
                assert(c@ =~= v@);
                NumericData::UInt64(c)
            },
            NumericData::Single(v) => {
                let c = v.clone();
                assert(c@ =~= v@);
                NumericData::Single(c)
            },
            NumericData::Double(v) => {
                let c = v.clone();
                assert(c@ =~= v@);
                NumericData::Double(c)
            },
        }
    }
}

impl Clone for CharacterData {
    fn clone(&self) -> (r: Self)
        ensures
            r@ == self@,
    {
        match self {
            CharacterData::Unicode(text) => CharacterData::Unicode(text.clone()),
            CharacterData::NonUnicode(v) => {
                let c = v.clone();
                assert(c@ =~= v@);
                CharacterData::NonUnicode(c)
            },
        }
    }
}

impl Clone for ArrayHeader {
    fn clone(&self) -> (r: Self)
        ensures
            r@ == self@,
    {
        let dimensions = self.dimensions.clone();
        assert(dimensions@ =~= self.dimensions@);
        ArrayHeader { flags: self.flags, dimensions, name: self.name.clone() }
    }
}

/// Copies an optional numeric payload.
fn clone_numeric_option(data: &Option<NumericData>) -> (r: Option<NumericData>)
    ensures
        numeric_option_view(r) == numeric_option_view(*data),
{
    match data {
        Some(d) => Some(d.clone()),
        None => None,
    }
}

/// Copies an optional character payload.
fn clone_text_option(data: &Option<CharacterData>) -> (r: Option<CharacterData>)
    ensures
        text_option_view(r) == text_option_view(*data),
{
    match data {
        Some(d) => Some(d.clone()),
        None => None,
    }
}

impl Clone for Numeric {
    fn clone(&self) -> (r: Self)
        ensures
            DataElement::NumericMatrix(r)@ == DataElement::NumericMatrix(*self)@,
    {
        Numeric {
            header: self.header.clone(),
            real_part: self.real_part.clone(),
            imag_part: clone_numeric_option(&self.imag_part),
        }
    }
}

impl Clone for Sparse {
    fn clone(&self) -> (r: Self)
        ensures
            DataElement::SparseMatrix(r)@ == DataElement::SparseMatrix(*self)@,
    {
        let row_index = self.row_index.clone();
        let column_index = self.column_index.clone();
        assert(row_index@ =~= self.row_index@);
        assert(column_index@ =~= self.column_index@);
        Sparse {
            header: self.header.clone(),
            row_index,
            column_index,
            real_part: self.real_part.clone(),
            imag_part: clone_numeric_option(&self.imag_part),
        }
    }
}

impl Clone for Character {
    fn clone(&self) -> (r: Self)
        ensures
            DataElement::CharacterMatrix(r)@ == DataElement::CharacterMatrix(*self)@,
    {
        Character {
            header: self.header.clone(),
            real_part: self.real_part.clone(),
            imag_part: clone_text_option(&self.imag_part),
        }
    }
}

/// Copies the names of fields.
fn clone_names(names: &Vec<String>) -> (r: Vec<String>)
    ensures
        names_view(r@) == names_view(names@),
{
    let mut r: Vec<String> = Vec::new();
    let mut i: usize = 0;
    while i < names.len()
        invariant
            i <= names.len(),
            r@.len() == i,
            forall|j: int| 0 <= j < i ==> r@[j]@ == names@[j]@,
        decreases names.len() - i,
    {
        r.push(names[i].clone());
        i += 1;
    }
    assert(names_view(r@) =~= names_view(names@));
    r
}

/// The model of a structure holds the models of its values.
pub proof fn lemma_structure_view(structure: Structure)
    ensures
        DataElement::StructureMatrix(structure)@ == (ElementModel::StructureMatrix {
            header: structure.header@,
            field_names: names_view(structure.field_names@),
            values: elements_view(structure.values@),
        }),
{
    reveal_with_fuel(DataElement::model, 2);
    let element = DataElement::StructureMatrix(structure);
    assert(element@->StructureMatrix_values =~= elements_view(structure.values@));
}

impl Clone for Structure {
    fn clone(&self) -> (r: Self)
        ensures
            DataElement::StructureMatrix(r)@ == DataElement::StructureMatrix(*self)@,
            r.wf() == self.wf(),
        decreases self,
    {
        let mut values: Vec<DataElement> = Vec::new();
        let mut i: usize = 0;
        while i < self.values.len()
            invariant
                i <= self.values.len(),
                values@.len() == i,
                forall|j: int| 0 <= j < i ==> values@[j]@ == self.values@[j]@,
            decreases self.values.len() - i,
        {
            values.push(self.values[i].clone());
            i += 1;
        }
        let r = Structure {
            header: self.header.clone(),
            field_names: clone_names(&self.field_names),
            values,
        };
        proof {
            lemma_structure_view(r);
            lemma_structure_view(*self);
            assert(elements_view(r.values@) =~= elements_view(self.values@));
            assert(r.field_names@.len() == names_view(r.field_names@).len());
            assert(self.field_names@.len() == names_view(self.field_names@).len());
        }
        r
    }
}

impl Clone for DataElement {
    fn clone(&self) -> (r: Self)
        ensures
            r@ == self@,
        decreases self,
    {
        match self {
            DataElement::NumericMatrix(n) => DataElement::NumericMatrix(n.clone()),
            DataElement::SparseMatrix(s) => DataElement::SparseMatrix(s.clone()),
            DataElement::CharacterMatrix(c) => DataElement::CharacterMatrix(c.clone()),
            DataElement::StructureMatrix(s) => DataElement::StructureMatrix(s.clone()),
            DataElement::Unsupported => DataElement::Unsupported,
        }
    }
}

/// The names as sequences of characters.
pub open spec fn names_view(names: Seq<String>) -> Seq<Seq<char>> {
    Seq::new(names.len(), |i: int| names[i]@)
}

/// The elements as their models.
pub open spec fn elements_view(elements: Seq<DataElement>) -> Seq<ElementModel> {
    Seq::new(elements.len(), |i: int| elements[i]@)
}

/// View of an optional numeric payload.
pub open spec fn numeric_option_view(o: Option<NumericData>) -> Option<NumericSeq> {
    match o {
        Some(d) => Some(d@),
        None => None,
    }
}

/// View of an optional character payload.
pub open spec fn text_option_view(o: Option<CharacterData>) -> Option<TextSeq> {
    match o {
        Some(d) => Some(d@),
        None => None,
    }
}

impl DataElement {
    /// The element as a mathematical value.
    pub open spec fn model(&self) -> ElementModel
        decreases self,
    {
        match self {
            DataElement::NumericMatrix(n) => ElementModel::NumericMatrix {
                header: n.header@,
                real_part: n.real_part@,
                imag_part: numeric_option_view(n.imag_part),
            },
            DataElement::SparseMatrix(s) => ElementModel::SparseMatrix {
                header: s.header@,
                row_index: s.row_index@,
                column_index: s.column_index@,
                real_part: s.real_part@,
                imag_part: numeric_option_view(s.imag_part),
            },
            DataElement::CharacterMatrix(c) => ElementModel::CharacterMatrix {
                header: c.header@,
                real_part: c.real_part@,
                imag_part: text_option_view(c.imag_part),
            },
            DataElement::StructureMatrix(s) => ElementModel::StructureMatrix {
                header: s.header@,
                field_names: names_view(s.field_names@),
                values: Seq::new(
                    s.values@.len(),
                    |i: int|
                        if 0 <= i < s.values@.len() {
                            s.values@[i].model()
                        } else {
                            ElementModel::Unsupported
                        },
                ),
            },
            DataElement::Unsupported => ElementModel::Unsupported,
        }
    }
}

impl View for DataElement {
    type V = ElementModel;

    open spec fn view(&self) -> ElementModel {
        self.model()
    }
}

/// The header of a file.
#[derive(Clone, Debug)]
pub struct Header {
    text: String,
    is_little_endian: bool,
}

impl Header {
    /// The descriptive text.
    pub closed spec fn spec_text(&self) -> Seq<char> {
        self.text@
    }

    /// Whether the numbers of the file are stored low byte first.
    pub closed spec fn spec_is_little_endian(&self) -> bool {
        self.is_little_endian
    }

    /// The descriptive text.
    pub fn text(&self) -> (r: &str)
        ensures
            r@ == self@.text,
    {
        self.text.as_str()
    }

    /// Whether the numbers of the file are stored low byte first.
    pub fn is_little_endian(&self) -> (r: bool)
        ensures
            r == self@.is_little_endian,
    {
        self.is_little_endian
    }

    /// The byte order of the numbers of the file.
    pub fn byte_order(&self) -> (r: ByteOrder)
        ensures
            r == byte_order_of(self@.is_little_endian),
    {
        if self.is_little_endian {
            ByteOrder::LittleEndian
        } else {
            ByteOrder::BigEndian
        }
    }
}

impl View for Header {
    type V = HeaderModel;

    open spec fn view(&self) -> HeaderModel {
        HeaderModel { text: self.spec_text(), is_little_endian: self.spec_is_little_endian() }
    }
}

/// The byte order that the header's marker stands for.
pub open spec fn byte_order_of(is_little_endian: bool) -> ByteOrder {
    if is_little_endian {
        ByteOrder::LittleEndian
    } else {
        ByteOrder::BigEndian
    }
}

/// Length of the file header in bytes.
pub const HEADER_SIZE: usize = 128;

/// The header that the first 128 bytes of a file hold.
///
/// None of the first four bytes is NUL. Bytes 0 to 115 are descriptive
/// text, taken as empty where it is not UTF-8. Bytes 116 to 123 are not
/// interpreted. Bytes 126 and 127 are the marker of the byte order: "IM"
/// for low byte first, "MI" for high byte first. Bytes 124 and 125 are the
/// version, which is 0x0100 in that byte order.
pub open spec fn spec_header(s: Seq<u8>) -> Result<HeaderModel, ParseError> {
    if s.len() < 4 {
        Err(error_at(ErrorKind::UnexpectedEof, 0))
    } else if s[0] == 0 || s[1] == 0 || s[2] == 0 || s[3] == 0 {
        Err(error_at(ErrorKind::BadHeader, 0))
    } else if s.len() < 128 {
        Err(error_at(ErrorKind::UnexpectedEof, 0))
    } else if !(s[126] == 0x49 && s[127] == 0x4D) && !(s[126] == 0x4D && s[127] == 0x49) {
        Err(error_at(ErrorKind::BadHeader, 126))
    } else if u16_at(s, 124, byte_order_of(s[126] == 0x49)) != 0x0100 {
        Err(error_at(ErrorKind::BadHeader, 124))
    } else {
        Ok(
            HeaderModel {
                text: match spec_utf8_text(s, 0, 116) {
                    Some(text) => text,
                    None => Seq::empty(),
                },
                is_little_endian: s[126] == 0x49,
            },
        )
    }
}

/// Reads the file header, and gives the position after it with it.
///
/// Fails with `UnexpectedEof` where the input is shorter than a header,
/// and with `BadHeader` where one of the first four bytes is NUL, the
/// marker of the byte order is neither "IM" nor "MI", or the version is
/// not 0x0100.
pub fn parse_header(i: &[u8]) -> (r: Result<(usize, Header), ParseError>)
    ensures
        match r {
            Ok((next, header)) => spec_header(i@) == Ok::<HeaderModel, ParseError>(header@)
                && next == 128,
            Err(e) => spec_header(i@) == Err::<HeaderModel, ParseError>(e),
        },
{
    if i.len() < 4 {
        return Err(ParseError { kind: ErrorKind::UnexpectedEof, offset: 0 });
    }
    if i[0] == 0 || i[1] == 0 || i[2] == 0 || i[3] == 0 {
        return Err(ParseError { kind: ErrorKind::BadHeader, offset: 0 });
    }
    if i.len() < HEADER_SIZE {
        return Err(ParseError { kind: ErrorKind::UnexpectedEof, offset: 0 });
    }
    let is_little_endian: bool = if i[126] == 0x49 && i[127] == 0x4D {
        true
    } else if i[126] == 0x4D && i[127] == 0x49 {
        false
    } else {
        return Err(ParseError { kind: ErrorKind::BadHeader, offset: 126 });
    };
    let order = if is_little_endian {
        ByteOrder::LittleEndian
    } else {
        ByteOrder::BigEndian
    };
    let version: u16 = read_u16(i, 124, order);
    if version != 0x0100 {
        return Err(ParseError { kind: ErrorKind::BadHeader, offset: 124 });
    }
    let text = match decode_utf8_text(i, 0, 116) {
        Some(text) => text,
        None => String::new(),
};
    Ok((HEADER_SIZE, Header { text, is_little_endian }))
}

/// The elements that a file holds from `pos` on, in file order. Each
/// starts where the one before it ends, and the last ends with the input.
pub open spec fn spec_elements(s: Seq<u8>, order: ByteOrder, pos: int, depth: nat) -> Result<
    Seq<ElementModel>,
    ParseError,
>
    decreases s.len() - pos,
{
    if pos >= s.len() {
        Ok(Seq::empty())
    } else {
        match spec_frame(s, order, pos, s.len() as int) {
            Err(e) => Err(e),
            Ok(frame) => match spec_element_body(
                s,
                order,
                frame.tag,
                frame.start,
                frame.end,
                None,
                depth,
            ) {
                Err(e) => Err(e),
                Ok(element) => prefixed_elements(
                    seq![element],
                    spec_elements(s, order, frame.next, depth),
                ),
            },
        }
    }
}

/// Reads the elements that a file holds from `pos` on.
///
/// Fails with the error of the first element that cannot be read.
pub fn parse_elements(bytes: &[u8], order: ByteOrder, pos: usize, depth: u32) -> (r: Result<
    Vec<DataElement>,
    ParseError,
>)
    requires
        pos <= bytes.len(),
    ensures
        match r {
            Ok(elements) => spec_elements(bytes@, order, pos as int, depth as nat) == Ok::<
                Seq<ElementModel>,
                ParseError,
            >(elements_view(elements@)),
            Err(e) => spec_elements(bytes@, order, pos as int, depth as nat) == Err::<
                Seq<ElementModel>,
                ParseError,
            >(e),
        },
{
    let mut result: Vec<DataElement> = Vec::new();
    let mut i: usize = pos;
    proof {
        lemma_prefixed_by_nothing(spec_elements(bytes@, order, pos as int, depth as nat));
        assert(elements_view(result@) =~= Seq::<ElementModel>::empty());
    }
    while i < bytes.len()
        invariant
            pos <= i <= bytes.len(),
            spec_elements(bytes@, order, pos as int, depth as nat) == prefixed_elements(
                elements_view(result@),
                spec_elements(bytes@, order, i as int, depth as nat),
            ),
        decreases bytes.len() - i,
    {
        let ghost before = elements_view(result@);
        let element = parse_next_data_element(bytes, order, i, bytes.len(), None, depth);
        proof {
            lemma_elements_step(bytes@, order, i as int, depth as nat);
        }
        let (element, next) = match element {
            Ok(v) => v,
            Err(e) => {
                return Err(e);
            },
        };
        result.push(element);
        proof {
            assert(elements_view(result@) =~= before.push(element@));
            lemma_prefixed_twice(
                before,
                element@,
                spec_elements(bytes@, order, next as int, depth as nat),
            );
        }
        i = next;
    }
    proof {
        assert(elements_view(result@) + Seq::<ElementModel>::empty() =~= elements_view(result@));
    }
    Ok(result)
}

/// The elements from `pos` on are the element that starts at `pos` and
/// the elements from where it ends.
pub proof fn lemma_elements_step(s: Seq<u8>, order: ByteOrder, pos: int, depth: nat)
    requires
        pos < s.len(),
    ensures
        spec_elements(s, order, pos, depth) == (match spec_next_element(
            s,
            order,
            pos,
            s.len() as int,
            None,
            depth,
        ) {
            Err(e) => Err(e),
            Ok((element, next)) => prefixed_elements(
                seq![element],
                spec_elements(s, order, next, depth),
            ),
        }),
{
}

/// What a file holds: its header and its elements in file order.
#[derive(Debug)]
pub struct ParseResult {
    pub header: Header,
    pub data_elements: Vec<DataElement>,
}

/// The header and the elements of the file `s`.
pub open spec fn spec_parse_all(s: Seq<u8>) -> Result<(HeaderModel, Seq<ElementModel>), ParseError> {
    match spec_header(s) {
        Err(e) => Err(e),
        Ok(header) => match spec_elements(
            s,
            byte_order_of(header.is_little_endian),
            128,
            MAX_COMPRESSION_DEPTH as nat,
        ) {
            Err(e) => Err(e),
            Ok(elements) => Ok((header, elements)),
        },
    }
}

/// Elements whose models are well-formed are well-formed.
proof fn lemma_well_formed_views(elements: Seq<DataElement>, models: Seq<ElementModel>)
    requires
        models == elements_view(elements),
        forall|k: int| 0 <= k < models.len() ==> (#[trigger] models[k]).well_formed(),
    ensures
        forall|k: int| 0 <= k < elements.len() ==> (#[trigger] elements[k])@.well_formed(),
{
    assert forall|k: int| 0 <= k < elements.len() implies (#[trigger] elements[k])@.well_formed() by {
        assert(models[k] == elements[k]@);
    }
}

/// Reads a whole file: the header, then one element after another until
/// the input is used up. Every element that is returned is well-formed.
///
/// Fails with the error of the header or of the first element that cannot
/// be read; nothing is returned of a file that fails.
pub fn parse_all(i: &[u8]) -> (r: Result<ParseResult, ParseError>)
    ensures
        match r {
            Ok(result) => spec_parse_all(i@) == Ok::<(HeaderModel, Seq<ElementModel>), ParseError>(
                (result.header@, elements_view(result.data_elements@)),
            ),
            Err(e) => spec_parse_all(i@) == Err::<(HeaderModel, Seq<ElementModel>), ParseError>(e),
        },
        r matches Ok(result) ==> forall|k: int|
            0 <= k < result.data_elements@.len() ==> (
            #[trigger] result.data_elements@[k])@.well_formed(),
{
    let (next, header) = match parse_header(i) {
        Ok(v) => v,
        Err(e) => {
            return Err(e);
        },
    };
    let order = header.byte_order();
    match parse_elements(i, order, next, MAX_COMPRESSION_DEPTH) {
        Err(e) => Err(e),
        Ok(data_elements) => {
            proof {
                lemma_parse_all_well_formed(i@);
                lemma_well_formed_views(data_elements@, spec_parse_all(i@).unwrap().1);
            }
            Ok(ParseResult { header, data_elements })
        },
    }
}

} // verus!
