//! Plain data model of a container file.

use vstd::prelude::*;

verus! {

/// Order of the bytes of a multi-byte number in the file.
#[derive(Copy, Clone, Debug, Eq, PartialEq, Structural)]
pub enum ByteOrder {
    LittleEndian,
    BigEndian,
}

impl ByteOrder {
    /// The other byte order.
    pub open spec fn swapped(self) -> ByteOrder {
        match self {
            ByteOrder::LittleEndian => ByteOrder::BigEndian,
            ByteOrder::BigEndian => ByteOrder::LittleEndian,
        }
    }
}

/// A container file.
pub struct MatFile {
    header: Header,
}

/// The header of a container file: its text field as stored, and the byte
/// order of the file.
pub struct Header {
    text: [u8; 116],
    byte_order: ByteOrder,
}

/// An array of one of the kinds that a file can hold.
pub enum Array {
    Numeric(NumericArray),
    Sparse(SparseArray),
    Character(CharacterArray),
    Structure(StructureArray),
    Unsupported(UnsupportedArray),
}

/// The extents of an array: rows, columns, and those of further
/// dimensions.
pub struct Dimensions {
    rows: u32,
    columns: u32,
    more: Vec<u32>,
}

impl Dimensions {
    /// The extents in their order.
    pub closed spec fn spec_extents(&self) -> Seq<u32> {
        seq![self.rows, self.columns] + self.more@
    }

    /// The number of dimensions fits a machine word.
    #[verifier::type_invariant]
    spec fn bounded(&self) -> bool {
        self.more@.len() + 2 <= usize::MAX
    }

    /// The extents of a matrix of `rows` rows and `columns` columns.
    pub fn new(rows: u32, columns: u32) -> (r: Self)
        ensures
            r.spec_extents() == seq![rows, columns],
    {
        let r = Self { rows, columns, more: Vec::new() };
        assert(r.spec_extents() =~= seq![rows, columns]);
        r
    }

    /// The number of dimensions.
    pub fn dimensions(&self) -> (n: usize)
        ensures
            n == self.spec_extents().len(),
            n >= 2,
    {
        proof {
            use_type_invariant(self);
        }
        2 + self.more.len()
    }
}

impl Clone for Dimensions {
    fn clone(&self) -> (r: Self)
        ensures
            r.spec_extents() == self.spec_extents(),
    {
        proof {
            use_type_invariant(self);
        }
        let more = self.more.clone();
        assert(more@ =~= self.more@);
        Self { rows: self.rows, columns: self.columns, more }
    }
}

/// Extents and name of an array.
pub struct ArrayHeader {
    dimensions: Dimensions,
    name: String,
}

/// A numeric array with its values and, where it is complex, its
/// imaginary part.
pub struct NumericArray {
    header: ArrayHeader,
    real: NumericData,
    imag: Option<Box<NumericArray>>,
}

/// Numeric values in column-major order. `Single` and `Double` hold the
/// IEEE-754 bit patterns of their values.
pub enum NumericData {
    Int8(Vec<i8>),
    UInt8(Vec<u8>),
    Int16(Vec<i16>),
    UInt16(Vec<u16>),
    Int32(Vec<i32>),
    UInt32(Vec<u32>),
    Int64(Vec<i64>),
    UInt64(Vec<u64>),
    Single(Vec<u32>),
    Double(Vec<u64>),
}

/// A sparse array.
pub struct SparseArray {}

/// A character array.
pub struct CharacterArray {}

/// A structure array.
pub struct StructureArray {}

/// An array of a kind that is not read, with its payload as stored.
pub struct UnsupportedArray {
    header: ArrayHeader,
    data: Vec<u8>,
}

} // verus!
