//! Reader for a binary container of named multidimensional arrays.
//!
//! The decoder turns a byte slice into a header and a tree of array values:
//! dense numeric arrays, sparse arrays, character arrays and record
//! structures. Each decoder comes with a description of the wire format as
//! a function over `Seq<u8>`, and is proved to compute exactly that.
//!
//! `parse` holds the decoded tree and the entry points. `primitive`, `tag`,
//! `subelement`, `text`, `extent`, `array`, `structure`, `element` and
//! `inflate` hold the layers of the format, from single numbers up to whole
//! elements. `model` holds the mathematical values that the contracts speak
//! of. `laws` and `mirror` hold what is proved of every file.

pub mod array;
pub mod data;
pub mod element;
pub mod extent;
pub mod inflate;
pub mod laws;
pub mod mirror;
pub mod model;
pub mod parse;
pub mod primitive;
pub mod structure;
pub mod subelement;
pub mod tag;
pub mod text;
