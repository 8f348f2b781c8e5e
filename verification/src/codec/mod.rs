//! The byte form in which values are kept in the cache.
//!
//! A value is one tag byte followed by its content. Numbers are written in
//! little-endian order at their fixed width, signed ones in two's
//! complement. A text is the length of its UTF-8 form in eight bytes, then
//! that form. An array is the number of its items in eight bytes, then the
//! items; an object is the number of its fields, then each field's name as
//! a text and its value.
//!
//! [`format`] says what the byte form of a value is and what is read from
//! bytes, [`writer`] and [`reader`] compute the two, and [`laws`] shows
//! that each undoes the other.

pub mod format;
pub mod laws;
pub mod reader;
pub mod writer;

pub use crate::codec::format::DecodeError;
pub use crate::codec::format::TAG_ARRAY;
pub use crate::codec::format::TAG_BOOL;
pub use crate::codec::format::TAG_FLOAT32;
pub use crate::codec::format::TAG_FLOAT64;
pub use crate::codec::format::TAG_INTEGER16;
pub use crate::codec::format::TAG_INTEGER32;
pub use crate::codec::format::TAG_INTEGER64;
pub use crate::codec::format::TAG_INTEGER8;
pub use crate::codec::format::TAG_NULL;
pub use crate::codec::format::TAG_OBJECT;
pub use crate::codec::format::TAG_STRING;
pub use crate::codec::format::decode_spec;
pub use crate::codec::format::encode_fields;
pub use crate::codec::format::encode_items;
pub use crate::codec::format::encode_spec;
pub use crate::codec::format::encode_text;
pub use crate::codec::format::le_bytes;
pub use crate::codec::format::le_value;
pub use crate::codec::format::parse_fields;
pub use crate::codec::format::parse_fixed;
pub use crate::codec::format::parse_items;
pub use crate::codec::format::parse_text;
pub use crate::codec::format::parse_value;
pub use crate::codec::format::radix;
pub use crate::codec::format::text_fits;
pub use crate::codec::format::to_signed;
pub use crate::codec::format::to_unsigned;
pub use crate::codec::reader::decode;
pub use crate::codec::writer::encode;
pub use crate::codec::writer::encode_array;
pub use crate::codec::writer::encode_array_into;
pub use crate::codec::writer::encode_into;
pub use crate::codec::writer::encode_text_into;
