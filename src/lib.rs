//! Decoding of one field definition ("attribute") of a binary-format
//! description, from a generic key/value mapping into a typed value.
//!
//! - [`integer`]: the type-token decoder (`u1`, `s4`, `u2le`, ...).
//! - [`contents`]: the byte-signature matcher and the signature record.
//! - [`enumeration`]: the enumeration binder.
//! - [`attribute`]: the decoder of a whole attribute and its canonical form.
//! - [`theorems`]: laws of the decoder, proved over its specification.

pub mod attribute;
pub mod contents;
pub mod enumeration;
pub mod error;
pub mod integer;
pub mod theorems;
pub mod value;

pub use attribute::{Attribute, AttributeType, StringOrU64};
pub use contents::{Bytes, Contents, StringOrByte};
pub use enumeration::Enumeration;
pub use error::{ParseError, SpecParseError};
pub use integer::{type_parse, Endian, Integer, LongType};
pub use value::Value;
