use vstd::prelude::*;

verus! {

/// Why an attribute could not be decoded. Each variant that concerns a key
/// or a type token carries it.
#[derive(Debug, Clone, PartialEq, Eq)]
pub enum ParseError {
    /// A key that may appear once appeared a second time.
    DuplicateField(String),
    /// A key that no part of the attribute grammar recognizes.
    UnknownField(String),
    /// A key that the attribute needs is absent.
    MissingField(String),
    /// A type token outside the integer type grammar.
    InvalidType(String),
    /// A recognized key whose value has the wrong shape.
    InvalidValue(String),
    /// An element of a `contents` list that is neither a string nor an integer.
    InvalidElementType,
    /// An integer element of a `contents` list outside `0..=255`.
    InvalidByteValue,
    /// `contents` together with `enum`, or `contents` together with `type`.
    ConflictingVariant,
}

/// The mathematical form of [`ParseError`].
pub enum SpecParseError {
    DuplicateField(Seq<char>),
    UnknownField(Seq<char>),
    MissingField(Seq<char>),
    InvalidType(Seq<char>),
    InvalidValue(Seq<char>),
    InvalidElementType,
    InvalidByteValue,
    ConflictingVariant,
}

impl View for ParseError {
    type V = SpecParseError;

    open spec fn view(&self) -> SpecParseError {
        match self {
            ParseError::DuplicateField(k) => SpecParseError::DuplicateField(k@),
            ParseError::UnknownField(k) => SpecParseError::UnknownField(k@),
            ParseError::MissingField(k) => SpecParseError::MissingField(k@),
            ParseError::InvalidType(t) => SpecParseError::InvalidType(t@),
            ParseError::InvalidValue(k) => SpecParseError::InvalidValue(k@),
            ParseError::InvalidElementType => SpecParseError::InvalidElementType,
            ParseError::InvalidByteValue => SpecParseError::InvalidByteValue,
            ParseError::ConflictingVariant => SpecParseError::ConflictingVariant,
        }
    }
}

/// The mathematical form of a decoding result.
pub open spec fn result_view<T: View>(r: Result<T, ParseError>) -> Result<T::V, SpecParseError> {
    match r {
        Ok(t) => Ok(t@),
        Err(e) => Err(e@),
    }
}

} // verus!
