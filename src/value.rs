use crate::error::{result_view, ParseError, SpecParseError};
use vstd::prelude::*;

verus! {

/// A generic structured-data value, as a document loader produces it.
#[derive(Debug, PartialEq)]
pub enum Value {
    Null,
    Bool(bool),
    Int(i128),
    Str(String),
    List(Vec<Value>),
    Mapping(Vec<(String, Value)>),
    /// A value of a kind that no part of an attribute reads (a float, a
    /// tagged value).
    Other,
}

/// The text of an optional string.
pub open spec fn opt_view(o: Option<String>) -> Option<Seq<char>> {
    match o {
        Some(s) => Some(s@),
        None => None,
    }
}

/// The text of a string value.
pub open spec fn text_of(v: Value) -> Option<Seq<char>> {
    match v {
        Value::Str(s) => Some(s@),
        _ => None,
    }
}

/// The text of a key that may appear once and holds a string.
pub open spec fn text_field(seen: bool, key: Seq<char>, v: Value) -> Result<
    Seq<char>,
    SpecParseError,
> {
    if seen {
        Err(SpecParseError::DuplicateField(key))
    } else {
        match text_of(v) {
            Some(t) => Ok(t),
            None => Err(SpecParseError::InvalidValue(key)),
        }
    }
}

pub(crate) fn key_is(key: &String, name: &str) -> (r: bool)
    ensures
        r == (key@ == name@),
{
    *key == name.to_owned()
}

pub(crate) fn read_text(seen: bool, key: &String, v: &Value) -> (r: Result<String, ParseError>)
    ensures
        result_view(r) == text_field(seen, key@, *v),
{
    if seen {
        return Err(ParseError::DuplicateField(key.clone()));
    }
    match v {
        Value::Str(s) => Ok(s.clone()),
        _ => Err(ParseError::InvalidValue(key.clone())),
    }
}

} // verus!
