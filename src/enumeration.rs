use crate::error::{result_view, ParseError, SpecParseError};
use crate::integer::{decode_type, type_parse, Integer};
use vstd::prelude::*;

verus! {

/// An integer field labelled with the name of an enumeration.
#[derive(Debug, Clone, PartialEq)]
pub struct Enumeration {
    pub name: String,
    pub type_: Integer,
}

/// The mathematical form of [`Enumeration`].
pub struct SpecEnumeration {
    pub name: Seq<char>,
    pub type_: Integer,
}

impl View for Enumeration {
    type V = SpecEnumeration;

    open spec fn view(&self) -> SpecEnumeration {
        SpecEnumeration { name: self.name@, type_: self.type_ }
    }
}

/// The enumeration bound to `name` whose integer type is given by `token`;
/// the token is required.
pub open spec fn enumeration_of(name: Seq<char>, token: Option<Seq<char>>) -> Result<
    SpecEnumeration,
    SpecParseError,
> {
    match token {
        None => Err(SpecParseError::MissingField("type"@)),
        Some(t) => match decode_type(t) {
            Ok(i) => Ok(SpecEnumeration { name, type_: i }),
            Err(e) => Err(e),
        },
    }
}

/// Binds an enumeration name to the integer type that `token` names. The
/// name is kept as it is.
pub fn try_build(name: String, token: Option<&str>) -> (r: Result<Enumeration, ParseError>)
    ensures
        result_view(r) == enumeration_of(
            name@,
            match token {
                Some(t) => Some(t@),
                None => None,
            },
        ),
{
    match token {
        None => Err(ParseError::MissingField("type".to_owned())),
        Some(t) => match type_parse(t) {
            Ok(type_) => Ok(Enumeration { name, type_ }),
            Err(e) => Err(e),
        },
    }
}

} // verus!
