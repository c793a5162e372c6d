use crate::error::{result_view, ParseError, SpecParseError};
use crate::value::{key_is, opt_view, read_text, text_field, Value};
use vstd::prelude::*;
use vstd::utf8::encode_utf8;

verus! {

/// One element of a `contents` list: a string, which stands for its UTF-8
/// bytes, or a single byte.
#[derive(Debug, PartialEq)]
pub enum StringOrByte<'a> {
    String(&'a str),
    Byte(u8),
}

/// A fixed byte signature.
#[derive(Debug, Clone, PartialEq)]
pub struct Bytes(pub Vec<u8>);

impl View for Bytes {
    type V = Seq<u8>;

    open spec fn view(&self) -> Seq<u8> {
        self.0@
    }
}

impl<'a> StringOrByte<'a> {
    /// The bytes that the element stands for.
    pub open spec fn spec_bytes(self) -> Seq<u8> {
        match self {
            StringOrByte::String(s) => encode_utf8(s@),
            StringOrByte::Byte(b) => seq![b],
        }
    }
}

/// The bytes that one list element stands for.
pub open spec fn element_bytes(v: Value) -> Result<Seq<u8>, SpecParseError> {
    match v {
        Value::Str(s) => Ok(encode_utf8(s@)),
        Value::Int(n) => if 0 <= n <= 255 {
            Ok(seq![n as u8])
        } else {
            Err(SpecParseError::InvalidByteValue)
        },
        _ => Err(SpecParseError::InvalidElementType),
    }
}

/// The concatenated bytes of a list, or the error of its first bad element.
pub open spec fn list_bytes(items: Seq<Value>) -> Result<Seq<u8>, SpecParseError>
    decreases items.len(),
{
    if items.len() == 0 {
        Ok(Seq::empty())
    } else {
        match list_bytes(items.drop_last()) {
            Ok(front) => match element_bytes(items.last()) {
                Ok(b) => Ok(front + b),
                Err(e) => Err(e),
            },
            Err(e) => Err(e),
        }
    }
}

/// The signature that a `contents` value describes: a string stands for its
/// UTF-8 bytes, a list for the concatenation of its elements' bytes.
pub open spec fn contents_bytes(v: Value) -> Result<Seq<u8>, SpecParseError> {
    match v {
        Value::Str(s) => Ok(encode_utf8(s@)),
        Value::List(items) => list_bytes(items@),
        _ => Err(SpecParseError::InvalidValue("contents"@)),
    }
}

/// Classifies one element of a `contents` list.
pub fn string_or_byte(v: &Value) -> (r: Result<StringOrByte<'_>, ParseError>)
    ensures
        match r {
            Ok(e) => element_bytes(*v) == Ok::<Seq<u8>, SpecParseError>(e.spec_bytes()),
            Err(e) => element_bytes(*v) == Err::<Seq<u8>, SpecParseError>(e@),
        },
{
    match v {
        Value::Str(s) => Ok(StringOrByte::String(s.as_str())),
        Value::Int(n) => if 0 <= *n && *n <= 255 {
            Ok(StringOrByte::Byte(*n as u8))
        } else {
            Err(ParseError::InvalidByteValue)
        },
        _ => Err(ParseError::InvalidElementType),
    }
}

/// Builds the byte signature that a `contents` value describes.
pub fn try_build(v: &Value) -> (r: Result<Bytes, ParseError>)
    ensures
        result_view(r) == contents_bytes(*v),
{
    match v {
        Value::Str(s) => Ok(Bytes(s.as_str().as_bytes_vec())),
        Value::List(items) => {
            let mut bytes: Vec<u8> = Vec::new();
            let mut i: usize = 0;
            while i < items.len()
                invariant
                    i <= items@.len(),
                    contents_bytes(*v) == list_bytes(items@),
                    list_bytes(items@.take(i as int)) == Ok::<Seq<u8>, SpecParseError>(bytes@),
                decreases items@.len() - i,
            {
                assert(items@.take(i as int + 1).drop_last() =~= items@.take(i as int));
                assert(items@.take(i as int + 1).last() == items@[i as int]);
                let ghost front = bytes@;
                match string_or_byte(&items[i]) {
                    Ok(StringOrByte::String(s)) => {
                        let b = s.as_bytes();
                        bytes.extend_from_slice(b);
                        assert(bytes@ =~= front + b@);
                    },
                    Ok(StringOrByte::Byte(b)) => {
                        bytes.push(b);
                        assert(bytes@ =~= front + seq![b]);
                    },
                    Err(e) => {
                        proof {
                            assert(list_bytes(items@.take(i as int + 1)) == Err::<Seq<u8>, SpecParseError>(e@));
                            lemma_list_bytes_err(items@, i as int + 1);
                        }
                        return Err(e);
                    },
                }
                i += 1;
            }
            assert(items@.take(i as int) =~= items@);
            Ok(Bytes(bytes))
        },
        _ => Err(ParseError::InvalidValue("contents".to_owned())),
    }
}

/// An error on a prefix of a list is the error of the whole list.
proof fn lemma_list_bytes_err(items: Seq<Value>, n: int)
    requires
        0 <= n <= items.len(),
        list_bytes(items.take(n)) is Err,
    ensures
        list_bytes(items) == list_bytes(items.take(n)),
    decreases items.len() - n,
{
    if n < items.len() {
        assert(items.take(n + 1).drop_last() =~= items.take(n));
        lemma_list_bytes_err(items, n + 1);
    } else {
        assert(items.take(n) =~= items);
    }
}

/// A record that holds a byte signature and nothing else: an optional `id`
/// and a required `contents`; any other key is refused.
#[derive(Debug, Clone, PartialEq)]
pub struct Contents {
    pub id: Option<String>,
    pub contents: Vec<u8>,
}

/// The mathematical form of [`Contents`].
pub struct SpecContents {
    pub id: Option<Seq<char>>,
    pub contents: Seq<u8>,
}

impl View for Contents {
    type V = SpecContents;

    open spec fn view(&self) -> SpecContents {
        SpecContents {
            id: opt_view(self.id),
            contents: self.contents@,
        }
    }
}

/// What a signature record has read so far: its `id` and its bytes.
pub struct SpecRecord {
    pub id: Option<Seq<char>>,
    pub contents: Option<Seq<u8>>,
}

/// Reads one key/value pair of a signature record.
pub open spec fn record_step(st: SpecRecord, key: Seq<char>, v: Value) -> Result<
    SpecRecord,
    SpecParseError,
> {
    if key == "id"@ {
        match text_field(st.id is Some, key, v) {
            Ok(t) => Ok(SpecRecord { id: Some(t), ..st }),
            Err(e) => Err(e),
        }
    } else if key == "contents"@ {
        if st.contents is Some {
            Err(SpecParseError::DuplicateField(key))
        } else {
            match contents_bytes(v) {
                Ok(b) => Ok(SpecRecord { contents: Some(b), ..st }),
                Err(e) => Err(e),
            }
        }
    } else {
        Err(SpecParseError::UnknownField(key))
    }
}

/// Reads the pairs in order; the first error ends the reading.
pub open spec fn record_run(st: SpecRecord, entries: Seq<(String, Value)>) -> Result<
    SpecRecord,
    SpecParseError,
>
    decreases entries.len(),
{
    if entries.len() == 0 {
        Ok(st)
    } else {
        match record_step(st, entries[0].0@, entries[0].1) {
            Ok(s) => record_run(s, entries.drop_first()),
            Err(e) => Err(e),
        }
    }
}

/// The signature record that a mapping describes; `contents` is required.
pub open spec fn parse_record(entries: Seq<(String, Value)>) -> Result<
    SpecContents,
    SpecParseError,
> {
    match record_run(SpecRecord { id: None, contents: None }, entries) {
        Ok(st) => match st.contents {
            Some(b) => Ok(SpecContents { id: st.id, contents: b }),
            None => Err(SpecParseError::MissingField("contents"@)),
        },
        Err(e) => Err(e),
    }
}

impl Contents {
    /// Decodes a signature record from the key/value pairs of a mapping.
    pub fn from_entries(entries: &Vec<(String, Value)>) -> (r: Result<Contents, ParseError>)
        ensures
            result_view(r) == parse_record(entries@),
    {
        let mut id: Option<String> = None;
        let mut contents: Option<Vec<u8>> = None;
        let mut i: usize = 0;
        assert(entries@.skip(0) =~= entries@);
        while i < entries.len()
            invariant
                i <= entries@.len(),
                record_run(SpecRecord { id: None, contents: None }, entries@) == record_run(
                    SpecRecord {
                        id: opt_view(id),
                        contents: match contents {
                            Some(b) => Some(b@),
                            None => None,
                        },
                    },
                    entries@.skip(i as int),
                ),
            decreases entries@.len() - i,
        {
            let (key, v) = &entries[i];
            assert(entries@.skip(i as int)[0] == entries@[i as int]);
            assert(entries@.skip(i as int).drop_first() =~= entries@.skip(i as int + 1));
            if key_is(key, "id") {
                id = Some(read_text(id.is_some(), key, v)?);
            } else if key_is(key, "contents") {
                if contents.is_some() {
                    return Err(ParseError::DuplicateField(key.clone()));
                }
                contents = Some(try_build(v)?.0);
            } else {
                return Err(ParseError::UnknownField(key.clone()));
            }
            i += 1;
        }
        match contents {
            Some(b) => Ok(Contents { id, contents: b }),
            None => Err(ParseError::MissingField("contents".to_owned())),
        }
    }
}

} // verus!
