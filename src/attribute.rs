use crate::contents::{contents_bytes, try_build as build_contents};
use crate::enumeration::{enumeration_of, try_build as build_enumeration, Enumeration, SpecEnumeration};
use crate::error::{result_view, ParseError, SpecParseError};
use crate::integer::{decode_type, token_of, type_parse, Integer};
use crate::theorems::{
    canonical_shape, conforms_all, kind_shape, lemma_conforms_push, lemma_reparse,
    optional_entry, Shape,
};
use crate::value::{key_is, opt_view, read_text, text_field, text_of, Value};
use vstd::prelude::*;

verus! {

/// What an attribute describes.
#[derive(Debug, Clone, PartialEq)]
pub enum AttributeType {
    /// A fixed byte signature.
    Contents(Vec<u8>),
    /// A plain integer.
    Integer(Integer),
    /// An integer labelled with an enumeration.
    Enumeration(Enumeration),
}

/// The mathematical form of [`AttributeType`].
pub enum SpecAttributeType {
    Contents(Seq<u8>),
    Integer(Integer),
    Enumeration(SpecEnumeration),
}

impl View for AttributeType {
    type V = SpecAttributeType;

    open spec fn view(&self) -> SpecAttributeType {
        match self {
            AttributeType::Contents(b) => SpecAttributeType::Contents(b@),
            AttributeType::Integer(i) => SpecAttributeType::Integer(*i),
            AttributeType::Enumeration(e) => SpecAttributeType::Enumeration(e@),
        }
    }
}

/// One decoded field definition.
#[derive(Debug, Clone, PartialEq)]
pub struct Attribute {
    pub id: Option<String>,
    pub doc: Option<String>,
    pub doc_ref: Option<String>,
    pub type_: AttributeType,
}

/// The mathematical form of [`Attribute`].
pub struct SpecAttribute {
    pub id: Option<Seq<char>>,
    pub doc: Option<Seq<char>>,
    pub doc_ref: Option<Seq<char>>,
    pub type_: SpecAttributeType,
}

impl View for Attribute {
    type V = SpecAttribute;

    open spec fn view(&self) -> SpecAttribute {
        SpecAttribute {
            id: opt_view(self.id),
            doc: opt_view(self.doc),
            doc_ref: opt_view(self.doc_ref),
            type_: self.type_@,
        }
    }
}

/// The value of a `size` key: an expression or a byte count.
#[derive(Debug, Clone, PartialEq)]
pub enum StringOrU64 {
    String(String),
    U64(u64),
}

/// The mathematical form of [`StringOrU64`].
pub enum SpecStringOrU64 {
    String(Seq<char>),
    U64(u64),
}

impl View for StringOrU64 {
    type V = SpecStringOrU64;

    open spec fn view(&self) -> SpecStringOrU64 {
        match self {
            StringOrU64::String(s) => SpecStringOrU64::String(s@),
            StringOrU64::U64(n) => SpecStringOrU64::U64(*n),
        }
    }
}

/// The slot that at most one of `contents` and `enum` fills.
#[derive(Debug)]
pub enum Slot {
    Empty,
    Contents(Vec<u8>),
    EnumName(String),
}

pub enum SpecSlot {
    Empty,
    Contents(Seq<u8>),
    EnumName(Seq<char>),
}

impl View for Slot {
    type V = SpecSlot;

    open spec fn view(&self) -> SpecSlot {
        match self {
            Slot::Empty => SpecSlot::Empty,
            Slot::Contents(b) => SpecSlot::Contents(b@),
            Slot::EnumName(n) => SpecSlot::EnumName(n@),
        }
    }
}

/// What has been read of one attribute so far.
#[derive(Debug)]
pub struct Context {
    pub id: Option<String>,
    pub doc: Option<String>,
    pub doc_ref: Option<String>,
    pub orig_id: Option<String>,
    pub if_expr: Option<String>,
    pub size: Option<StringOrU64>,
    pub size_eos: Option<bool>,
    /// The raw type token, decoded once all keys are read.
    pub type_: Option<String>,
    pub slot: Slot,
}

pub struct SpecContext {
    pub id: Option<Seq<char>>,
    pub doc: Option<Seq<char>>,
    pub doc_ref: Option<Seq<char>>,
    pub orig_id: Option<Seq<char>>,
    pub if_expr: Option<Seq<char>>,
    pub size: Option<SpecStringOrU64>,
    pub size_eos: Option<bool>,
    pub type_: Option<Seq<char>>,
    pub slot: SpecSlot,
}

impl View for Context {
    type V = SpecContext;

    open spec fn view(&self) -> SpecContext {
        SpecContext {
            id: opt_view(self.id),
            doc: opt_view(self.doc),
            doc_ref: opt_view(self.doc_ref),
            orig_id: opt_view(self.orig_id),
            if_expr: opt_view(self.if_expr),
            size: match self.size {
                Some(s) => Some(s@),
                None => None,
            },
            size_eos: self.size_eos,
            type_: opt_view(self.type_),
            slot: self.slot@,
        }
    }
}

pub open spec fn empty_context() -> SpecContext {
    SpecContext {
        id: None,
        doc: None,
        doc_ref: None,
        orig_id: None,
        if_expr: None,
        size: None,
        size_eos: None,
        type_: None,
        slot: SpecSlot::Empty,
    }
}

/// The value of a `size` key.
pub open spec fn size_of(v: Value) -> Option<SpecStringOrU64> {
    match v {
        Value::Str(s) => Some(SpecStringOrU64::String(s@)),
        Value::Int(n) => if 0 <= n <= u64::MAX {
            Some(SpecStringOrU64::U64(n as u64))
        } else {
            None
        },
        _ => None,
    }
}

/// The keys that every attribute may carry, each at most once.
pub open spec fn is_common_key(key: Seq<char>) -> bool {
    key == "id"@ || key == "doc"@ || key == "doc-ref"@ || key == "-orig-id"@ || key == "if"@
        || key == "size"@ || key == "size-eos"@ || key == "type"@
}

/// Reads one common key into the context; `None` when the key is not common.
pub open spec fn collect_common(ctx: SpecContext, key: Seq<char>, v: Value) -> Option<
    Result<SpecContext, SpecParseError>,
> {
    if key == "id"@ {
        Some(
            match text_field(ctx.id is Some, key, v) {
                Ok(t) => Ok(SpecContext { id: Some(t), ..ctx }),
                Err(e) => Err(e),
            },
        )
    } else if key == "doc"@ {
        Some(
            match text_field(ctx.doc is Some, key, v) {
                Ok(t) => Ok(SpecContext { doc: Some(t), ..ctx }),
                Err(e) => Err(e),
            },
        )
    } else if key == "doc-ref"@ {
        Some(
            match text_field(ctx.doc_ref is Some, key, v) {
                Ok(t) => Ok(SpecContext { doc_ref: Some(t), ..ctx }),
                Err(e) => Err(e),
            },
        )
    } else if key == "-orig-id"@ {
        Some(
            match text_field(ctx.orig_id is Some, key, v) {
                Ok(t) => Ok(SpecContext { orig_id: Some(t), ..ctx }),
                Err(e) => Err(e),
            },
        )
    } else if key == "if"@ {
        Some(
            match text_field(ctx.if_expr is Some, key, v) {
                Ok(t) => Ok(SpecContext { if_expr: Some(t), ..ctx }),
                Err(e) => Err(e),
            },
        )
    } else if key == "type"@ {
        Some(
            match text_field(ctx.type_ is Some, key, v) {
                Ok(t) => Ok(SpecContext { type_: Some(t), ..ctx }),
                Err(e) => Err(e),
            },
        )
    } else if key == "size"@ {
        Some(
            if ctx.size is Some {
                Err(SpecParseError::DuplicateField(key))
            } else {
                match size_of(v) {
                    Some(s) => Ok(SpecContext { size: Some(s), ..ctx }),
                    None => Err(SpecParseError::InvalidValue(key)),
                }
            },
        )
    } else if key == "size-eos"@ {
        Some(
            if ctx.size_eos is Some {
                Err(SpecParseError::DuplicateField(key))
            } else {
                match v {
                    Value::Bool(b) => Ok(SpecContext { size_eos: Some(b), ..ctx }),
                    _ => Err(SpecParseError::InvalidValue(key)),
                }
            },
        )
    } else {
        None
    }
}

/// Reads `contents` or `enum` into the slot; `None` for any other key. The
/// same key twice is a duplicate; the other key once the slot is full is a
/// conflict.
pub open spec fn collect_slot(ctx: SpecContext, key: Seq<char>, v: Value) -> Option<
    Result<SpecContext, SpecParseError>,
> {
    if key == "contents"@ {
        Some(
            match ctx.slot {
                SpecSlot::Contents(_) => Err(SpecParseError::DuplicateField(key)),
                SpecSlot::EnumName(_) => Err(SpecParseError::ConflictingVariant),
                SpecSlot::Empty => match contents_bytes(v) {
                    Ok(b) => Ok(SpecContext { slot: SpecSlot::Contents(b), ..ctx }),
                    Err(e) => Err(e),
                },
            },
        )
    } else if key == "enum"@ {
        Some(
            match ctx.slot {
                SpecSlot::EnumName(_) => Err(SpecParseError::DuplicateField(key)),
                SpecSlot::Contents(_) => Err(SpecParseError::ConflictingVariant),
                SpecSlot::Empty => match text_of(v) {
                    Some(n) => Ok(SpecContext { slot: SpecSlot::EnumName(n), ..ctx }),
                    None => Err(SpecParseError::InvalidValue(key)),
                },
            },
        )
    } else {
        None
    }
}

/// Reads one key/value pair.
pub open spec fn step(ctx: SpecContext, key: Seq<char>, v: Value) -> Result<
    SpecContext,
    SpecParseError,
> {
    match collect_common(ctx, key, v) {
        Some(r) => r,
        None => match collect_slot(ctx, key, v) {
            Some(r) => r,
            None => Err(SpecParseError::UnknownField(key)),
        },
    }
}

/// Reads the pairs in order; the first error ends the reading.
pub open spec fn run(ctx: SpecContext, entries: Seq<(String, Value)>) -> Result<
    SpecContext,
    SpecParseError,
>
    decreases entries.len(),
{
    if entries.len() == 0 {
        Ok(ctx)
    } else {
        match step(ctx, entries[0].0@, entries[0].1) {
            Ok(c) => run(c, entries.drop_first()),
            Err(e) => Err(e),
        }
    }
}

/// The attribute that a complete context describes.
pub open spec fn finish(ctx: SpecContext) -> Result<SpecAttribute, SpecParseError> {
    let kind: Result<SpecAttributeType, SpecParseError> = match ctx.slot {
        SpecSlot::Contents(b) => if ctx.type_ is Some {
            Err(SpecParseError::ConflictingVariant)
        } else {
            Ok(SpecAttributeType::Contents(b))
        },
        SpecSlot::EnumName(n) => match enumeration_of(n, ctx.type_) {
            Ok(e) => Ok(SpecAttributeType::Enumeration(e)),
            Err(e) => Err(e),
        },
        SpecSlot::Empty => match ctx.type_ {
            None => Err(SpecParseError::MissingField("type"@)),
            Some(t) => match decode_type(t) {
                Ok(i) => Ok(SpecAttributeType::Integer(i)),
                Err(e) => Err(e),
            },
        },
    };
    match kind {
        Ok(k) => Ok(SpecAttribute { id: ctx.id, doc: ctx.doc, doc_ref: ctx.doc_ref, type_: k }),
        Err(e) => Err(e),
    }
}

/// The attribute that a mapping describes, or the first error met.
pub open spec fn parse_entries(entries: Seq<(String, Value)>) -> Result<
    SpecAttribute,
    SpecParseError,
> {
    match run(empty_context(), entries) {
        Ok(c) => finish(c),
        Err(e) => Err(e),
    }
}

impl Context {
    pub fn new() -> (r: Context)
        ensures
            r@ == empty_context(),
    {
        Context {
            id: None,
            doc: None,
            doc_ref: None,
            orig_id: None,
            if_expr: None,
            size: None,
            size_eos: None,
            type_: None,
            slot: Slot::Empty,
        }
    }

    /// Reads `key` if it is one of the common keys: returns `Ok(false)` and
    /// leaves the context as it is for any other key.
    pub fn collect_common(&mut self, key: &String, v: &Value) -> (r: Result<bool, ParseError>)
        ensures
            match collect_common(old(self)@, key@, *v) {
                None => r == Ok::<bool, ParseError>(false) && final(self)@ == old(self)@,
                Some(Ok(c)) => r == Ok::<bool, ParseError>(true) && final(self)@ == c,
                Some(Err(e)) => r matches Err(x) && x@ == e,
            },
    {
        if key_is(key, "id") {
            let t = read_text(self.id.is_some(), key, v)?;
            self.id = Some(t);
        } else if key_is(key, "doc") {
            let t = read_text(self.doc.is_some(), key, v)?;
            self.doc = Some(t);
        } else if key_is(key, "doc-ref") {
            let t = read_text(self.doc_ref.is_some(), key, v)?;
            self.doc_ref = Some(t);
        } else if key_is(key, "-orig-id") {
            let t = read_text(self.orig_id.is_some(), key, v)?;
            self.orig_id = Some(t);
        } else if key_is(key, "if") {
            let t = read_text(self.if_expr.is_some(), key, v)?;
            self.if_expr = Some(t);
        } else if key_is(key, "type") {
            let t = read_text(self.type_.is_some(), key, v)?;
            self.type_ = Some(t);
        } else if key_is(key, "size") {
            if self.size.is_some() {
                return Err(ParseError::DuplicateField(key.clone()));
            }
            match v {
                Value::Str(s) => {
                    self.size = Some(StringOrU64::String(s.clone()));
                },
                Value::Int(n) => {
                    if 0 <= *n && *n <= u64::MAX as i128 {
                        self.size = Some(StringOrU64::U64(*n as u64));
                    } else {
                        return Err(ParseError::InvalidValue(key.clone()));
                    }
                },
                _ => {
                    return Err(ParseError::InvalidValue(key.clone()));
                },
            }
        } else if key_is(key, "size-eos") {
            if self.size_eos.is_some() {
                return Err(ParseError::DuplicateField(key.clone()));
            }
            match v {
                Value::Bool(b) => {
                    self.size_eos = Some(*b);
                },
                _ => {
                    return Err(ParseError::InvalidValue(key.clone()));
                },
            }
        } else {
            return Ok(false);
        }
        Ok(true)
    }

    /// Reads `key` if it is `contents` or `enum`: returns `Ok(false)` and
    /// leaves the context as it is for any other key.
    pub fn collect_slot(&mut self, key: &String, v: &Value) -> (r: Result<bool, ParseError>)
        ensures
            match collect_slot(old(self)@, key@, *v) {
                None => r == Ok::<bool, ParseError>(false) && final(self)@ == old(self)@,
                Some(Ok(c)) => r == Ok::<bool, ParseError>(true) && final(self)@ == c,
                Some(Err(e)) => r matches Err(x) && x@ == e,
            },
    {
        if key_is(key, "contents") {
            match self.slot {
                Slot::Contents(_) => Err(ParseError::DuplicateField(key.clone())),
                Slot::EnumName(_) => Err(ParseError::ConflictingVariant),
                Slot::Empty => {
                    let b = build_contents(v)?;
                    self.slot = Slot::Contents(b.0);
                    Ok(true)
                },
            }
        } else if key_is(key, "enum") {
            match self.slot {
                Slot::EnumName(_) => Err(ParseError::DuplicateField(key.clone())),
                Slot::Contents(_) => Err(ParseError::ConflictingVariant),
                Slot::Empty => match v {
                    Value::Str(n) => {
                        self.slot = Slot::EnumName(n.clone());
                        Ok(true)
                    },
                    _ => Err(ParseError::InvalidValue(key.clone())),
                },
            }
        } else {
            Ok(false)
        }
    }

    /// Reads one key/value pair: a common key, then `contents` or `enum`;
    /// any other key is unknown.
    pub fn consume(&mut self, key: &String, v: &Value) -> (r: Result<(), ParseError>)
        ensures
            match step(old(self)@, key@, *v) {
                Ok(c) => r is Ok && final(self)@ == c,
                Err(e) => r matches Err(x) && x@ == e,
            },
    {
        if self.collect_common(key, v)? {
            return Ok(());
        }
        if self.collect_slot(key, v)? {
            return Ok(());
        }
        Err(ParseError::UnknownField(key.clone()))
    }

    /// Decides the attribute's variant once every key has been read.
    pub fn finish(self) -> (r: Result<Attribute, ParseError>)
        ensures
            result_view(r) == finish(self@),
    {
        let type_ = match self.slot {
            Slot::Contents(b) => {
                if self.type_.is_some() {
                    return Err(ParseError::ConflictingVariant);
                }
                AttributeType::Contents(b)
            },
            Slot::EnumName(name) => {
                let token = match &self.type_ {
                    Some(t) => Some(t.as_str()),
                    None => None,
                };
                AttributeType::Enumeration(build_enumeration(name, token)?)
            },
            Slot::Empty => match &self.type_ {
                None => {
                    return Err(ParseError::MissingField("type".to_owned()));
                },
                Some(t) => AttributeType::Integer(type_parse(t.as_str())?),
            },
        };
        Ok(Attribute { id: self.id, doc: self.doc, doc_ref: self.doc_ref, type_ })
    }
}

impl Attribute {
    /// Decodes an attribute from the key/value pairs of a mapping, in their
    /// order. Every key is read once; the first error ends the decoding.
    pub fn from_entries(entries: &Vec<(String, Value)>) -> (r: Result<Attribute, ParseError>)
        ensures
            result_view(r) == parse_entries(entries@),
    {
        let mut ctx = Context::new();
        let mut i: usize = 0;
        assert(entries@.skip(0) =~= entries@);
        while i < entries.len()
            invariant
                i <= entries@.len(),
                run(empty_context(), entries@) == run(ctx@, entries@.skip(i as int)),
            decreases entries@.len() - i,
        {
            let (key, v) = &entries[i];
            assert(entries@.skip(i as int)[0] == entries@[i as int]);
            assert(entries@.skip(i as int).drop_first() =~= entries@.skip(i as int + 1));
            ctx.consume(key, v)?;
            i += 1;
        }
        ctx.finish()
    }

    /// The canonical mapping of this attribute: `id`, `doc` and `doc-ref`
    /// where present, then `contents` as a list of byte values, `type`
    /// alone, or `enum` and `type`. Decoding it gives this attribute back.
    pub fn to_entries(&self) -> (r: Vec<(String, Value)>)
        ensures
            conforms_all(r@, canonical_shape(self@)),
            parse_entries(r@) == Ok::<SpecAttribute, SpecParseError>(self@),
    {
        let mut r: Vec<(String, Value)> = Vec::new();
        let ghost mut shape: Seq<(Seq<char>, Shape)> = Seq::empty();
        push_text(&mut r, Ghost(shape), "id", &self.id);
        proof {
            shape = shape + optional_entry("id"@, opt_view(self.id));
        }
        push_text(&mut r, Ghost(shape), "doc", &self.doc);
        proof {
            shape = shape + optional_entry("doc"@, opt_view(self.doc));
        }
        push_text(&mut r, Ghost(shape), "doc-ref", &self.doc_ref);
        proof {
            shape = shape + optional_entry("doc-ref"@, opt_view(self.doc_ref));
        }
        let ghost before = r@;
        let ghost front = shape;
        match &self.type_ {
            AttributeType::Contents(b) => {
                let mut items: Vec<Value> = Vec::new();
                let mut k: usize = 0;
                while k < b.len()
                    invariant
                        k <= b@.len(),
                        items@.len() == k,
                        forall|j: int| 0 <= j < k ==> #[trigger] items@[j] == Value::Int(b@[j] as i128),
                    decreases b@.len() - k,
                {
                    items.push(Value::Int(b[k] as i128));
                    k += 1;
                }
                let entry = ("contents".to_owned(), Value::List(items));
                proof {
                    lemma_conforms_push(before, front, entry, ("contents"@, Shape::Bytes(b@)));
                }
                r.push(entry);
            },
            AttributeType::Integer(i) => {
                let entry = ("type".to_owned(), Value::Str(i.token()));
                proof {
                    lemma_conforms_push(before, front, entry, ("type"@, Shape::Text(token_of(*i))));
                }
                r.push(entry);
            },
            AttributeType::Enumeration(e) => {
                let entry = ("enum".to_owned(), Value::Str(e.name.clone()));
                proof {
                    lemma_conforms_push(before, front, entry, ("enum"@, Shape::Text(e.name@)));
                }
                r.push(entry);
                let ghost mid = r@;
                let entry2 = ("type".to_owned(), Value::Str(e.type_.token()));
                proof {
                    lemma_conforms_push(
                        mid,
                        front + seq![("enum"@, Shape::Text(e.name@))],
                        entry2,
                        ("type"@, Shape::Text(token_of(e.type_))),
                    );
                    assert(front + seq![("enum"@, Shape::Text(e.name@))] + seq![
                        ("type"@, Shape::Text(token_of(e.type_))),
                    ] =~= front + kind_shape(self.type_@));
                }
                r.push(entry2);
            },
        }
        proof {
            assert(front + kind_shape(self.type_@) =~= canonical_shape(self@));
            lemma_reparse(r@, self@);
        }
        r
    }
}

/// Appends `key` with its text, if there is one.
fn push_text(
    r: &mut Vec<(String, Value)>,
    shape: Ghost<Seq<(Seq<char>, Shape)>>,
    key: &str,
    t: &Option<String>,
)
    requires
        conforms_all(old(r)@, shape@),
    ensures
        conforms_all(final(r)@, shape@ + optional_entry(key@, opt_view(*t))),
{
    match t {
        Some(s) => {
            let entry = (key.to_owned(), Value::Str(s.clone()));
            proof {
                lemma_conforms_push(r@, shape@, entry, (key@, Shape::Text(s@)));
            }
            r.push(entry);
        },
        None => {
            assert(shape@ + seq![] =~= shape@);
        },
    }
}

} // verus!
