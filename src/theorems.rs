//! Laws of attribute decoding, stated over the specification of
//! [`Attribute::from_entries`](crate::attribute::Attribute::from_entries).
use crate::attribute::{
    empty_context, is_common_key, parse_entries, run, step, SpecAttribute, SpecAttributeType,
    SpecContext,
};
use crate::contents::{contents_bytes, list_bytes};
use crate::error::SpecParseError;
use crate::integer::{lemma_token_round_trip, token_of};
use crate::value::{text_of, Value};
use vstd::prelude::*;

verus! {

/// The literal keys of the grammar are pairwise distinct.
proof fn lemma_keys_distinct()
    ensures
        "id"@ != "doc"@,
        "id"@ != "doc-ref"@,
        "id"@ != "-orig-id"@,
        "id"@ != "if"@,
        "id"@ != "type"@,
        "id"@ != "size"@,
        "id"@ != "size-eos"@,
        "id"@ != "contents"@,
        "id"@ != "enum"@,
        "doc"@ != "doc-ref"@,
        "doc"@ != "-orig-id"@,
        "doc"@ != "if"@,
        "doc"@ != "type"@,
        "doc"@ != "size"@,
        "doc"@ != "size-eos"@,
        "doc"@ != "contents"@,
        "doc"@ != "enum"@,
        "doc-ref"@ != "-orig-id"@,
        "doc-ref"@ != "if"@,
        "doc-ref"@ != "type"@,
        "doc-ref"@ != "size"@,
        "doc-ref"@ != "size-eos"@,
        "doc-ref"@ != "contents"@,
        "doc-ref"@ != "enum"@,
        "-orig-id"@ != "if"@,
        "-orig-id"@ != "type"@,
        "-orig-id"@ != "size"@,
        "-orig-id"@ != "size-eos"@,
        "-orig-id"@ != "contents"@,
        "-orig-id"@ != "enum"@,
        "if"@ != "type"@,
        "if"@ != "size"@,
        "if"@ != "size-eos"@,
        "if"@ != "contents"@,
        "if"@ != "enum"@,
        "type"@ != "size"@,
        "type"@ != "size-eos"@,
        "type"@ != "contents"@,
        "type"@ != "enum"@,
        "size"@ != "size-eos"@,
        "size"@ != "contents"@,
        "size"@ != "enum"@,
        "size-eos"@ != "contents"@,
        "size-eos"@ != "enum"@,
        "contents"@ != "enum"@,
{
    reveal_strlit("id");
    reveal_strlit("doc");
    reveal_strlit("doc-ref");
    reveal_strlit("-orig-id");
    reveal_strlit("if");
    reveal_strlit("type");
    reveal_strlit("size");
    reveal_strlit("size-eos");
    reveal_strlit("contents");
    reveal_strlit("enum");
    assert("id"@[1] != "if"@[1]);
    assert("doc"@[0] != "-orig-id"@[0]);
    assert("type"@[0] != "size"@[0]);
    assert("doc-ref"@[0] != "contents"@[0]);
    assert("doc"@.len() != "doc-ref"@.len());
    assert("size"@.len() != "size-eos"@.len());
}

/// Reading the pairs `e1 + e2` is reading `e1`, then `e2`.
pub proof fn lemma_run_concat(ctx: SpecContext, e1: Seq<(String, Value)>, e2: Seq<(String, Value)>)
    ensures
        run(ctx, e1 + e2) == match run(ctx, e1) {
            Ok(c) => run(c, e2),
            Err(e) => Err(e),
        },
    decreases e1.len(),
{
    if e1.len() == 0 {
        assert(e1 + e2 =~= e2);
    } else {
        assert((e1 + e2)[0] == e1[0]);
        assert((e1 + e2).drop_first() =~= e1.drop_first() + e2);
        if let Ok(c) = step(ctx, e1[0].0@, e1[0].1) {
            lemma_run_concat(c, e1.drop_first(), e2);
        }
    }
}

/// A filled slot stays filled; a `contents` or `enum` key then fails.
proof fn lemma_full_slot_step(ctx: SpecContext, key: Seq<char>, v: Value)
    requires
        !(ctx.slot is Empty),
    ensures
        step(ctx, key, v) matches Ok(c) ==> c.slot == ctx.slot,
        key == "contents"@ || key == "enum"@ ==> step(ctx, key, v) is Err,
{
    lemma_keys_distinct();
}

proof fn lemma_full_slot_fails(ctx: SpecContext, es: Seq<(String, Value)>, k: int)
    requires
        !(ctx.slot is Empty),
        0 <= k < es.len(),
        es[k].0@ == "contents"@ || es[k].0@ == "enum"@,
    ensures
        run(ctx, es) is Err,
    decreases k,
{
    lemma_full_slot_step(ctx, es[0].0@, es[0].1);
    if k > 0 {
        if let Ok(c) = step(ctx, es[0].0@, es[0].1) {
            lemma_full_slot_fails(c, es.drop_first(), k - 1);
        }
    }
}

proof fn lemma_contents_and_enum_run(ctx: SpecContext, es: Seq<(String, Value)>, i: int, j: int)
    requires
        0 <= i < es.len(),
        0 <= j < es.len(),
        es[i].0@ == "contents"@,
        es[j].0@ == "enum"@,
    ensures
        run(ctx, es) is Err,
    decreases es.len(),
{
    lemma_keys_distinct();
    if !(ctx.slot is Empty) {
        lemma_full_slot_fails(ctx, es, i);
    } else if let Ok(c) = step(ctx, es[0].0@, es[0].1) {
        if i == 0 {
            lemma_full_slot_fails(c, es.drop_first(), j - 1);
        } else if j == 0 {
            lemma_full_slot_fails(c, es.drop_first(), i - 1);
        } else {
            lemma_contents_and_enum_run(c, es.drop_first(), i - 1, j - 1);
        }
    }
}

/// A mapping with both a `contents` key and an `enum` key never decodes,
/// whichever comes first.
pub proof fn lemma_contents_and_enum_fail(entries: Seq<(String, Value)>, i: int, j: int)
    requires
        0 <= i < entries.len(),
        0 <= j < entries.len(),
        entries[i].0@ == "contents"@,
        entries[j].0@ == "enum"@,
    ensures
        parse_entries(entries) is Err,
{
    lemma_contents_and_enum_run(empty_context(), entries, i, j);
}

/// The keys that may appear at most once: the common keys, `contents` and
/// `enum`.
pub open spec fn is_single_key(key: Seq<char>) -> bool {
    is_common_key(key) || key == "contents"@ || key == "enum"@
}

/// Whether the context has read `key`.
pub open spec fn has_read(ctx: SpecContext, key: Seq<char>) -> bool {
    if key == "id"@ {
        ctx.id is Some
    } else if key == "doc"@ {
        ctx.doc is Some
    } else if key == "doc-ref"@ {
        ctx.doc_ref is Some
    } else if key == "-orig-id"@ {
        ctx.orig_id is Some
    } else if key == "if"@ {
        ctx.if_expr is Some
    } else if key == "type"@ {
        ctx.type_ is Some
    } else if key == "size"@ {
        ctx.size is Some
    } else if key == "size-eos"@ {
        ctx.size_eos is Some
    } else if key == "contents"@ {
        ctx.slot is Contents
    } else if key == "enum"@ {
        ctx.slot is EnumName
    } else {
        false
    }
}

proof fn lemma_step_has_read(ctx: SpecContext, k: Seq<char>, key: Seq<char>, v: Value)
    requires
        is_single_key(key),
    ensures
        step(ctx, k, v) matches Ok(c) ==> (has_read(ctx, key) || k == key ==> has_read(c, key)),
        has_read(ctx, key) && k == key ==> step(ctx, k, v) == Err::<SpecContext, SpecParseError>(
            SpecParseError::DuplicateField(key),
        ),
{
    lemma_keys_distinct();
}

proof fn lemma_run_has_read(ctx: SpecContext, es: Seq<(String, Value)>, i: int, key: Seq<char>)
    requires
        is_single_key(key),
        has_read(ctx, key) || (0 <= i < es.len() && es[i].0@ == key),
    ensures
        run(ctx, es) matches Ok(c) ==> has_read(c, key),
    decreases es.len(),
{
    if es.len() > 0 {
        lemma_step_has_read(ctx, es[0].0@, key, es[0].1);
        if let Ok(c) = step(ctx, es[0].0@, es[0].1) {
            lemma_run_has_read(c, es.drop_first(), i - 1, key);
        }
    }
}

/// A key that may appear once, given twice, fails: with `DuplicateField`
/// of that key when nothing before its second occurrence failed; the two
/// values may be equal.
pub proof fn lemma_duplicate_key_fails(entries: Seq<(String, Value)>, i: int, j: int)
    requires
        0 <= i < j < entries.len(),
        entries[i].0@ == entries[j].0@,
        is_single_key(entries[i].0@),
    ensures
        parse_entries(entries) is Err,
        run(empty_context(), entries.take(j)) is Ok ==> parse_entries(entries) == Err::<
            SpecAttribute,
            SpecParseError,
        >(SpecParseError::DuplicateField(entries[i].0@)),
{
    let key = entries[i].0@;
    let pre = entries.take(j);
    let rest = entries.skip(j);
    assert(entries =~= pre + rest);
    lemma_run_concat(empty_context(), pre, rest);
    lemma_run_has_read(empty_context(), pre, i, key);
    if let Ok(c) = run(empty_context(), pre) {
        assert(rest[0] == entries[j]);
        lemma_step_has_read(c, key, key, rest[0].1);
    }
}

proof fn lemma_run_untyped(ctx: SpecContext, es: Seq<(String, Value)>)
    requires
        ctx.type_ is None,
        ctx.slot is Empty,
        forall|k: int|
            0 <= k < es.len() ==> es[k].0@ != "type"@ && es[k].0@ != "contents"@ && es[k].0@
                != "enum"@,
    ensures
        run(ctx, es) matches Ok(c) ==> c.type_ is None && c.slot is Empty,
    decreases es.len(),
{
    lemma_keys_distinct();
    if es.len() > 0 {
        if let Ok(c) = step(ctx, es[0].0@, es[0].1) {
            assert(es[0].0@ != "type"@);
            lemma_run_untyped(c, es.drop_first());
        }
    }
}

/// A mapping without `type`, `contents` and `enum` whose keys are all read
/// without error fails with `MissingField("type")`.
pub proof fn lemma_missing_type(entries: Seq<(String, Value)>)
    requires
        forall|k: int|
            0 <= k < entries.len() ==> entries[k].0@ != "type"@ && entries[k].0@ != "contents"@
                && entries[k].0@ != "enum"@,
        run(empty_context(), entries) is Ok,
    ensures
        parse_entries(entries) == Err::<SpecAttribute, SpecParseError>(
            SpecParseError::MissingField("type"@),
        ),
{
    lemma_run_untyped(empty_context(), entries);
}

/// The shape of a value in the canonical form of an attribute.
pub enum Shape {
    /// A string with this text.
    Text(Seq<char>),
    /// A list of integers, one for each of these bytes.
    Bytes(Seq<u8>),
}

pub open spec fn conforms(v: Value, sh: Shape) -> bool {
    match sh {
        Shape::Text(t) => text_of(v) == Some(t),
        Shape::Bytes(b) => v matches Value::List(items) && items@.len() == b.len() && forall|k: int|
            0 <= k < b.len() ==> #[trigger] items@[k] == Value::Int(b[k] as i128),
    }
}

/// The pairs `es` have, one for one, the keys and value shapes of `s`.
pub open spec fn conforms_all(es: Seq<(String, Value)>, s: Seq<(Seq<char>, Shape)>) -> bool {
    &&& es.len() == s.len()
    &&& forall|k: int|
        #![trigger es[k]]
        0 <= k < es.len() ==> es[k].0@ == s[k].0 && conforms(es[k].1, s[k].1)
}

pub open spec fn optional_entry(key: Seq<char>, t: Option<Seq<char>>) -> Seq<(Seq<char>, Shape)> {
    match t {
        Some(x) => seq![(key, Shape::Text(x))],
        None => seq![],
    }
}

pub open spec fn kind_shape(k: SpecAttributeType) -> Seq<(Seq<char>, Shape)> {
    match k {
        SpecAttributeType::Contents(b) => seq![("contents"@, Shape::Bytes(b))],
        SpecAttributeType::Integer(i) => seq![("type"@, Shape::Text(token_of(i)))],
        SpecAttributeType::Enumeration(e) => seq![
            ("enum"@, Shape::Text(e.name)),
            ("type"@, Shape::Text(token_of(e.type_))),
        ],
    }
}

/// The canonical form of an attribute: `id`, `doc` and `doc-ref` where
/// present, then `contents` as a list of byte values, `type` alone, or
/// `enum` and `type`.
pub open spec fn canonical_shape(a: SpecAttribute) -> Seq<(Seq<char>, Shape)> {
    optional_entry("id"@, a.id) + optional_entry("doc"@, a.doc) + optional_entry("doc-ref"@, a.doc_ref)
        + kind_shape(a.type_)
}

pub proof fn lemma_conforms_push(
    es: Seq<(String, Value)>,
    s: Seq<(Seq<char>, Shape)>,
    e: (String, Value),
    sh: (Seq<char>, Shape),
)
    requires
        conforms_all(es, s),
        e.0@ == sh.0,
        conforms(e.1, sh.1),
    ensures
        conforms_all(es.push(e), s + seq![sh]),
{
    let es2 = es.push(e);
    let s2 = s + seq![sh];
    assert forall|k: int| 0 <= k < es2.len() implies es2[k].0@ == s2[k].0 && conforms(
        es2[k].1,
        s2[k].1,
    ) by {
        if k < es.len() {
            assert(es2[k] == es[k] && s2[k] == s[k]);
        } else {
            assert(es2[k] == e && s2[k] == sh);
        }
    }
}

proof fn lemma_conforms_sub(es: Seq<(String, Value)>, s: Seq<(Seq<char>, Shape)>, a: int, b: int)
    requires
        conforms_all(es, s),
        0 <= a <= b <= es.len(),
    ensures
        conforms_all(es.subrange(a, b), s.subrange(a, b)),
{
    let e2 = es.subrange(a, b);
    let s2 = s.subrange(a, b);
    assert forall|k: int| 0 <= k < e2.len() implies e2[k].0@ == s2[k].0 && conforms(
        e2[k].1,
        s2[k].1,
    ) by {
        assert(e2[k] == es[a + k] && s2[k] == s[a + k]);
    }
}

proof fn lemma_run_one(ctx: SpecContext, es: Seq<(String, Value)>)
    requires
        es.len() == 1,
    ensures
        run(ctx, es) == step(ctx, es[0].0@, es[0].1),
{
    if let Ok(c) = step(ctx, es[0].0@, es[0].1) {
        assert(run(c, es.drop_first()) == Ok::<SpecContext, SpecParseError>(c));
    }
}

proof fn lemma_list_of_bytes(items: Seq<Value>, b: Seq<u8>)
    requires
        items.len() == b.len(),
        forall|k: int| 0 <= k < b.len() ==> #[trigger] items[k] == Value::Int(b[k] as i128),
    ensures
        list_bytes(items) == Ok::<Seq<u8>, SpecParseError>(b),
    decreases items.len(),
{
    if items.len() > 0 {
        let n = items.len() - 1;
        assert(items.drop_last().len() == n);
        assert forall|k: int| 0 <= k < n implies #[trigger] items.drop_last()[k] == Value::Int(
            b.drop_last()[k] as i128,
        ) by {
            assert(items[k] == Value::Int(b[k] as i128));
        }
        lemma_list_of_bytes(items.drop_last(), b.drop_last());
        assert(items.last() == Value::Int(b[n] as i128));
        assert(b.drop_last() + seq![b[n]] =~= b);
    } else {
        assert(b =~= Seq::<u8>::empty());
    }
}

/// Reading an optional `id`, `doc` or `doc-ref` pair into a context that
/// has not read the key.
proof fn lemma_run_text(ctx: SpecContext, es: Seq<(String, Value)>, key: Seq<char>, t: Option<Seq<char>>)
    requires
        conforms_all(es, optional_entry(key, t)),
        key == "id"@ && ctx.id is None || key == "doc"@ && ctx.doc is None || key == "doc-ref"@
            && ctx.doc_ref is None,
    ensures
        run(ctx, es) == Ok::<SpecContext, SpecParseError>(
            if key == "id"@ {
                SpecContext { id: t, ..ctx }
            } else if key == "doc"@ {
                SpecContext { doc: t, ..ctx }
            } else {
                SpecContext { doc_ref: t, ..ctx }
            },
        ),
{
    lemma_keys_distinct();
    if t is Some {
        lemma_run_one(ctx, es);
        assert(es[0].0@ == key && conforms(es[0].1, Shape::Text(t->0)));
    } else {
        assert(es.len() == 0);
    }
}

/// Reading the pairs of the canonical form of an attribute's variant.
proof fn lemma_run_kind(ctx: SpecContext, es: Seq<(String, Value)>, k: SpecAttributeType)
    requires
        conforms_all(es, kind_shape(k)),
        ctx.type_ is None,
        ctx.slot is Empty,
    ensures
        run(ctx, es) matches Ok(c) && crate::attribute::finish(c) == Ok::<
            SpecAttribute,
            SpecParseError,
        >(SpecAttribute { id: ctx.id, doc: ctx.doc, doc_ref: ctx.doc_ref, type_: k }),
{
    lemma_keys_distinct();
    match k {
        SpecAttributeType::Contents(b) => {
            lemma_run_one(ctx, es);
            assert(es[0].0@ == "contents"@ && conforms(es[0].1, Shape::Bytes(b)));
            if let Value::List(items) = es[0].1 {
                lemma_list_of_bytes(items@, b);
                assert(contents_bytes(es[0].1) == Ok::<Seq<u8>, SpecParseError>(b));
            }
        },
        SpecAttributeType::Integer(i) => {
            lemma_run_one(ctx, es);
            assert(es[0].0@ == "type"@ && conforms(es[0].1, Shape::Text(token_of(i))));
            lemma_token_round_trip(token_of(i), i);
        },
        SpecAttributeType::Enumeration(e) => {
            assert(es[0].0@ == "enum"@ && conforms(es[0].1, Shape::Text(e.name)));
            assert(es[1].0@ == "type"@ && conforms(es[1].1, Shape::Text(token_of(e.type_))));
            let e1 = es.subrange(0, 1);
            let e2 = es.subrange(1, 2);
            assert(es =~= e1 + e2);
            lemma_run_concat(ctx, e1, e2);
            lemma_run_one(ctx, e1);
            let c1 = step(ctx, e1[0].0@, e1[0].1)->Ok_0;
            lemma_run_one(c1, e2);
            lemma_token_round_trip(token_of(e.type_), e.type_);
        },
    }
}

/// Re-reading the canonical form of an attribute gives the same attribute.
pub proof fn lemma_reparse(entries: Seq<(String, Value)>, a: SpecAttribute)
    requires
        conforms_all(entries, canonical_shape(a)),
    ensures
        parse_entries(entries) == Ok::<SpecAttribute, SpecParseError>(a),
{
    lemma_keys_distinct();
    let s1 = optional_entry("id"@, a.id);
    let s2 = optional_entry("doc"@, a.doc);
    let s3 = optional_entry("doc-ref"@, a.doc_ref);
    let s4 = kind_shape(a.type_);
    let s = canonical_shape(a);
    let n1 = s1.len() as int;
    let n2 = n1 + s2.len();
    let n3 = n2 + s3.len();
    let n = entries.len() as int;
    assert(s.subrange(0, n1) =~= s1);
    assert(s.subrange(n1, n2) =~= s2);
    assert(s.subrange(n2, n3) =~= s3);
    assert(s.subrange(n3, n) =~= s4);
    let e1 = entries.subrange(0, n1);
    let e2 = entries.subrange(n1, n2);
    let e3 = entries.subrange(n2, n3);
    let e4 = entries.subrange(n3, n);
    lemma_conforms_sub(entries, s, 0, n1);
    lemma_conforms_sub(entries, s, n1, n2);
    lemma_conforms_sub(entries, s, n2, n3);
    lemma_conforms_sub(entries, s, n3, n);
    assert(entries =~= e1 + (e2 + (e3 + e4)));
    let c0 = empty_context();
    lemma_run_concat(c0, e1, e2 + (e3 + e4));
    lemma_run_text(c0, e1, "id"@, a.id);
    let c1 = SpecContext { id: a.id, ..c0 };
    lemma_run_concat(c1, e2, e3 + e4);
    lemma_run_text(c1, e2, "doc"@, a.doc);
    let c2 = SpecContext { doc: a.doc, ..c1 };
    lemma_run_concat(c2, e3, e4);
    lemma_run_text(c2, e3, "doc-ref"@, a.doc_ref);
    let c3 = SpecContext { doc_ref: a.doc_ref, ..c2 };
    lemma_run_kind(c3, e4, a.type_);
}

/// Two keys read one after the other without error can be read in the
/// other order, to the same context.
proof fn lemma_step_commute(c: SpecContext, k1: Seq<char>, v1: Value, k2: Seq<char>, v2: Value)
    requires
        step(c, k1, v1) is Ok,
        step(step(c, k1, v1)->Ok_0, k2, v2) is Ok,
    ensures
        step(c, k2, v2) is Ok,
        step(step(c, k2, v2)->Ok_0, k1, v1) == step(step(c, k1, v1)->Ok_0, k2, v2),
{
    lemma_keys_distinct();
    if k1 == k2 {
        lemma_step_has_read(c, k1, k1, v1);
        lemma_step_has_read(step(c, k1, v1)->Ok_0, k1, k1, v2);
    }
}

proof fn lemma_run_two(ctx: SpecContext, es: Seq<(String, Value)>)
    requires
        es.len() == 2,
    ensures
        run(ctx, es) == match step(ctx, es[0].0@, es[0].1) {
            Ok(c) => step(c, es[1].0@, es[1].1),
            Err(e) => Err(e),
        },
{
    let e1 = es.subrange(0, 1);
    let e2 = es.subrange(1, 2);
    assert(es =~= e1 + e2);
    lemma_run_concat(ctx, e1, e2);
    lemma_run_one(ctx, e1);
    if let Ok(c) = step(ctx, es[0].0@, es[0].1) {
        lemma_run_one(c, e2);
    }
}

/// Key order does not matter: exchanging two neighbouring pairs of a
/// mapping that decodes gives the same attribute.
pub proof fn lemma_swap_neighbours(entries: Seq<(String, Value)>, i: int)
    requires
        0 <= i < entries.len() - 1,
        parse_entries(entries) is Ok,
    ensures
        parse_entries(entries.update(i, entries[i + 1]).update(i + 1, entries[i])) == parse_entries(
            entries,
        ),
{
    let swapped = entries.update(i, entries[i + 1]).update(i + 1, entries[i]);
    let pre = entries.take(i);
    let pair = entries.subrange(i, i + 2);
    let other = swapped.subrange(i, i + 2);
    let post = entries.skip(i + 2);
    assert(entries =~= pre + (pair + post));
    assert(swapped =~= pre + (other + post));
    let c0 = empty_context();
    lemma_run_concat(c0, pre, pair + post);
    lemma_run_concat(c0, pre, other + post);
    let c = run(c0, pre)->Ok_0;
    lemma_run_concat(c, pair, post);
    lemma_run_concat(c, other, post);
    lemma_run_two(c, pair);
    lemma_run_two(c, other);
    assert(pair[0] == entries[i] && pair[1] == entries[i + 1]);
    assert(other[0] == entries[i + 1] && other[1] == entries[i]);
    lemma_step_commute(c, entries[i].0@, entries[i].1, entries[i + 1].0@, entries[i + 1].1);
}

} // verus!
