use ksy_attribute::{
    Attribute, AttributeType, Endian, Enumeration, Integer, LongType, ParseError, Value,
};

fn text(s: &str) -> Value {
    Value::Str(s.to_string())
}

fn entry(key: &str, v: Value) -> (String, Value) {
    (key.to_string(), v)
}

#[test]
fn mixed_contents_list_concatenates() {
    let entries = vec![entry(
        "contents",
        Value::List(vec![Value::Int(1), Value::Int(0x55), text("abc"), Value::Int(3)]),
    )];
    let a = Attribute::from_entries(&entries).unwrap();
    assert_eq!(a.type_, AttributeType::Contents(vec![1, 85, b'a', b'b', b'c', 3]));
}

#[test]
fn contents_string_is_its_bytes() {
    let entries = vec![entry("contents", text("JFIF"))];
    let a = Attribute::from_entries(&entries).unwrap();
    assert_eq!(a.type_, AttributeType::Contents(vec![0x4A, 0x46, 0x49, 0x46]));
}

#[test]
fn contents_hex_looking_string_is_literal() {
    let entries = vec![entry("contents", text("0xCA"))];
    let a = Attribute::from_entries(&entries).unwrap();
    assert_eq!(a.type_, AttributeType::Contents(b"0xCA".to_vec()));
}

#[test]
fn empty_contents_list_is_empty_signature() {
    let entries = vec![entry("contents", Value::List(vec![]))];
    let a = Attribute::from_entries(&entries).unwrap();
    assert_eq!(a.type_, AttributeType::Contents(vec![]));
}

#[test]
fn contents_and_enum_conflict_in_either_order() {
    let first = vec![entry("contents", text("JFIF")), entry("enum", text("e"))];
    let second = vec![entry("enum", text("e")), entry("contents", text("JFIF"))];
    assert_eq!(Attribute::from_entries(&first), Err(ParseError::ConflictingVariant));
    assert_eq!(Attribute::from_entries(&second), Err(ParseError::ConflictingVariant));
    let apart = vec![
        entry("enum", text("e")),
        entry("type", text("u1")),
        entry("id", text("x")),
        entry("contents", text("JFIF")),
    ];
    assert!(Attribute::from_entries(&apart).is_err());
}

#[test]
fn contents_with_type_conflicts() {
    let entries = vec![entry("type", text("u1")), entry("contents", text("JFIF"))];
    assert_eq!(Attribute::from_entries(&entries), Err(ParseError::ConflictingVariant));
}

#[test]
fn enum_with_u2le() {
    let entries = vec![entry("enum", text("ip_prot")), entry("type", text("u2le"))];
    let a = Attribute::from_entries(&entries).unwrap();
    assert_eq!(
        a.type_,
        AttributeType::Enumeration(Enumeration {
            name: "ip_prot".to_string(),
            type_: Integer::Long { type_: LongType::U2, endian: Some(Endian::Little) },
        })
    );
    assert_eq!(a.id, None);
}

#[test]
fn duplicate_id_fails_even_when_equal() {
    let entries = vec![
        entry("id", text("birth_year")),
        entry("id", text("birth_year")),
        entry("type", text("u2le")),
    ];
    assert_eq!(
        Attribute::from_entries(&entries),
        Err(ParseError::DuplicateField("id".to_string()))
    );
    let other = vec![
        entry("id", text("birth_year")),
        entry("id", text("madagaskar")),
        entry("type", text("u2le")),
    ];
    assert_eq!(
        Attribute::from_entries(&other),
        Err(ParseError::DuplicateField("id".to_string()))
    );
}

#[test]
fn duplicate_type_and_enum() {
    let types = vec![entry("type", text("u1")), entry("type", text("u1"))];
    assert_eq!(
        Attribute::from_entries(&types),
        Err(ParseError::DuplicateField("type".to_string()))
    );
    let enums = vec![entry("enum", text("a")), entry("enum", text("b"))];
    assert_eq!(
        Attribute::from_entries(&enums),
        Err(ParseError::DuplicateField("enum".to_string()))
    );
}

#[test]
fn only_id_and_doc_misses_type() {
    let entries = vec![entry("id", text("x")), entry("doc", text("y"))];
    assert_eq!(
        Attribute::from_entries(&entries),
        Err(ParseError::MissingField("type".to_string()))
    );
    assert_eq!(
        Attribute::from_entries(&vec![]),
        Err(ParseError::MissingField("type".to_string()))
    );
}

#[test]
fn enum_without_type_misses_type() {
    let entries = vec![entry("enum", text("e"))];
    assert_eq!(
        Attribute::from_entries(&entries),
        Err(ParseError::MissingField("type".to_string()))
    );
}

#[test]
fn plain_integer_attribute() {
    let entries = vec![
        entry("doc", text("year")),
        entry("type", text("s4be")),
        entry("id", text("birth_year")),
    ];
    let a = Attribute::from_entries(&entries).unwrap();
    assert_eq!(
        a,
        Attribute {
            id: Some("birth_year".to_string()),
            doc: Some("year".to_string()),
            doc_ref: None,
            type_: AttributeType::Integer(Integer::Long {
                type_: LongType::S4,
                endian: Some(Endian::Big),
            }),
        }
    );
}

#[test]
fn single_byte_with_endian_is_invalid_type() {
    let entries = vec![entry("id", text("birth_year")), entry("type", text("u1le"))];
    assert_eq!(
        Attribute::from_entries(&entries),
        Err(ParseError::InvalidType("u1le".to_string()))
    );
}

#[test]
fn unknown_key_is_reported() {
    let entries = vec![
        entry("id", text("birth_year")),
        entry("type", text("u1")),
        entry("Hype", text("hehe")),
    ];
    assert_eq!(
        Attribute::from_entries(&entries),
        Err(ParseError::UnknownField("Hype".to_string()))
    );
}

#[test]
fn bookkeeping_keys_are_accepted_once() {
    let entries = vec![
        entry("-orig-id", text("orig")),
        entry("if", text("a > 1")),
        entry("size", Value::Int(20)),
        entry("size-eos", Value::Bool(true)),
        entry("type", text("u1")),
    ];
    let a = Attribute::from_entries(&entries).unwrap();
    assert_eq!(a.type_, AttributeType::Integer(Integer::U1));
    let sized = vec![entry("size", text("len * 2")), entry("type", text("u8"))];
    assert!(Attribute::from_entries(&sized).is_ok());
    let twice = vec![entry("size", Value::Int(1)), entry("size", Value::Int(1))];
    assert_eq!(
        Attribute::from_entries(&twice),
        Err(ParseError::DuplicateField("size".to_string()))
    );
}

#[test]
fn wrongly_shaped_values_are_invalid() {
    let id = vec![entry("id", Value::Int(5)), entry("type", text("u1"))];
    assert_eq!(Attribute::from_entries(&id), Err(ParseError::InvalidValue("id".to_string())));
    let size = vec![entry("size", Value::Int(-1))];
    assert_eq!(Attribute::from_entries(&size), Err(ParseError::InvalidValue("size".to_string())));
    let eos = vec![entry("size-eos", text("yes"))];
    assert_eq!(
        Attribute::from_entries(&eos),
        Err(ParseError::InvalidValue("size-eos".to_string()))
    );
    let contents = vec![entry("contents", Value::Int(3))];
    assert_eq!(
        Attribute::from_entries(&contents),
        Err(ParseError::InvalidValue("contents".to_string()))
    );
    let name = vec![entry("enum", Value::Null)];
    assert_eq!(Attribute::from_entries(&name), Err(ParseError::InvalidValue("enum".to_string())));
}

#[test]
fn contents_byte_out_of_range() {
    for n in [256, -1, 1000] {
        let entries = vec![entry("contents", Value::List(vec![Value::Int(1), Value::Int(n)]))];
        assert_eq!(Attribute::from_entries(&entries), Err(ParseError::InvalidByteValue));
    }
}

#[test]
fn contents_element_of_other_kind() {
    for v in [Value::Bool(true), Value::Null, Value::List(vec![]), Value::Other] {
        let entries = vec![entry("contents", Value::List(vec![text("a"), v]))];
        assert_eq!(Attribute::from_entries(&entries), Err(ParseError::InvalidElementType));
    }
}

#[test]
fn canonical_form_decodes_back() {
    let attributes = vec![
        Attribute {
            id: Some("magic".to_string()),
            doc: Some("signature".to_string()),
            doc_ref: Some("spec 1".to_string()),
            type_: AttributeType::Contents(vec![0xCA, 0xFE, 0, 255]),
        },
        Attribute {
            id: None,
            doc: None,
            doc_ref: None,
            type_: AttributeType::Integer(Integer::Long { type_: LongType::S8, endian: None }),
        },
        Attribute {
            id: Some("proto".to_string()),
            doc: None,
            doc_ref: Some("r".to_string()),
            type_: AttributeType::Enumeration(Enumeration {
                name: "ip_prot".to_string(),
                type_: Integer::Long { type_: LongType::U2, endian: Some(Endian::Big) },
            }),
        },
    ];
    for a in attributes {
        let entries = a.to_entries();
        assert_eq!(Attribute::from_entries(&entries), Ok(a));
    }
}

#[test]
fn canonical_form_layout() {
    let a = Attribute {
        id: Some("x".to_string()),
        doc: None,
        doc_ref: None,
        type_: AttributeType::Enumeration(Enumeration {
            name: "e".to_string(),
            type_: Integer::Long { type_: LongType::U4, endian: Some(Endian::Little) },
        }),
    };
    assert_eq!(
        a.to_entries(),
        vec![entry("id", text("x")), entry("enum", text("e")), entry("type", text("u4le"))]
    );
}

#[test]
fn key_order_does_not_change_the_result() {
    let forward = vec![
        entry("id", text("proto")),
        entry("doc", text("protocol")),
        entry("type", text("u1")),
        entry("enum", text("ip_prot")),
    ];
    let backward = vec![
        entry("enum", text("ip_prot")),
        entry("type", text("u1")),
        entry("doc", text("protocol")),
        entry("id", text("proto")),
    ];
    let a = Attribute::from_entries(&forward).unwrap();
    assert_eq!(Attribute::from_entries(&backward), Ok(a));
}
