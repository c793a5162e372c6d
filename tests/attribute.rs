use ksy_attribute::{Attribute, AttributeType, Endian, Enumeration, Integer, LongType, Value};

fn text(s: &str) -> Value {
    Value::Str(s.to_string())
}

fn entry(key: &str, v: Value) -> (String, Value) {
    (key.to_string(), v)
}

fn bytes_of(items: &[i128]) -> Value {
    Value::List(items.iter().map(|n| Value::Int(*n)).collect())
}

fn contents_of(a: Attribute) -> Vec<u8> {
    match a.type_ {
        AttributeType::Contents(contents) => contents,
        _ => unreachable!(),
    }
}

#[test]
fn tests_simple_de() {
    let entries = vec![
        entry("id", text("magic1")),
        entry("contents", bytes_of(&[0xca, 0xfe, 0xba, 0xbe])),
        entry("doc", text("example")),
        entry("doc-ref", text("ref1")),
    ];
    let attribute = Attribute::from_entries(&entries).unwrap();
    assert_eq!(attribute.id, Some("magic1".to_string()));
    assert_eq!(attribute.doc, Some("example".to_string()));
    assert_eq!(attribute.doc_ref, Some("ref1".to_string()));
    assert_eq!(contents_of(attribute), vec![0xCA, 0xFE, 0xBA, 0xBE]);
}

#[test]
fn tests_without_id() {
    let entries = vec![
        entry("contents", text("JFIF")),
        entry("doc", text("example")),
        entry("doc-ref", text("ref1")),
    ];
    let attribute = Attribute::from_entries(&entries).unwrap();
    assert_eq!(attribute.id, None);
    assert_eq!(attribute.doc, Some("example".to_string()));
    assert_eq!(attribute.doc_ref, Some("ref1".to_string()));
    assert_eq!(contents_of(attribute), b"JFIF".to_vec());
}

#[test]
fn tests_string_case() {
    let entries = vec![
        entry("id", text("magic1")),
        entry("contents", text("JFIF")),
        entry("doc", text("example")),
        entry("doc-ref", text("ref1")),
    ];
    let attribute = Attribute::from_entries(&entries).unwrap();
    assert_eq!(attribute.id, Some("magic1".to_string()));
    assert_eq!(attribute.doc, Some("example".to_string()));
    assert_eq!(attribute.doc_ref, Some("ref1".to_string()));
    assert_eq!(contents_of(attribute), b"JFIF".to_vec());
}

#[test]
fn tests_extra_field() {
    let entries = vec![
        entry("id", text("magic1")),
        entry("contents", text("JFIF")),
        entry("doc", text("example")),
        entry("doc-ref", text("ref1")),
        entry("extra_field", Value::Null),
    ];
    let result = Attribute::from_entries(&entries);
    assert!(result.is_err());
}

#[test]
fn tests_string_and_number_case() {
    let entries = vec![
        entry("id", text("magic1")),
        entry("contents", Value::List(vec![text("CAFE"), Value::Int(0), text("BABE")])),
        entry("doc", text("example")),
        entry("doc-ref", text("ref1")),
    ];
    let attribute = Attribute::from_entries(&entries).unwrap();
    assert_eq!(attribute.id, Some("magic1".to_string()));
    assert_eq!(attribute.doc, Some("example".to_string()));
    assert_eq!(attribute.doc_ref, Some("ref1".to_string()));
    assert_eq!(contents_of(attribute), vec![67, 65, 70, 69, 0, 66, 65, 66, 69]);
}

#[test]
fn tests_byte_and_number_case() {
    let entries = vec![
        entry("id", text("magic1")),
        entry(
            "contents",
            Value::List(vec![text("foo"), Value::Int(0), text("A"), Value::Int(0xa), Value::Int(42)]),
        ),
        entry("doc", text("example")),
        entry("doc-ref", text("ref1")),
    ];
    let attribute = Attribute::from_entries(&entries).unwrap();
    assert_eq!(attribute.id, Some("magic1".to_string()));
    assert_eq!(attribute.doc, Some("example".to_string()));
    assert_eq!(attribute.doc_ref, Some("ref1".to_string()));
    assert_eq!(contents_of(attribute), vec![102, 111, 111, 0, 65, 10, 42]);
}

#[test]
fn tests_extreme_example() {
    let entries = vec![
        entry("id", text("magic1")),
        entry(
            "contents",
            Value::List(vec![Value::Int(1), Value::Int(0x55), text("\u{2592},3"), Value::Int(3)]),
        ),
        entry("doc", text("example")),
        entry("doc-ref", text("ref1")),
    ];
    let attribute = Attribute::from_entries(&entries).unwrap();
    assert_eq!(attribute.id, Some("magic1".to_string()));
    assert_eq!(attribute.doc, Some("example".to_string()));
    assert_eq!(attribute.doc_ref, Some("ref1".to_string()));
    assert_eq!(contents_of(attribute), vec![1, 85, 226, 150, 146, 44, 51, 3]);
}

#[test]
fn duplicate_contents() {
    let entries = vec![
        entry("id", text("magic1")),
        entry("contents", text("JFIF")),
        entry("contents", text("JFIF")),
        entry("doc", text("example")),
        entry("doc-ref", text("ref1")),
    ];
    let result = Attribute::from_entries(&entries);
    assert!(result.is_err());
}

#[test]
fn simple_enum1() {
    let entries = vec![
        entry("id", text("id_1")),
        entry("type", text("u2le")),
        entry("enum", text("ip_prot")),
        entry("doc", text("My_doc")),
    ];
    let deserialized = Attribute::from_entries(&entries).expect("Failed!");
    let expect = Attribute {
        id: Some(String::from("id_1")),
        doc_ref: None,
        doc: Some(String::from("My_doc")),
        type_: AttributeType::Enumeration(Enumeration {
            name: String::from("ip_prot"),
            type_: Integer::Long { type_: LongType::U2, endian: Some(Endian::Little) },
        }),
    };
    assert_eq!(deserialized, expect);
}

#[test]
fn simple_enum2() {
    let entries = vec![
        entry("id", text("data1")),
        entry("type", text("s1")),
        entry("enum", text("ip_prot")),
        entry("doc", text("My doc")),
    ];
    let deserialized = Attribute::from_entries(&entries).expect("Failed!");
    let expect = Attribute {
        id: Some(String::from("data1")),
        doc: Some(String::from("My doc")),
        doc_ref: None,
        type_: AttributeType::Enumeration(Enumeration {
            name: String::from("ip_prot"),
            type_: Integer::S1,
        }),
    };
    assert_eq!(deserialized, expect);
}

#[test]
fn incorrect_type_enum1() {
    let entries = vec![
        entry("id", text("birth_year")),
        entry("enum", text("MA1")),
        entry("type", text("incorrect")),
        entry("doc", text("My doc")),
    ];
    let deserialized = Attribute::from_entries(&entries);
    assert!(deserialized.is_err())
}

#[test]
fn incorrect_type_enum2() {
    let entries = vec![
        entry("id", text("birth_year")),
        entry("enum", text("MA1")),
        entry("type", text("u2lee")),
        entry("doc", text("My doc")),
    ];
    let deserialized = Attribute::from_entries(&entries);
    assert!(deserialized.is_err())
}
