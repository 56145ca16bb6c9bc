use armonik_api::descriptor::{Cardinality, FieldKind, FieldMeta, MessageMeta, OneofMeta};
use armonik_api::matcher::{not_found, unknown_name, Found, Matcher};

fn field(name: &str, tag: u32, oneof: Option<usize>) -> FieldMeta {
    FieldMeta {
        name: name.to_string(),
        tag,
        kind: FieldKind::String,
        cardinality: Cardinality::Singular,
        docs: Vec::new(),
        oneof,
    }
}

fn message() -> MessageMeta {
    MessageMeta {
        fields: vec![
            field("id", 1, None),
            field("text", 2, Some(0)),
            field("number", 3, Some(0)),
            field("extra", 4, None),
        ],
        oneofs: vec![OneofMeta { name: "value".to_string(), fields: vec![1, 2] }],
        docs: Vec::new(),
    }
}

#[test]
fn a_field_is_found_and_consumed() {
    let meta = message();
    let mut matcher = Matcher::new("pkg.Msg", &meta);
    match matcher.find("id") {
        Ok(Found::Field(field)) => assert_eq!(field.tag, 1),
        _ => panic!("expected the id field"),
    }
    match matcher.find("value") {
        Ok(Found::Oneof { tags }) => assert_eq!(tags, vec![2, 3]),
        _ => panic!("expected the oneof"),
    }
    assert_eq!(
        matcher.check_complete(),
        vec!["proto field `pkg.Msg.extra` (tag 4) is not covered by any Rust field".to_string()]
    );
}

#[test]
fn a_oneof_member_cannot_be_mapped_alone() {
    let meta = message();
    let mut matcher = Matcher::new("pkg.Msg", &meta);
    assert_eq!(
        matcher.find("text").err().unwrap(),
        "proto field `pkg.Msg.text` belongs to a oneof; map the whole oneof to one field named after it"
    );
}

#[test]
fn every_member_mapped_covers_the_oneof() {
    let meta = message();
    let mut matcher = Matcher::new("pkg.Msg", &meta);
    let _ = matcher.find("text");
    let _ = matcher.find("number");
    let _ = matcher.find("id");
    let _ = matcher.find("extra");
    assert!(matcher.check_complete().is_empty());
}

#[test]
fn nothing_consumed_reports_every_field_and_oneof() {
    let meta = message();
    let matcher = Matcher::new("pkg.Msg", &meta);
    assert_eq!(
        matcher.check_complete(),
        vec![
            "proto field `pkg.Msg.id` (tag 1) is not covered by any Rust field".to_string(),
            "proto field `pkg.Msg.text` (tag 2) is not covered by any Rust field".to_string(),
            "proto field `pkg.Msg.number` (tag 3) is not covered by any Rust field".to_string(),
            "proto field `pkg.Msg.extra` (tag 4) is not covered by any Rust field".to_string(),
            "proto oneof `pkg.Msg.value` is not covered by any Rust field".to_string(),
        ]
    );
}

#[test]
fn an_unknown_name_lists_the_sorted_alternatives() {
    let meta = message();
    let mut matcher = Matcher::new("pkg.Msg", &meta);
    assert_eq!(
        matcher.find("nope").err().unwrap(),
        "no field or oneof named `nope` in proto message `pkg.Msg` (available: extra, id, number, text, value); use #[armonik(rename = \"...\")] if the names differ"
    );
}

#[test]
fn the_lookup_messages_have_one_shape() {
    assert_eq!(
        not_found("enum", "pkg.E"),
        "proto enum `pkg.E` not found in the compiled descriptor set"
    );
    assert_eq!(
        unknown_name("value", "X", "proto enum `E`", vec!["b".into(), "a".into(), "B".into()], "hint"),
        "no value named `X` in proto enum `E` (available: B, a, b); hint"
    );
    assert_eq!(unknown_name("v", "X", "c", Vec::new(), "h"), "no v named `X` in c (available: ); h");
}

#[test]
fn exactly_what_no_name_found_is_reported() {
    let meta = message();
    let mut matcher = Matcher::new("pkg.Msg", &meta);
    let _ = matcher.find("text");
    let _ = matcher.find("nope");
    assert_eq!(
        matcher.check_complete(),
        vec![
            "proto field `pkg.Msg.id` (tag 1) is not covered by any Rust field".to_string(),
            "proto field `pkg.Msg.number` (tag 3) is not covered by any Rust field".to_string(),
            "proto field `pkg.Msg.extra` (tag 4) is not covered by any Rust field".to_string(),
            "proto oneof `pkg.Msg.value` is not covered by any Rust field".to_string(),
        ]
    );
}
