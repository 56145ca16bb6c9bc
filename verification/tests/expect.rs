use armonik_api::descriptor::{Cardinality, FieldKind, FieldMeta, MessageMeta, OneofMeta};
use armonik_api::expect::{
    alias_checks, checked_type_name, describe, kind_description, proto_type_name, shape_message, unsupported_kind,
    unsupported_message, Expectation,
};
use armonik_api::kind;

fn expectation(kind: FieldKind, cardinality: Cardinality) -> Expectation {
    let field = FieldMeta {
        name: "f".to_string(),
        tag: 1,
        kind,
        cardinality,
        docs: Vec::new(),
        oneof: None,
    };
    Expectation::of(&field)
}

#[test]
fn kinds_read_by_their_proto_names() {
    assert_eq!(kind_description(&FieldKind::UInt64), "uint64");
    assert_eq!(kind_description(&FieldKind::Bytes), "bytes");
    assert_eq!(
        kind_description(&FieldKind::Message("pkg.Msg".to_string())),
        "message pkg.Msg"
    );
    assert_eq!(kind_description(&FieldKind::Enum("pkg.E".to_string())), "enum pkg.E");
    assert_eq!(kind_description(&FieldKind::Unsupported("sint32".to_string())), "sint32");
}

#[test]
fn only_message_and_enum_kinds_name_a_type() {
    assert_eq!(proto_type_name(&FieldKind::Message("a.B".to_string())), Some("a.B"));
    assert_eq!(proto_type_name(&FieldKind::Enum("a.C".to_string())), Some("a.C"));
    assert_eq!(proto_type_name(&FieldKind::Int32), None);
}

#[test]
fn a_singular_message_may_also_be_optional() {
    let e = expectation(FieldKind::Message("pkg.Msg".to_string()), Cardinality::Singular);
    assert_eq!(
        describe(&e),
        "singular or optional (explicit presence) message pkg.Msg"
    );
    let e = expectation(FieldKind::String, Cardinality::Singular);
    assert_eq!(describe(&e), "singular string");
}

#[test]
fn other_cardinalities_describe_themselves() {
    let e = expectation(FieldKind::Int64, Cardinality::Repeated);
    assert_eq!(describe(&e), "repeated int64");
    let e = expectation(FieldKind::Bool, Cardinality::Optional);
    assert_eq!(describe(&e), "optional (explicit presence) bool");
    let e = expectation(
        FieldKind::Message("pkg.Entry".to_string()),
        Cardinality::MapOf {
            key: FieldKind::String,
            value: FieldKind::Enum("pkg.E".to_string()),
        },
    );
    assert_eq!(describe(&e), "a map<string, enum pkg.E>");
}

#[test]
fn strings_bytes_and_messages_are_not_packable() {
    assert!(kind::FieldKind::Int32.packable());
    assert!(kind::FieldKind::SFixed64.packable());
    assert!(kind::FieldKind::Enum("pkg.E".to_string()).packable());
    assert!(!kind::FieldKind::String.packable());
    assert!(!kind::FieldKind::Bytes.packable());
    assert!(!kind::FieldKind::Message("pkg.M".to_string()).packable());
}

#[test]
fn a_map_is_checked_by_its_key_and_value_kinds() {
    let map = expectation(
        FieldKind::Message("pkg.Entry".to_string()),
        Cardinality::MapOf {
            key: FieldKind::Unsupported("sint32".to_string()),
            value: FieldKind::Enum("pkg.E".to_string()),
        },
    );
    assert!(matches!(unsupported_kind(&map), Some(FieldKind::Unsupported(name)) if name == "sint32"));
    assert_eq!(checked_type_name(&map), Some("pkg.E"));
    let plain = expectation(FieldKind::Unsupported("fixed64".to_string()), Cardinality::Singular);
    assert!(matches!(unsupported_kind(&plain), Some(FieldKind::Unsupported(name)) if name == "fixed64"));
    let fine = expectation(FieldKind::Message("pkg.Msg".to_string()), Cardinality::Repeated);
    assert!(unsupported_kind(&fine).is_none());
    assert_eq!(checked_type_name(&fine), Some("pkg.Msg"));
}

#[test]
fn shape_and_wire_kind_messages_name_the_field() {
    let e = expectation(FieldKind::Message("pkg.Msg".to_string()), Cardinality::Singular);
    assert_eq!(
        shape_message("Task", "pkg.Task.payload", &e),
        "armonik: the Rust type of the field of `Task` mapping to proto field `pkg.Task.payload` does not have the expected shape (singular or optional (explicit presence) message pkg.Msg)"
    );
    assert_eq!(
        unsupported_message(&FieldKind::Unsupported("sint64".to_string()), "pkg.Task.n"),
        "armonik: proto field `pkg.Task.n` uses wire kind sint64, which the codec does not implement"
    );
}

fn meta_field(name: &str, tag: u32, kind: FieldKind) -> FieldMeta {
    FieldMeta {
        name: name.to_string(),
        tag,
        kind,
        cardinality: Cardinality::Singular,
        docs: Vec::new(),
        oneof: None,
    }
}

#[test]
fn an_instantiated_alias_checks_every_field_in_tag_order() {
    let meta = MessageMeta {
        fields: vec![
            meta_field("page", 2, FieldKind::Int32),
            meta_field("sort", 1, FieldKind::Message("pkg.Sort".to_string())),
        ],
        oneofs: Vec::new(),
        docs: Vec::new(),
    };
    let checks = alias_checks("pkg.ListRequest", &meta, true).expect("every kind is supported");
    let summary: Vec<(u32, String)> = checks.iter().map(|c| (c.tag, c.proto_path.clone())).collect();
    assert_eq!(
        summary,
        vec![(1, "pkg.ListRequest.sort".to_string()), (2, "pkg.ListRequest.page".to_string())]
    );
    assert!(alias_checks("pkg.ListRequest", &meta, false).unwrap().is_empty());
    let with_oneof = MessageMeta {
        oneofs: vec![OneofMeta { name: "o".to_string(), fields: Vec::new() }],
        ..meta
    };
    assert!(alias_checks("pkg.ListRequest", &with_oneof, true).unwrap().is_empty());
}

#[test]
fn an_unsupported_kind_stops_the_alias_checks() {
    let meta = MessageMeta {
        fields: vec![
            meta_field("a", 1, FieldKind::Int32),
            meta_field("b", 2, FieldKind::Unsupported("sfixed32".to_string())),
        ],
        oneofs: Vec::new(),
        docs: Vec::new(),
    };
    assert_eq!(
        alias_checks("pkg.M", &meta, true).err(),
        Some("armonik: proto field `pkg.M.b` uses wire kind sfixed32, which the codec does not implement".to_string())
    );
}
