use armonik_api::descriptor::{Cardinality, DescriptorIndex, FieldKind};
use armonik_api::index::{
    EnumProto, FieldLabel, FieldProto, FieldType, FileProto, Location, MessageProto, MethodProto,
    ServiceProto,
};
use armonik_api::indexer::{build_index, fingerprint};

fn field(name: &str, number: i32, field_type: FieldType, target: &str) -> FieldProto {
    FieldProto {
        name: name.to_string(),
        number,
        label: FieldLabel::Optional,
        field_type,
        referenced_type: target.to_string(),
        oneof_index: None,
        proto3_optional: false,
    }
}

fn message(name: &str, fields: Vec<FieldProto>) -> MessageProto {
    MessageProto {
        name: name.to_string(),
        fields,
        nested: Vec::new(),
        enums: Vec::new(),
        oneofs: Vec::new(),
        map_entry: false,
    }
}

fn location(path: Vec<i32>, span: Vec<i32>, leading: Option<&str>, trailing: Option<&str>) -> Location {
    Location {
        path,
        span,
        leading_comments: leading.map(|s| s.to_string()),
        trailing_comments: trailing.map(|s| s.to_string()),
    }
}

fn outer() -> MessageProto {
    let mut tags = field("tags", 2, FieldType::Message, ".pkg.Outer.TagsEntry");
    tags.label = FieldLabel::Repeated;
    let mut label = field("label", 3, FieldType::String, "");
    label.proto3_optional = true;
    let mut text = field("text", 4, FieldType::String, "");
    text.oneof_index = Some(0);
    let mut number = field("number", 5, FieldType::Int64, "");
    number.oneof_index = Some(0);
    let mut children = field("children", 6, FieldType::Message, ".pkg.Outer");
    children.label = FieldLabel::Repeated;
    let mut entry = message(
        "TagsEntry",
        vec![
            field("key", 1, FieldType::String, ""),
            field("value", 2, FieldType::Int64, ""),
        ],
    );
    entry.map_entry = true;
    let mut m = message(
        "Outer",
        vec![
            field("id", 1, FieldType::Int32, ""),
            tags,
            label,
            text,
            number,
            children,
        ],
    );
    m.nested.push(entry);
    m.oneofs.push("choice".to_string());
    m.enums.push(EnumProto {
        name: "Mode".to_string(),
        values: vec![("MODE_A".to_string(), 0), ("MODE_B".to_string(), 1)],
    });
    m
}

fn file() -> FileProto {
    FileProto {
        package: "pkg".to_string(),
        messages: vec![outer()],
        enums: vec![EnumProto {
            name: "Color".to_string(),
            values: vec![("COLOR_RED".to_string(), 0), ("COLOR_BLUE".to_string(), 7)],
        }],
        services: vec![ServiceProto {
            name: "Svc".to_string(),
            methods: vec![MethodProto {
                name: "Get".to_string(),
                input_type: ".pkg.Outer".to_string(),
                output_type: ".pkg.Color".to_string(),
                client_streaming: false,
                server_streaming: true,
            }],
        }],
        locations: vec![
            location(vec![4, 0], vec![3, 0, 12, 1], Some(" The outer message.\n"), None),
            location(vec![4, 0, 2, 0], vec![5, 2, 17], None, Some(" The id.\n")),
            location(vec![5, 0, 2, 1], vec![20, 2, 18], Some(" Blue.\n"), None),
            location(vec![6, 0, 2, 0], vec![30, 2, 40], Some(" Fetches one.\n"), None),
            location(vec![6, 0], vec![29, 0, 31, 1], Some(" The service.\n"), None),
        ],
    }
}

fn build(files: &Vec<FileProto>) -> DescriptorIndex {
    match build_index(42, files) {
        Ok(index) => index,
        Err(e) => panic!("unexpected error: {e}"),
    }
}

#[test]
fn messages_enums_and_services_are_keyed_by_full_name() {
    let index = build(&vec![file()]);
    assert_eq!(index.fingerprint, 42);
    let names: Vec<&str> = index.messages.iter().map(|(n, _)| n.as_str()).collect();
    assert_eq!(names, vec!["pkg.Outer"]);
    let enums: Vec<&str> = index.enums.iter().map(|(n, _)| n.as_str()).collect();
    assert_eq!(enums, vec!["pkg.Outer.Mode", "pkg.Color"]);
    let services: Vec<&str> = index.services.iter().map(|(n, _)| n.as_str()).collect();
    assert_eq!(services, vec!["pkg.Svc"]);
}

#[test]
fn map_fields_optional_and_oneofs_are_folded() {
    let index = build(&vec![file()]);
    let meta = &index.messages[0].1;
    assert_eq!(meta.fields.len(), 6);
    assert!(matches!(meta.fields[0].cardinality, Cardinality::Singular));
    assert!(matches!(meta.fields[0].kind, FieldKind::Int32));
    match &meta.fields[1].cardinality {
        Cardinality::MapOf { key, value } => {
            assert!(matches!(key, FieldKind::String));
            assert!(matches!(value, FieldKind::Int64));
        }
        _ => panic!("tags should be a map"),
    }
    assert!(matches!(meta.fields[2].cardinality, Cardinality::Optional));
    assert_eq!(meta.fields[2].oneof, None);
    assert_eq!(meta.fields[3].oneof, Some(0));
    assert_eq!(meta.fields[4].oneof, Some(0));
    match &meta.fields[5].kind {
        FieldKind::Message(name) => assert_eq!(name, "pkg.Outer"),
        _ => panic!("children is a message field"),
    }
    assert!(matches!(meta.fields[5].cardinality, Cardinality::Repeated));
    assert_eq!(meta.oneofs.len(), 1);
    assert_eq!(meta.oneofs[0].name, "choice");
    assert_eq!(meta.oneofs[0].fields, vec![3, 4]);
    assert_eq!(meta.fields[1].tag, 2);
}

#[test]
fn comments_are_attached_by_path() {
    let index = build(&vec![file()]);
    let meta = &index.messages[0].1;
    assert_eq!(meta.docs, vec!["The outer message."]);
    assert_eq!(meta.fields[0].docs, vec!["The id."]);
    assert!(meta.fields[1].docs.is_empty());
    let color = &index.enums[1].1;
    assert_eq!(color.values, vec![("COLOR_RED".to_string(), 0), ("COLOR_BLUE".to_string(), 7)]);
    assert_eq!(color.value_docs, vec![Vec::<String>::new(), vec!["Blue.".to_string()]]);
    let service = &index.services[0].1;
    assert_eq!(service.docs, vec!["The service."]);
    assert_eq!(service.methods[0].docs, vec!["Fetches one."]);
    assert_eq!(service.methods[0].input, "pkg.Outer");
    assert_eq!(service.methods[0].output, "pkg.Color");
    assert!(service.methods[0].server_streaming);
    assert!(!service.methods[0].client_streaming);
}

#[test]
fn a_later_file_replaces_an_earlier_name() {
    let mut second = file();
    second.messages = vec![message("Outer", vec![field("only", 9, FieldType::Bool, "")])];
    second.enums.clear();
    second.services.clear();
    second.locations.clear();
    let index = build(&vec![file(), second]);
    assert_eq!(index.messages.len(), 1);
    assert_eq!(index.messages[0].1.fields.len(), 1);
    assert_eq!(index.messages[0].1.fields[0].name, "only");
    assert!(index.messages[0].1.docs.is_empty());
}

#[test]
fn a_group_field_is_an_error() {
    let mut f = file();
    f.messages = vec![message("Bad", vec![field("g", 1, FieldType::Group, "")])];
    match build_index(0, &vec![f]) {
        Err(e) => assert_eq!(e, "in message `pkg.Bad`, field `g`: proto2 groups are not supported"),
        Ok(_) => panic!("a group must be refused"),
    }
}

#[test]
fn an_out_of_range_oneof_index_is_an_error() {
    let mut f = file();
    let mut x = field("x", 1, FieldType::Int32, "");
    x.oneof_index = Some(3);
    f.messages = vec![message("Bad", vec![x])];
    match build_index(0, &vec![f]) {
        Err(e) => assert_eq!(e, "in message `pkg.Bad`, field `x`: oneof index 3 out of range"),
        Ok(_) => panic!("the oneof index must be refused"),
    }
}

#[test]
fn a_map_entry_without_a_key_is_an_error() {
    let mut f = file();
    let mut entry = message("E", vec![field("value", 2, FieldType::Int32, "")]);
    entry.map_entry = true;
    let mut m = message("M", Vec::new());
    m.nested.push(entry);
    f.messages = vec![m];
    match build_index(0, &vec![f]) {
        Err(e) => assert_eq!(e, "map entry `pkg.M.E` has no key field"),
        Ok(_) => panic!("the entry must be refused"),
    }
}

#[test]
fn the_fingerprint_is_fnv1a() {
    assert_eq!(fingerprint(b""), 0xcbf29ce484222325);
    assert_eq!(fingerprint(b"a"), 0xaf63dc4c8601ec8c);
    assert_eq!(fingerprint(b"foobar"), 0x85944171f73967e8);
}

#[test]
fn an_index_from_files_is_fingerprinted_by_their_bytes() {
    let bytes = b"descriptor set bytes".to_vec();
    let index = armonik_api::indexer::index_from_files(&bytes, &Vec::new()).ok().expect("an empty set builds");
    assert_eq!(index.fingerprint, armonik_api::indexer::fingerprint(&bytes));
    assert!(index.messages.is_empty());
}
