use armonik_api::descriptor::{Cardinality, DescriptorIndex, FieldKind, FieldMeta, MessageMeta, OneofMeta};
use armonik_api::emit::{message_emission, SlotCheck};
use armonik_api::shape::{plain_plan, FieldAttrs, StructField};

fn field(name: &str, tag: u32, oneof: Option<usize>) -> FieldMeta {
    FieldMeta {
        name: name.to_string(),
        tag,
        kind: FieldKind::String,
        cardinality: Cardinality::Singular,
        docs: Vec::new(),
        oneof,
    }
}

fn named(ident: &str, rename: Option<&str>, with: bool) -> StructField {
    StructField {
        ident: Some(ident.to_string()),
        attrs: Ok(FieldAttrs { rename: rename.map(|s| s.to_string()), with, absorbs: Vec::new() }),
    }
}

#[test]
fn a_struct_emits_its_slots_in_tag_order_with_their_checks() {
    let index = DescriptorIndex {
        fingerprint: 7,
        messages: vec![(
            "pkg.Task".to_string(),
            MessageMeta {
                fields: vec![
                    field("id", 3, None),
                    field("text", 5, Some(0)),
                    field("number", 4, Some(0)),
                    field("owner", 1, None),
                ],
                oneofs: vec![OneofMeta { name: "payload".to_string(), fields: vec![1, 2] }],
                docs: Vec::new(),
            },
        )],
        enums: Vec::new(),
        services: Vec::new(),
    };
    let fields = vec![
        named("id", None, false),
        named("payload", None, false),
        named("who", Some("owner"), true),
    ];
    let plan = plain_plan(&index, &vec!["pkg.Task".to_string()], false, true, &fields, Vec::new())
        .ok()
        .expect("the struct resolves");
    let e = message_emission("Task", 7, &plan);
    assert_eq!(e.names, vec!["pkg.Task".to_string()]);
    assert_eq!(e.fingerprint, 7);
    let tags: Vec<u32> = e.slots.iter().map(|s| s.tag).collect();
    assert_eq!(tags, vec![1, 3, 4]);
    assert!(matches!(e.slots[0].check, SlotCheck::Unchecked));
    match &e.slots[1].check {
        SlotCheck::Shape(message) => assert_eq!(
            message,
            "armonik: the Rust type of the field of `Task` mapping to proto field `pkg.Task.id` does not have the expected shape (singular string)"
        ),
        _ => panic!("the id field is checked"),
    }
    assert_eq!(e.slots[2].routes, vec![5, 4]);
    match &e.slots[2].check {
        SlotCheck::Oneof(path) => assert_eq!(path, "pkg.Task.payload"),
        _ => panic!("the oneof delegate is asserted"),
    }
}
