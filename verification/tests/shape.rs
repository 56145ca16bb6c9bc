use armonik_api::descriptor::{Cardinality, DescriptorIndex, FieldKind, FieldMeta, MessageMeta, OneofMeta};
use armonik_api::shape::{
    choose_shape, generic_plan, plain_plan, transparent_plan, unraw, Diagnostic, FieldAttrs, GenericField, Shape,
    Site, SlotCodec, StructField, TypeAttr,
};

fn field(name: &str, tag: u32, oneof: Option<usize>) -> FieldMeta {
    FieldMeta {
        name: name.to_string(),
        tag,
        kind: FieldKind::String,
        cardinality: Cardinality::Singular,
        docs: vec![format!("doc of {name}")],
        oneof,
    }
}

fn index() -> DescriptorIndex {
    DescriptorIndex {
        fingerprint: 7,
        messages: vec![(
            "pkg.Task".to_string(),
            MessageMeta {
                fields: vec![
                    field("id", 3, None),
                    field("text", 5, Some(0)),
                    field("number", 4, Some(0)),
                    field("owner", 1, None),
                ],
                oneofs: vec![OneofMeta { name: "payload".to_string(), fields: vec![1, 2] }],
                docs: vec!["A task.".to_string()],
            },
        )],
        enums: Vec::new(),
        services: Vec::new(),
    }
}

fn attrs(rename: Option<&str>, with: bool) -> Result<FieldAttrs, Vec<Diagnostic>> {
    Ok(FieldAttrs { rename: rename.map(|s| s.to_string()), with, absorbs: Vec::new() })
}

fn named(ident: &str, rename: Option<&str>, with: bool) -> StructField {
    StructField { ident: Some(ident.to_string()), attrs: attrs(rename, with) }
}

fn messages(errors: &[Diagnostic]) -> Vec<(Site, String)> {
    errors.iter().map(|d| (d.site, d.message.clone())).collect()
}

#[test]
fn a_covered_struct_resolves_in_tag_order() {
    let fields = vec![
        named("id", None, false),
        named("payload", None, false),
        named("who", Some("owner"), true),
    ];
    let names = vec!["pkg.Task".to_string()];
    let plan = match plain_plan(&index(), &names, false, true, &fields, Vec::new()) {
        Ok(plan) => plan,
        Err(e) => panic!("unexpected: {:?}", messages(&e)),
    };
    assert_eq!(plan.docs, vec!["A task."]);
    let order: Vec<(usize, u32)> = plan.slots.iter().map(|s| (s.field, s.tag)).collect();
    assert_eq!(order, vec![(2, 1), (0, 3), (1, 4)]);
    assert_eq!(plan.slots[1].proto_path, "pkg.Task.id");
    assert_eq!(plan.slots[1].docs, vec!["doc of id"]);
    match &plan.slots[2].codec {
        SlotCodec::Delegate { tags } => assert_eq!(tags, &vec![5, 4]),
        _ => panic!("the oneof is delegated"),
    }
    match &plan.slots[0].codec {
        SlotCodec::Field { adapter, checks } => {
            assert!(*adapter);
            assert!(checks.is_none());
        }
        _ => panic!("owner is a field"),
    }
    match &plan.slots[1].codec {
        SlotCodec::Field { adapter, checks } => {
            assert!(!*adapter);
            assert!(checks.is_some());
        }
        _ => panic!("id is a field"),
    }
}

#[test]
fn uncovered_fields_and_unknown_names_are_reported() {
    let fields = vec![named("r#id", None, false), named("extra", None, false)];
    let names = vec!["pkg.Task".to_string()];
    match plain_plan(&index(), &names, false, true, &fields, Vec::new()) {
        Ok(_) => panic!("must fail"),
        Err(e) => {
            let m = messages(&e);
            assert_eq!(m.len(), 5);
            assert_eq!(m[0].0, Site::Field(1));
            assert!(m[0].1.starts_with("no field or oneof named `extra` in proto message `pkg.Task`"));
            assert_eq!(
                m[1],
                (Site::Item, "proto field `pkg.Task.text` (tag 5) is not covered by any Rust field".to_string())
            );
            assert_eq!(
                m[3],
                (Site::Item, "proto field `pkg.Task.owner` (tag 1) is not covered by any Rust field".to_string())
            );
            assert_eq!(
                m[4],
                (Site::Item, "proto oneof `pkg.Task.payload` is not covered by any Rust field".to_string())
            );
        }
    }
}

#[test]
fn a_struct_names_exactly_one_known_message() {
    let fields = Vec::new();
    match plain_plan(&index(), &Vec::new(), false, true, &fields, Vec::new()) {
        Err(e) => assert_eq!(messages(&e)[0].0, Site::Item),
        Ok(_) => panic!("a message is required"),
    }
    let names = vec!["pkg.Missing".to_string(), "pkg.Task".to_string()];
    match plain_plan(&index(), &names, false, true, &fields, Vec::new()) {
        Err(e) => {
            let m = messages(&e);
            assert_eq!(m[0].0, Site::MessageAttr(1));
            assert_eq!(
                m[1],
                (
                    Site::MessageAttr(0),
                    "proto message `pkg.Missing` not found in the compiled descriptor set".to_string()
                )
            );
        }
        Ok(_) => panic!("unknown message"),
    }
}

#[test]
fn tuple_fields_need_a_rename_and_oneofs_take_no_adapter() {
    let fields = vec![
        StructField { ident: None, attrs: attrs(None, false) },
        named("payload", None, true),
        named("text", None, false),
    ];
    let names = vec!["pkg.Task".to_string()];
    match plain_plan(&index(), &names, false, true, &fields, Vec::new()) {
        Err(e) => {
            let m = messages(&e);
            assert_eq!(
                m[0],
                (Site::Field(0), "tuple struct fields need #[armonik(rename = \"proto_field_name\")]".to_string())
            );
            assert_eq!(
                m[1],
                (Site::Field(1), "with/tag attributes are not supported on oneof fields".to_string())
            );
            assert_eq!(
                m[2],
                (
                    Site::Field(2),
                    "proto field `pkg.Task.text` belongs to a oneof; map the whole oneof to one field named after it"
                        .to_string()
                )
            );
        }
        Ok(_) => panic!("must fail"),
    }
}

#[test]
fn raw_identifiers_match_by_their_plain_name() {
    assert_eq!(unraw("r#type"), "type");
    assert_eq!(unraw("plain"), "plain");
}

#[test]
fn the_shape_follows_the_type_level_keys() {
    let (shape, errors) = choose_shape(&vec![TypeAttr::Message("pkg.A".to_string()), TypeAttr::Other], false);
    match shape {
        Some(Shape::Plain { names }) => assert_eq!(names, vec!["pkg.A"]),
        _ => panic!("a struct with a message is plain"),
    }
    assert_eq!(
        messages(&errors),
        vec![(Site::Attr(1), "this armonik attribute is not valid at type level on a struct".to_string())]
    );
    let (shape, errors) = choose_shape(&vec![TypeAttr::Message("pkg.A".to_string())], true);
    assert!(matches!(shape, Some(Shape::OneofShaped)));
    assert!(errors.is_empty());
    let (shape, errors) = choose_shape(&vec![TypeAttr::Generic, TypeAttr::Transparent], false);
    assert!(shape.is_none());
    assert_eq!(messages(&errors)[0].0, Site::Attr(1));
    let (shape, errors) = choose_shape(&vec![TypeAttr::Generic, TypeAttr::Message("x".to_string())], false);
    assert!(shape.is_none());
    assert_eq!(messages(&errors)[0].0, Site::Item);
}

#[test]
fn generic_fields_carry_their_own_tags() {
    let fields = vec![
        GenericField { ident: Some("b".to_string()), tag: Ok(Some(2)) },
        GenericField { ident: None, tag: Ok(Some(1)) },
    ];
    let slots = match generic_plan("Pair", true, &fields, Vec::new()) {
        Ok(slots) => slots,
        Err(e) => panic!("unexpected: {:?}", messages(&e)),
    };
    let paths: Vec<(&str, u32)> = slots.iter().map(|s| (s.proto_path.as_str(), s.tag)).collect();
    assert_eq!(paths, vec![("Pair.1", 1), ("Pair.b", 2)]);
    let fields = vec![GenericField { ident: Some("x".to_string()), tag: Ok(None) }];
    match generic_plan("Pair", true, &fields, Vec::new()) {
        Err(e) => assert_eq!(
            messages(&e),
            vec![(Site::Field(0), "generic-mode fields need an explicit #[armonik(tag = ...)]".to_string())]
        ),
        Ok(_) => panic!("a tag is required"),
    }
}

#[test]
fn a_transparent_newtype_names_one_known_message_and_has_one_field() {
    let names = vec!["pkg.Task".to_string()];
    match transparent_plan(&index(), &names, false, true, 1, Vec::new()) {
        Ok(plan) => {
            assert_eq!(plan.names, vec!["pkg.Task"]);
            assert_eq!(plan.docs, vec!["A task."]);
        }
        Err(e) => panic!("unexpected: {:?}", messages(&e)),
    }
    match transparent_plan(&index(), &names, true, true, 2, Vec::new()) {
        Err(e) => {
            let m = messages(&e);
            assert_eq!(m[0], (Site::Item, "#[armonik(transparent)] structs cannot be generic".to_string()));
            assert_eq!(
                m[1],
                (Site::Item, "#[armonik(transparent)] structs must have exactly one field, delegated to".to_string())
            );
        }
        Ok(_) => panic!("must fail"),
    }
}
