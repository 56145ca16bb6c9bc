use armonik_api::emit::{oneof_emission, SlotCheck};
use armonik_api::descriptor::{Cardinality, DescriptorIndex, FieldKind, FieldMeta, MessageMeta, OneofMeta};
use armonik_api::oneof::{
    oneof_plan, Access, ArmCodec, OneofPlan, Plan, Presence, Variant, VariantAttrs, VariantField, VariantFields,
};
use armonik_api::shape::{Diagnostic, FieldAttrs, Site, TypeAttr};

fn field(name: &str, tag: u32, kind: FieldKind, oneof: Option<usize>) -> FieldMeta {
    FieldMeta {
        name: name.to_string(),
        tag,
        kind,
        cardinality: Cardinality::Singular,
        docs: Vec::new(),
        oneof,
    }
}

fn index() -> DescriptorIndex {
    let req = MessageMeta {
        fields: vec![
            field("id", 1, FieldKind::String, None),
            field("text", 2, FieldKind::String, Some(0)),
            field("flag", 3, FieldKind::Bool, Some(0)),
            field("empty", 4, FieldKind::Message("pkg.Empty".to_string()), Some(0)),
            field("inner", 5, FieldKind::Message("pkg.Inner".to_string()), Some(0)),
        ],
        oneofs: vec![OneofMeta { name: "payload".to_string(), fields: vec![1, 2, 3, 4] }],
        docs: vec!["A request.".to_string()],
    };
    let empty = MessageMeta { fields: Vec::new(), oneofs: Vec::new(), docs: Vec::new() };
    let inner = MessageMeta {
        fields: vec![field("a", 1, FieldKind::Int32, None), field("b", 2, FieldKind::Int64, None)],
        oneofs: Vec::new(),
        docs: Vec::new(),
    };
    DescriptorIndex {
        fingerprint: 1,
        messages: vec![
            ("pkg.Req".to_string(), req),
            ("pkg.Empty".to_string(), empty),
            ("pkg.Inner".to_string(), inner),
        ],
        enums: Vec::new(),
        services: Vec::new(),
    }
}

fn attrs(rename: Option<&str>, with: bool, present: bool, inline: bool) -> Result<VariantAttrs, Vec<Diagnostic>> {
    Ok(VariantAttrs { rename: rename.map(|s| s.to_string()), with, present, inline, absorbs: Vec::new() })
}

fn plain() -> Result<VariantAttrs, Vec<Diagnostic>> {
    attrs(None, false, false, false)
}

fn vfield(ident: &str, ty: &str) -> VariantField {
    VariantField {
        ident: ident.to_string(),
        ty: ty.to_string(),
        attrs: Ok(FieldAttrs { rename: None, with: false, absorbs: Vec::new() }),
    }
}

fn variant(ident: &str, attrs: Result<VariantAttrs, Vec<Diagnostic>>, fields: VariantFields) -> Variant {
    Variant { ident: ident.to_string(), attrs, fields }
}

fn messages(errors: &[Diagnostic]) -> Vec<(Site, String)> {
    errors.iter().map(|d| (d.site, d.message.clone())).collect()
}

fn resolve(entries: Vec<TypeAttr>, variants: Vec<Variant>) -> Result<OneofPlan, Vec<(Site, String)>> {
    oneof_plan(&entries, &index(), true, &variants).map_err(|e| messages(&e))
}

fn partial() -> Vec<TypeAttr> {
    vec![TypeAttr::Message("pkg.Req".to_string()), TypeAttr::Oneof("payload".to_string())]
}

#[test]
fn every_carrier_of_a_partial_oneof_resolves() {
    let plan = resolve(
        partial(),
        vec![
            variant("Inner", attrs(None, false, false, true), VariantFields::Named(vec![vfield("a", "i32"), vfield("b", "i64")])),
            variant("Text", plain(), VariantFields::Unnamed(vec!["String".to_string()])),
            variant("Flag", attrs(None, false, true, false), VariantFields::Unit),
            variant("Empty", attrs(None, false, true, false), VariantFields::Unit),
            variant("Nothing", plain(), VariantFields::Unit),
        ],
    )
    .unwrap_or_else(|e| panic!("unexpected: {e:?}"));
    assert_eq!(plan.fragment_of, Some("pkg.Req.payload".to_string()));
    let tags: Vec<u32> = plan.arms.iter().map(|a| a.tag).collect();
    assert_eq!(tags, vec![2, 3, 4, 5]);
    assert_eq!(plan.default_arm, Some(4));
    assert!(plan.shared.is_empty());
    let tags: Vec<(usize, u32)> = plan.arms.iter().map(|a| (a.variant, a.tag)).collect();
    assert_eq!(tags, vec![(1, 2), (2, 3), (3, 4), (0, 5)]);
    assert!(matches!(plan.arms[0].access, Access::Payload));
    match &plan.arms[0].codec {
        ArmCodec::Field { ty, adapter } => {
            assert_eq!(ty, "String");
            assert!(!adapter);
        }
        _ => panic!("text is a field"),
    }
    assert!(matches!(plan.arms[1].codec, ArmCodec::Presence(Presence::Bool)));
    assert!(matches!(plan.arms[2].codec, ArmCodec::Presence(Presence::EmptyMessage)));
    match &plan.arms[3].codec {
        ArmCodec::Group { parts } => {
            let names: Vec<&str> = parts.iter().map(|p| p.proto_path.as_str()).collect();
            assert_eq!(names, vec!["pkg.Inner.a", "pkg.Inner.b"]);
        }
        _ => panic!("inner is inlined"),
    }
    assert_eq!(plan.absorbs, vec!["pkg.Inner"]);
    assert_eq!(plan.arms[0].proto_path, "pkg.Req.text");
    let plan = Plan::Oneof(plan);
    assert_eq!(plan.absorbs(), &vec!["pkg.Inner".to_string()]);
}

#[test]
fn a_whole_message_enum_shares_its_siblings() {
    let plan = resolve(
        vec![TypeAttr::Message("pkg.Req".to_string())],
        vec![
            variant("Text", plain(), VariantFields::Named(vec![vfield("id", "String"), vfield("value", "String")])),
            variant("Flag", plain(), VariantFields::Named(vec![vfield("id", "String"), vfield("on", "bool")])),
            variant("Empty", plain(), VariantFields::Named(vec![vfield("id", "String"), vfield("e", "Empty")])),
            variant("Inner", plain(), VariantFields::Named(vec![vfield("id", "String"), vfield("i", "Inner")])),
        ],
    )
    .unwrap_or_else(|e| panic!("unexpected: {e:?}"));
    assert_eq!(plan.fragment_of, None);
    assert_eq!(plan.names, vec!["pkg.Req"]);
    assert_eq!(plan.docs, vec!["A request."]);
    assert_eq!(plan.shared.len(), 1);
    assert_eq!(plan.shared[0].ident, "id");
    assert_eq!(plan.shared[0].proto_path, "pkg.Req.id");
    match &plan.arms[0].access {
        Access::Field(ident) => assert_eq!(ident, "value"),
        _ => panic!("text is carried by its field"),
    }
}

#[test]
fn a_variant_must_carry_every_sibling_the_same_way() {
    match resolve(
        vec![TypeAttr::Message("pkg.Req".to_string())],
        vec![
            variant("Text", plain(), VariantFields::Named(vec![vfield("id", "String"), vfield("value", "String")])),
            variant("Flag", plain(), VariantFields::Named(vec![vfield("id", "u32"), vfield("on", "bool")])),
            variant("Empty", plain(), VariantFields::Named(vec![vfield("e", "Empty")])),
            variant("Inner", plain(), VariantFields::Named(vec![vfield("id", "String"), vfield("i", "Inner")])),
        ],
    ) {
        Err(e) => {
            assert_eq!(
                e[0],
                (Site::VariantFieldType(1, 0), "sibling field `id` must use the same type in every variant".to_string())
            );
            assert_eq!(
                e[1],
                (
                    Site::Variant(2),
                    "the variant must carry the sibling field `id` of `pkg.Req` (every variant of a whole-message enum declares all non-oneof fields)"
                        .to_string()
                )
            );
            assert_eq!(
                e[2],
                (Site::Item, "oneof member `pkg.Req.flag` (tag 3) is not covered by any variant".to_string())
            );
            assert_eq!(e.len(), 4);
        }
        Ok(_) => panic!("must fail"),
    }
}

#[test]
fn unknown_members_extra_defaults_and_conflicting_keys_are_reported() {
    match resolve(
        partial(),
        vec![
            variant("Text", plain(), VariantFields::Unnamed(vec!["String".to_string()])),
            variant("Flag", attrs(None, false, true, true), VariantFields::Unit),
            variant("Empty", attrs(None, false, true, false), VariantFields::Unit),
            variant("Inner", attrs(None, false, false, true), VariantFields::Named(vec![vfield("a", "i32"), vfield("b", "i64")])),
            variant("Other", plain(), VariantFields::Unnamed(vec!["u8".to_string()])),
            variant("None1", plain(), VariantFields::Unit),
            variant("None2", plain(), VariantFields::Unit),
        ],
    ) {
        Err(e) => {
            assert_eq!(
                e[0],
                (
                    Site::VariantInline(1),
                    "`present` and `inline` each say how the member is carried (present: by presence alone; inline: its message's fields spread into the variant; with: through an adapter), so they cannot be combined"
                        .to_string()
                )
            );
            assert_eq!(e[1].0, Site::Variant(4));
            assert!(e[1].1.starts_with("no member named `other` in oneof `pkg.Req.payload` (available: empty, flag, inner, text)"));
            assert_eq!(
                e[2],
                (Site::Variant(6), "at most one attribute-less variant (the \"no member set\" case) is allowed".to_string())
            );
            assert_eq!(e.len(), 3);
        }
        Ok(_) => panic!("must fail"),
    }
}

#[test]
fn an_uncovered_member_and_a_bad_marker_are_reported() {
    match resolve(
        partial(),
        vec![
            variant("Text", attrs(None, false, true, false), VariantFields::Unit),
            variant("Flag", attrs(None, false, true, false), VariantFields::Unit),
            variant("Empty", attrs(None, false, true, false), VariantFields::Unit),
        ],
    ) {
        Err(e) => {
            assert_eq!(
                e[0],
                (
                    Site::Variant(0),
                    "#[armonik(present)] needs a bool or message member, but `pkg.Req.text` is String".to_string()
                )
            );
            assert_eq!(
                e[1],
                (Site::Item, "oneof member `pkg.Req.inner` (tag 5) is not covered by any variant".to_string())
            );
        }
        Ok(_) => panic!("must fail"),
    }
}

#[test]
fn the_selection_needs_a_message_with_one_partial_oneof() {
    match resolve(vec![TypeAttr::Oneof("payload".to_string())], Vec::new()) {
        Err(e) => assert_eq!(
            e,
            vec![(Site::Item, "oneof-shaped enums need #[armonik(message = \"...\")]".to_string())]
        ),
        Ok(_) => panic!("must fail"),
    }
    match resolve(
        vec![TypeAttr::Message("pkg.Inner".to_string()), TypeAttr::Generic],
        Vec::new(),
    ) {
        Err(e) => {
            assert_eq!(
                e[0],
                (Site::Attr(1), "this armonik attribute is not valid at type level on a flattened oneof".to_string())
            );
            assert_eq!(
                e[1],
                (
                    Site::Item,
                    "proto message `pkg.Inner` has no oneof; a message without a oneof is derived on a struct".to_string()
                )
            );
        }
        Ok(_) => panic!("must fail"),
    }
    match resolve(
        vec![TypeAttr::Message("pkg.Req".to_string()), TypeAttr::Oneof("nope".to_string())],
        Vec::new(),
    ) {
        Err(e) => assert_eq!(
            e,
            vec![(Site::Attr(1), "no oneof named `nope` in proto message `pkg.Req`".to_string())]
        ),
        Ok(_) => panic!("must fail"),
    }
}

#[test]
fn a_oneof_emits_its_arms_in_tag_order_and_its_marker() {
    let plan = resolve(
        partial(),
        vec![
            variant("Inner", attrs(None, false, false, true), VariantFields::Named(vec![vfield("a", "i32"), vfield("b", "i64")])),
            variant("Text", plain(), VariantFields::Unnamed(vec!["String".to_string()])),
            variant("Flag", attrs(None, false, true, false), VariantFields::Unit),
            variant("Empty", attrs(None, false, true, false), VariantFields::Unit),
            variant("Nothing", plain(), VariantFields::Unit),
        ],
    )
    .unwrap_or_else(|e| panic!("unexpected: {e:?}"));
    let e = oneof_emission("Payload", 1, &plan);
    assert_eq!(e.marker, Some(vec!["pkg.Req.payload".to_string()]));
    let tags: Vec<u32> = e.arms.iter().map(|a| a.tag).collect();
    assert_eq!(tags, vec![2, 3, 4, 5]);
    assert!(matches!(e.arms[1].writes[0].check, SlotCheck::Unchecked));
    let inner: Vec<u32> = e.arms[3].writes.iter().map(|w| w.tag).collect();
    assert_eq!(inner, vec![1, 2]);
    match &e.arms[0].writes[0].check {
        SlotCheck::Shape(m) => assert!(m.contains("`pkg.Req.text`")),
        _ => panic!("the text member is checked"),
    }
    assert_eq!(e.default_arm, Some(4));
}

fn straddled_index() -> DescriptorIndex {
    let straddled = MessageMeta {
        fields: vec![
            field("text", 1, FieldKind::String, Some(0)),
            field("token", 2, FieldKind::String, None),
            field("other", 3, FieldKind::String, Some(0)),
        ],
        oneofs: vec![OneofMeta { name: "choice".to_string(), fields: vec![0, 2] }],
        docs: Vec::new(),
    };
    DescriptorIndex {
        fingerprint: 1,
        messages: vec![("pkg.Straddled".to_string(), straddled)],
        enums: Vec::new(),
        services: Vec::new(),
    }
}

#[test]
fn a_shared_field_between_members_is_written_in_tag_order() {
    let variants = vec![
        variant("Text", plain(), VariantFields::Named(vec![vfield("token", "String"), vfield("text", "String")])),
        variant("Other", plain(), VariantFields::Named(vec![vfield("token", "String"), vfield("other", "String")])),
    ];
    let plan = oneof_plan(&vec![TypeAttr::Message("pkg.Straddled".to_string())], &straddled_index(), true, &variants)
        .unwrap_or_else(|e| panic!("unexpected: {:?}", messages(&e)));
    let e = oneof_emission("Straddled", 1, &plan);
    // In the `Text` arm the member is tag 1 and the shared field tag 2, so the member is written
    // first; in `Other` the member is tag 3, so the shared field is.
    assert_eq!(e.arms[0].order, vec![(1, None), (2, Some(0))]);
    assert_eq!(e.arms[1].order, vec![(2, Some(0)), (3, None)]);
    assert_eq!(e.default_order, vec![(2, Some(0))]);
}

#[test]
fn an_embedded_oneof_records_the_oneof_it_stands_for() {
    let embedded = resolve(
        partial(),
        vec![
            variant("Inner", attrs(None, false, false, true), VariantFields::Named(vec![vfield("a", "i32"), vfield("b", "i64")])),
            variant("Text", plain(), VariantFields::Unnamed(vec!["String".to_string()])),
            variant("Flag", attrs(None, false, true, false), VariantFields::Unit),
            variant("Empty", attrs(None, false, true, false), VariantFields::Unit),
            variant("Nothing", plain(), VariantFields::Unit),
        ],
    )
    .unwrap_or_else(|e| panic!("unexpected: {e:?}"));
    let e = oneof_emission("Payload", 1, &embedded);
    assert_eq!(e.marker, Some(vec!["pkg.Req.payload".to_string()]));
    // A fragment of a message is no message: no `Msg` impl, no registration.
    assert_eq!(e.message, None);

    // The whole-message shape is a message, and says which one through the names it registers.
    let whole = resolve(
        vec![TypeAttr::Message("pkg.Req".to_string())],
        vec![
            variant("Text", plain(), VariantFields::Named(vec![vfield("id", "String"), vfield("value", "String")])),
            variant("Flag", plain(), VariantFields::Named(vec![vfield("id", "String"), vfield("on", "bool")])),
            variant("Empty", plain(), VariantFields::Named(vec![vfield("id", "String"), vfield("e", "Empty")])),
            variant("Inner", plain(), VariantFields::Named(vec![vfield("id", "String"), vfield("i", "Inner")])),
        ],
    )
    .unwrap_or_else(|e| panic!("unexpected: {e:?}"));
    let e = oneof_emission("Req", 1, &whole);
    assert_eq!(e.marker, None);
    assert_eq!(e.message, Some(vec!["pkg.Req".to_string()]));
}
