use armonik_api::emit::{enum_emission, DefaultValue, WireEmission};
use armonik_api::descriptor::{
    Cardinality, DescriptorIndex, EnumMeta, FieldKind, FieldMeta, MessageMeta,
};
use armonik_api::enumeration::{
    classify_variants, enums_consistent, match_values, reject_implemented_derives,
    resolve_enum_names, resolve_enumeration, simple_name, wrapper_chain, wrapper_chain_ends, EnumItem, EnumMode,
    EnumVariant, NamedVariant, VariantForm,
};
use armonik_api::shape::{Diagnostic, Site, TypeAttr};

fn task_status() -> (String, EnumMeta) {
    (
        "armonik.api.grpc.v1.task_status.TaskStatus".to_string(),
        EnumMeta {
            values: vec![
                ("TASK_STATUS_UNSPECIFIED".to_string(), 0),
                ("TASK_STATUS_CREATING".to_string(), 1),
                ("TASK_STATUS_SUBMITTED".to_string(), 2),
            ],
            docs: vec!["Status.".to_string()],
            value_docs: vec![vec![], vec!["Being created.".to_string()], vec![]],
        },
    )
}

fn variants(names: &[(&str, &str)]) -> Vec<NamedVariant> {
    names
        .iter()
        .enumerate()
        .map(|(site, (a, b))| NamedVariant {
            site,
            ident: a.to_string(),
            proto_name: b.to_string(),
        })
        .collect()
}

fn messages(errors: &[Diagnostic]) -> Vec<(Site, String)> {
    errors.iter().map(|d| (d.site, d.message.clone())).collect()
}

#[test]
fn the_simple_name_follows_the_last_dot() {
    assert_eq!(simple_name("a.b.TaskStatus"), "TaskStatus");
    assert_eq!(simple_name("Plain"), "Plain");
}

#[test]
fn variants_match_short_and_full_value_names() {
    let enums = vec![task_status()];
    let result = match_values(
        &enums,
        &vec![0],
        &variants(&[("Creating", "Creating"), ("Sent", "TASK_STATUS_SUBMITTED")]),
        false,
    );
    assert!(result.errors.is_empty(), "{:?}", messages(&result.errors));
    assert_eq!(result.named.len(), 2);
    assert_eq!(result.named[0].number, 1);
    assert_eq!(result.named[0].docs, vec!["Being created.".to_string()]);
    assert_eq!(result.named[1].ident, "Sent");
    assert_eq!(result.named[1].number, 2);
    assert!(result.zero_variant.is_none());
}

#[test]
fn the_zero_value_needs_no_variant_but_others_do() {
    let enums = vec![task_status()];
    let result = match_values(&enums, &vec![0], &variants(&[("Creating", "Creating")]), false);
    assert_eq!(
        messages(&result.errors),
        vec![(
            Site::Item,
            "proto enum value `armonik.api.grpc.v1.task_status.TaskStatus.TASK_STATUS_SUBMITTED` (= 2) is not covered by any Rust variant"
                .to_string()
        )]
    );
    let quiet = match_values(&enums, &vec![0], &variants(&[("Creating", "Creating")]), true);
    assert!(quiet.errors.is_empty());
}

#[test]
fn an_unknown_variant_is_poisoned_and_skips_completeness() {
    let enums = vec![task_status()];
    let result = match_values(
        &enums,
        &vec![0],
        &variants(&[("Unspecified", "Unspecified"), ("Bogus", "Bogus")]),
        false,
    );
    assert_eq!(result.poisoned, vec!["Bogus".to_string()]);
    assert_eq!(result.zero_variant.as_deref(), Some("Unspecified"));
    assert_eq!(
        messages(&result.errors),
        vec![(
            Site::Variant(1),
            "no value named `Bogus` in proto enum `armonik.api.grpc.v1.task_status.TaskStatus` (available: Creating, Submitted, Unspecified); use #[armonik(rename = \"...\")] with the full proto value name if needed"
                .to_string()
        )]
    );
}

#[test]
fn unified_enums_must_agree() {
    let mut other = task_status();
    other.0 = "pkg.TaskStatus".to_string();
    other.1.values[1].1 = 7;
    other.1.value_docs[1] = vec!["Other docs.".to_string()];
    let enums = vec![task_status(), other];
    let result = match_values(
        &enums,
        &vec![0, 1],
        &variants(&[("Creating", "Creating"), ("Submitted", "Submitted")]),
        false,
    );
    assert_eq!(result.named[0].number, 1);
    assert_eq!(result.named[0].docs, vec!["Being created.".to_string()]);
    assert_eq!(
        messages(&result.errors),
        vec![(Site::Variant(0), "unified proto enums disagree on the value of `Creating`".to_string())]
    );
}

#[test]
fn negative_values_are_reported_with_their_sign() {
    let enums = vec![(
        "pkg.Signed".to_string(),
        EnumMeta {
            values: vec![("SIGNED_ZERO".to_string(), 0), ("SIGNED_DOWN".to_string(), -3)],
            docs: vec![],
            value_docs: vec![vec![], vec![]],
        },
    )];
    let result = match_values(&enums, &vec![0], &Vec::new(), false);
    assert_eq!(
        messages(&result.errors),
        vec![(
            Site::Item,
            "proto enum value `pkg.Signed.SIGNED_DOWN` (= -3) is not covered by any Rust variant".to_string()
        )]
    );
}

#[test]
fn enum_names_resolve_against_the_index() {
    let index = DescriptorIndex {
        fingerprint: 0,
        messages: Vec::new(),
        enums: vec![task_status()],
        services: Vec::new(),
    };
    let (positions, errors) = resolve_enum_names(
        &index,
        &vec!["nope.E".to_string(), "armonik.api.grpc.v1.task_status.TaskStatus".to_string()],
    );
    assert_eq!(positions, vec![0]);
    assert_eq!(
        messages(&errors),
        vec![(Site::Name(0), "proto enum `nope.E` not found in the compiled descriptor set".to_string())]
    );
}

fn field(name: &str, tag: u32, kind: FieldKind) -> FieldMeta {
    FieldMeta {
        name: name.to_string(),
        tag,
        kind,
        cardinality: Cardinality::Optional,
        docs: Vec::new(),
        oneof: None,
    }
}

fn wrapper(fields: Vec<FieldMeta>, docs: &[&str]) -> MessageMeta {
    MessageMeta {
        fields,
        oneofs: Vec::new(),
        docs: docs.iter().map(|d| d.to_string()).collect(),
    }
}

fn wrapped_index() -> DescriptorIndex {
    DescriptorIndex {
        fingerprint: 42,
        messages: vec![
            (
                "pkg.Outer".to_string(),
                wrapper(
                    vec![field("inner", 3, FieldKind::Message("pkg.Inner".to_string()))],
                    &["The outer wrapper."],
                ),
            ),
            (
                "pkg.Inner".to_string(),
                wrapper(
                    vec![field(
                        "status",
                        1,
                        FieldKind::Enum("armonik.api.grpc.v1.task_status.TaskStatus".to_string()),
                    )],
                    &[],
                ),
            ),
            (
                "pkg.Two".to_string(),
                wrapper(
                    vec![
                        field("a", 1, FieldKind::Int32),
                        field("b", 2, FieldKind::Int32),
                    ],
                    &[],
                ),
            ),
            (
                "pkg.Scalar".to_string(),
                wrapper(vec![field("a", 5, FieldKind::Int64)], &[]),
            ),
            (
                "pkg.Odd".to_string(),
                wrapper(
                    vec![field("n", 6, FieldKind::Unsupported("sint32".to_string()))],
                    &[],
                ),
            ),
        ],
        enums: vec![task_status()],
        services: Vec::new(),
    }
}

fn unit(ident: &str) -> EnumVariant {
    EnumVariant {
        ident: ident.to_string(),
        scanned: Some(None),
        has_default: false,
        form: VariantForm::Unit,
    }
}

fn catch_all(ident: &str, payload: &str) -> EnumVariant {
    EnumVariant {
        ident: ident.to_string(),
        scanned: Some(None),
        has_default: false,
        form: VariantForm::Payload(Some(payload.to_string())),
    }
}

#[test]
fn variants_sort_into_named_catch_all_and_poisoned() {
    let mut renamed = unit("r#Sent");
    renamed.scanned = Some(Some("TASK_STATUS_SUBMITTED".to_string()));
    let mut defaulted = unit("r#Creating");
    defaulted.has_default = true;
    let unscanned = EnumVariant {
        scanned: None,
        ..unit("Broken")
    };
    let variants = vec![
        defaulted,
        renamed,
        catch_all("Unknown", "UnknownStatus"),
        catch_all("Again", "Other"),
        EnumVariant {
            form: VariantForm::Payload(None),
            ..unit("Pathy")
        },
        EnumVariant {
            form: VariantForm::Other,
            ..unit("Struct")
        },
        unscanned,
    ];
    let c = classify_variants(&variants);
    assert!(c.has_std_default);
    assert_eq!(
        c.named
            .iter()
            .map(|v| (v.site, v.ident.clone(), v.proto_name.clone()))
            .collect::<Vec<_>>(),
        vec![
            (0, "r#Creating".to_string(), "Creating".to_string()),
            (1, "r#Sent".to_string(), "TASK_STATUS_SUBMITTED".to_string()),
        ]
    );
    assert_eq!(
        c.catch_all,
        Some(("Unknown".to_string(), "UnknownStatus".to_string()))
    );
    assert_eq!(
        c.poisoned
            .iter()
            .map(|p| (p.ident.clone(), p.payload.clone()))
            .collect::<Vec<_>>(),
        vec![
            ("Again".to_string(), Some("Other".to_string())),
            ("Pathy".to_string(), None),
            ("Struct".to_string(), None),
            ("Broken".to_string(), None),
        ]
    );
    assert_eq!(
        messages(&c.errors),
        vec![
            (
                Site::Variant(3),
                "#[armonik_macros::enumeration] expects exactly one catch-all tuple variant".to_string()
            ),
            (
                Site::Variant(4),
                "the catch-all payload must be a bare type name; the derive emits that struct".to_string()
            ),
            (
                Site::Variant(5),
                "#[armonik_macros::enumeration] variants must be unit variants or the single catch-all tuple variant"
                    .to_string()
            ),
        ]
    );
}

#[test]
fn implemented_derives_are_rejected() {
    let (found, errors) = reject_implemented_derives(&vec![
        "Debug".to_string(),
        "Hash".to_string(),
        "std :: cmp :: PartialEq".to_string(),
    ]);
    assert!(found);
    assert_eq!(
        messages(&errors),
        vec![(
            Site::Derive(1),
            "an enumeration must not derive `Hash`: the expansion implements it in terms of the proto value, so that the two spellings of one value (the named variant, and the catch-all holding its number) are one value"
                .to_string()
        )]
    );
    let (none, quiet) = reject_implemented_derives(&vec!["Clone".to_string()]);
    assert!(!none);
    assert!(quiet.is_empty());
}

#[test]
fn a_wrapper_chain_is_followed_down_to_its_enum() {
    let index = wrapped_index();
    let (path, absorbs, end) = wrapper_chain(&index, &"pkg.Outer".to_string());
    assert_eq!(path, vec![3, 1]);
    assert_eq!(absorbs, vec!["pkg.Inner".to_string()]);
    assert_eq!(
        end,
        Ok("armonik.api.grpc.v1.task_status.TaskStatus".to_string())
    );
}

#[test]
fn a_wrapper_chain_stops_at_what_is_not_a_wrapper() {
    let index = wrapped_index();
    let (path, absorbs, end) = wrapper_chain(&index, &"pkg.Two".to_string());
    assert!(path.is_empty() && absorbs.is_empty());
    assert_eq!(
        end,
        Err("`pkg.Two` is not a single-field wrapper message".to_string())
    );
    let (path, _, end) = wrapper_chain(&index, &"pkg.Scalar".to_string());
    assert_eq!(path, vec![5]);
    assert_eq!(
        end,
        Err("the single field of `pkg.Scalar` is neither an enum nor a wrapper message (Int64)".to_string())
    );
    let (_, _, end) = wrapper_chain(&index, &"pkg.Missing".to_string());
    assert_eq!(
        end,
        Err("proto message `pkg.Missing` not found in the compiled descriptor set".to_string())
    );
}

#[test]
fn a_plain_enumeration_resolves_against_its_proto_enum() {
    let index = wrapped_index();
    assert!(enums_consistent(&index));
    let item = EnumItem {
        derives: vec!["Debug".to_string()],
        attrs: Vec::new(),
        proto_names: vec!["armonik.api.grpc.v1.task_status.TaskStatus".to_string()],
        variants: Some(vec![
            unit("Unspecified"),
            unit("Creating"),
            unit("Submitted"),
            catch_all("Unknown", "UnknownTaskStatus"),
        ]),
    };
    let plan = resolve_enumeration(&index, &item);
    assert!(plan.errors.is_empty(), "{:?}", messages(&plan.errors));
    assert!(plan.is_enum && !plan.derived_comparisons && !plan.has_std_default);
    assert_eq!(plan.fingerprint, 42);
    assert_eq!(plan.docs, vec!["Status.".to_string()]);
    assert_eq!(plan.zero_variant.as_deref(), Some("Unspecified"));
    assert_eq!(
        plan.named
            .iter()
            .map(|v| (v.ident.clone(), v.number))
            .collect::<Vec<_>>(),
        vec![
            ("Unspecified".to_string(), 0),
            ("Creating".to_string(), 1),
            ("Submitted".to_string(), 2),
        ]
    );
    assert_eq!(
        plan.catch_all,
        Some(("Unknown".to_string(), "UnknownTaskStatus".to_string()))
    );
    match plan.mode {
        EnumMode::Plain { names } => assert_eq!(
            names,
            vec!["armonik.api.grpc.v1.task_status.TaskStatus".to_string()]
        ),
        EnumMode::Transparent { .. } => panic!("plain mode expected"),
    }
}

#[test]
fn an_enumeration_reports_its_mistakes_in_order() {
    let index = wrapped_index();
    let item = EnumItem {
        derives: vec!["PartialEq".to_string()],
        attrs: vec![TypeAttr::Generic],
        proto_names: vec!["nope.E".to_string()],
        variants: Some(vec![unit("Creating")]),
    };
    let plan = resolve_enumeration(&index, &item);
    assert!(plan.derived_comparisons);
    assert!(plan.docs.is_empty());
    assert_eq!(
        plan.poisoned.iter().map(|p| p.ident.clone()).collect::<Vec<_>>(),
        vec!["Creating".to_string()]
    );
    let sites: Vec<Site> = plan.errors.iter().map(|d| d.site).collect();
    assert_eq!(
        sites,
        vec![Site::Derive(0), Site::Attr(0), Site::Name(0), Site::Item]
    );
    assert_eq!(
        plan.errors[3].message,
        "#[armonik_macros::enumeration] requires a catch-all tuple variant, e.g. `Unknown(UnknownTaskStatus)`"
    );
}

#[test]
fn an_item_that_is_not_an_enum_resolves_to_nothing_variant_shaped() {
    let index = wrapped_index();
    let item = EnumItem {
        derives: Vec::new(),
        attrs: Vec::new(),
        proto_names: Vec::new(),
        variants: None,
    };
    let plan = resolve_enumeration(&index, &item);
    assert!(!plan.is_enum);
    assert_eq!(
        messages(&plan.errors),
        vec![
            (
                Site::Item,
                "missing the proto enum this type stands for: #[armonik_macros::enumeration(\"full.proto.Name\")]"
                    .to_string()
            ),
            (Site::Item, "#[armonik_macros::enumeration] expects an enum".to_string()),
        ]
    );
}

#[test]
fn a_transparent_enumeration_flattens_its_wrapper_chain() {
    let index = wrapped_index();
    let item = EnumItem {
        derives: Vec::new(),
        attrs: vec![TypeAttr::Transparent],
        proto_names: vec!["pkg.Outer".to_string(), "pkg.Two".to_string()],
        variants: Some(vec![
            unit("Creating"),
            unit("Submitted"),
            catch_all("Unknown", "UnknownTaskStatus"),
        ]),
    };
    let plan = resolve_enumeration(&index, &item);
    assert_eq!(plan.absorbs, vec!["pkg.Inner".to_string()]);
    assert_eq!(plan.docs, vec!["The outer wrapper.".to_string()]);
    assert_eq!(
        messages(&plan.errors),
        vec![(
            Site::Name(1),
            "`pkg.Two` is not a single-field wrapper message".to_string()
        )]
    );
    match plan.mode {
        EnumMode::Transparent { names, path } => {
            assert_eq!(names, vec!["pkg.Outer".to_string(), "pkg.Two".to_string()]);
            assert_eq!(path, Some(vec![3, 1]));
        }
        EnumMode::Plain { .. } => panic!("transparent mode expected"),
    }
    assert_eq!(plan.named.len(), 2);
}

#[test]
fn every_variant_is_accounted_for_once() {
    let index = wrapped_index();
    let variants = vec![
        unit("Creating"),
        unit("Bogus"),
        catch_all("Unknown", "UnknownTaskStatus"),
        catch_all("Again", "Other"),
        EnumVariant {
            form: VariantForm::Other,
            ..unit("Struct")
        },
    ];
    let count = variants.len();
    let item = EnumItem {
        derives: Vec::new(),
        attrs: Vec::new(),
        proto_names: vec!["armonik.api.grpc.v1.task_status.TaskStatus".to_string()],
        variants: Some(variants),
    };
    let plan = resolve_enumeration(&index, &item);
    let catch_alls = if plan.catch_all.is_some() { 1 } else { 0 };
    assert_eq!(plan.named.len(), 1);
    assert_eq!(plan.poisoned.len(), 3);
    assert_eq!(plan.named.len() + plan.poisoned.len() + catch_alls, count);
}

#[test]
fn a_chain_error_shows_the_kind_as_debug_writes_it() {
    let index = wrapped_index();
    let (path, _, end) = wrapper_chain(&index, &"pkg.Odd".to_string());
    assert_eq!(path, vec![6]);
    assert_eq!(
        end,
        Err("the single field of `pkg.Odd` is neither an enum nor a wrapper message (Unsupported(\"sint32\"))".to_string())
    );
}

#[test]
fn a_cyclic_wrapper_chain_is_told_from_one_that_ends() {
    let mut index = wrapped_index();
    assert!(wrapper_chain_ends(&index, &"pkg.Outer".to_string()));
    assert!(wrapper_chain_ends(&index, &"pkg.Missing".to_string()));
    index.messages.push((
        "pkg.Loop".to_string(),
        wrapper(vec![field("again", 1, FieldKind::Message("pkg.Back".to_string()))], &[]),
    ));
    index.messages.push((
        "pkg.Back".to_string(),
        wrapper(vec![field("forth", 1, FieldKind::Message("pkg.Loop".to_string()))], &[]),
    ));
    assert!(!wrapper_chain_ends(&index, &"pkg.Loop".to_string()));
}

#[test]
fn an_enumeration_emits_its_values_default_and_wire() {
    let index = wrapped_index();
    let plain = EnumItem {
        derives: Vec::new(),
        attrs: Vec::new(),
        proto_names: vec!["armonik.api.grpc.v1.task_status.TaskStatus".to_string()],
        variants: Some(vec![
            unit("Creating"),
            unit("Submitted"),
            catch_all("Unknown", "UnknownTaskStatus"),
        ]),
    };
    let e = enum_emission(&resolve_enumeration(&index, &plain));
    assert!(e.items && e.unspecified && e.comparisons);
    assert_eq!(e.payload_structs, vec!["UnknownTaskStatus".to_string()]);
    assert_eq!(e.values, vec![(1, "Creating".to_string()), (2, "Submitted".to_string())]);
    assert!(matches!(e.default, Some(DefaultValue::Unspecified)));
    assert!(matches!(e.wire, WireEmission::Plain { .. }));

    let transparent = EnumItem {
        attrs: vec![TypeAttr::Transparent],
        proto_names: vec!["pkg.Outer".to_string()],
        ..plain
    };
    let e = enum_emission(&resolve_enumeration(&index, &transparent));
    match e.wire {
        WireEmission::Chain { root, wrappers, .. } => {
            assert_eq!(root, 3);
            assert_eq!(wrappers, vec![1]);
        }
        _ => panic!("a resolved wrapper chain"),
    }
    assert_eq!(e.absorbs, vec!["pkg.Inner".to_string()]);
}
