use armonik_api::descriptor::{MethodMeta, ServiceMeta};
use armonik_api::service::{
    convenience_method, convenience_target, error_message, service_emission, Convenience, Projection,
    Returned, SugarClass, unexposed_messages, validate, CallKind, RpcLine, ServiceError, ServiceLines,
};

fn method(name: &str, client_streaming: bool, server_streaming: bool) -> MethodMeta {
    MethodMeta {
        name: name.to_string(),
        input: format!("pkg.{name}Request"),
        output: format!("pkg.{name}Response"),
        client_streaming,
        server_streaming,
        docs: Vec::new(),
    }
}

fn results() -> ServiceMeta {
    ServiceMeta {
        methods: vec![
            method("ListResults", false, false),
            method("DownloadResultData", false, true),
            method("UploadResultData", true, false),
            method("WatchResults", true, true),
        ],
        docs: Vec::new(),
    }
}

fn line(method: &str, client_stream: bool, request: &[&str], server_stream: bool) -> RpcLine {
    RpcLine {
        method: method.to_string(),
        client_stream,
        request: request.iter().map(|s| s.to_string()).collect(),
        server_stream,
        ergonomic: None,
        manual: client_stream,
    }
}

fn good_lines() -> ServiceLines {
    ServiceLines {
        unexposed: vec!["WatchResults".to_string()],
        rpcs: vec![
            line("ListResults", false, &["list", "Request"], false),
            line("DownloadResultData", false, &["download", "Request"], true),
            line("UploadResultData", true, &["upload", "Request"], false),
        ],
    }
}

#[test]
fn a_complete_service_resolves_every_line() {
    let resolved = validate(&good_lines(), &results()).ok().expect("valid");
    assert_eq!(resolved.len(), 3);
    assert_eq!(resolved[0].ergonomic, "list");
    assert!(resolved[0].kind == CallKind::Unary);
    assert!(resolved[1].kind == CallKind::ServerStream);
    assert!(resolved[2].kind == CallKind::ClientStream);
    assert_eq!(resolved[2].method, 2);
    assert_eq!(resolved[1].rpc, 1);
}

#[test]
fn an_unknown_method_is_rejected() {
    let mut lines = good_lines();
    lines.rpcs[1].method = "Nope".to_string();
    assert!(matches!(validate(&lines, &results()), Err(ServiceError::NoMethod { rpc: 1 })));
}

#[test]
fn a_method_declared_twice_is_rejected() {
    let mut lines = good_lines();
    let mut again = line("ListResults", false, &["list2", "Request"], false);
    again.ergonomic = Some("again".to_string());
    lines.rpcs.push(again);
    assert!(matches!(validate(&lines, &results()), Err(ServiceError::DeclaredTwice { rpc: 3 })));
}

#[test]
fn stream_keywords_must_agree_with_the_proto() {
    let mut lines = good_lines();
    lines.rpcs[1].server_stream = false;
    assert!(matches!(
        validate(&lines, &results()),
        Err(ServiceError::ServerStreaming { rpc: 1, streaming: true })
    ));
    let mut lines = good_lines();
    lines.rpcs[0].client_stream = true;
    assert!(matches!(
        validate(&lines, &results()),
        Err(ServiceError::ClientStreaming { rpc: 0, streaming: false })
    ));
}

#[test]
fn a_client_stream_is_accepted_without_manual() {
    let mut lines = good_lines();
    lines.rpcs[2].manual = false;
    let resolved = validate(&lines, &results()).unwrap_or_else(|_| panic!("accepted"));
    assert!(resolved[2].kind == CallKind::ClientStream);
}

#[test]
fn bidirectional_rpcs_are_accepted() {
    let mut lines = good_lines();
    lines.unexposed.clear();
    lines.rpcs.push(line("WatchResults", true, &["watch", "Request"], true));
    let resolved = validate(&lines, &results()).unwrap_or_else(|_| panic!("accepted"));
    assert_eq!(resolved.len(), 4);
    assert!(resolved[3].kind == CallKind::Bidirectional);
    assert_eq!(resolved[3].ergonomic, "watch");
}

#[test]
fn handler_names_are_derived_and_must_not_collide() {
    let mut lines = good_lines();
    lines.rpcs[1].request = vec!["list".to_string(), "Other".to_string()];
    assert!(matches!(
        validate(&lines, &results()),
        Err(ServiceError::DuplicateErgonomic { rpc: 1 })
    ));
    lines.rpcs[1].ergonomic = Some("download".to_string());
    assert!(validate(&lines, &results()).is_ok());
    lines.rpcs[0].request = vec!["Request".to_string()];
    assert!(matches!(
        validate(&lines, &results()),
        Err(ServiceError::NoModuleSegment { rpc: 0 })
    ));
}

#[test]
fn unexposed_names_must_be_undeclared_methods() {
    let mut lines = good_lines();
    lines.unexposed.push("Ghost".to_string());
    assert!(matches!(
        validate(&lines, &results()),
        Err(ServiceError::UnknownUnexposed { unexposed: 1 })
    ));
    let mut lines = good_lines();
    lines.unexposed.insert(0, "ListResults".to_string());
    assert!(matches!(
        validate(&lines, &results()),
        Err(ServiceError::UnexposedDeclared { unexposed: 0 })
    ));
}

#[test]
fn every_method_must_be_declared_or_unexposed() {
    let mut lines = good_lines();
    lines.unexposed.clear();
    lines.rpcs.remove(0);
    match validate(&lines, &results()) {
        Err(ServiceError::Undeclared { missing }) => assert_eq!(missing, vec![0, 3]),
        _ => panic!("expected undeclared methods"),
    }
}

#[test]
fn unexposed_methods_register_their_messages() {
    let messages = unexposed_messages(&results(), &vec!["WatchResults".to_string(), "ListResults".to_string()]);
    assert_eq!(
        messages,
        vec![
            "pkg.WatchResultsRequest".to_string(),
            "pkg.WatchResultsResponse".to_string(),
            "pkg.ListResultsRequest".to_string(),
            "pkg.ListResultsResponse".to_string(),
        ]
    );
}

#[test]
fn a_convenience_method_reads_its_request_path() {
    let list = line("ListResults", false, &["results", "list", "ListRequest"], false);
    assert_eq!(
        convenience_target(&list),
        Ok(Some((
            vec!["results".to_string(), "list".to_string()],
            "__armonik_fields_list_request".to_string()
        )))
    );
    let manual = line("UploadResultData", true, &["Request"], false);
    assert_eq!(convenience_target(&manual), Ok(None));
    let bare = line("ListResults", false, &["Request"], false);
    assert_eq!(
        convenience_target(&bare),
        Err("convenience emission needs a `module::Type` request path; use `manual` to opt out".to_string())
    );
}

#[test]
fn a_rejection_reads_as_the_original_text() {
    let service = ServiceMeta {
        methods: vec![method("A", false, false), method("B", false, false)],
        docs: Vec::new(),
    };
    let lines = ServiceLines {
        unexposed: Vec::new(),
        rpcs: vec![line("A", false, &["a", "Request"], false)],
    };
    let error = match validate(&lines, &service) {
        Err(e) => e,
        Ok(_) => panic!("B is undeclared"),
    };
    assert_eq!(
        error_message(&error, "p.S", &lines, &service),
        "service `p.S` has undeclared methods: B; add `rpc` lines or list them in `unexposed(...)`"
    );
    let lines = ServiceLines {
        unexposed: vec!["B".to_string()],
        rpcs: vec![line("A", false, &["a", "Request"], false)],
    };
    let resolved = validate(&lines, &service).unwrap_or_else(|_| panic!("accepted"));
    assert_eq!(resolved.len(), 1);
    assert_eq!(resolved[0].ergonomic, "a");
    assert!(resolved[0].kind == CallKind::Unary);
    let twice = ServiceLines {
        unexposed: vec!["B".to_string()],
        rpcs: vec![
            line("A", false, &["a", "Request"], false),
            line("A", false, &["b", "Request"], false),
        ],
    };
    let error = match validate(&twice, &service) {
        Err(e) => e,
        Ok(_) => panic!("declared twice"),
    };
    assert_eq!(error_message(&error, "p.S", &twice, &service), "method `A` is declared twice");
}

#[test]
fn a_service_emits_its_marker_traits_and_exposed_rpcs() {
    let mut lines = good_lines();
    lines.unexposed.clear();
    lines.rpcs.push(line("WatchResults", true, &["watch", "Request"], true));
    let resolved = validate(&lines, &results()).unwrap_or_else(|_| panic!("accepted"));
    let e = service_emission(
        "Results",
        "armonik.api.grpc.v1.results.Results",
        false,
        42,
        &results(),
        &lines,
        &resolved,
    );
    assert_eq!(e.trait_name, "ResultsService");
    assert_eq!(e.ext_name, "ResultsServiceExt");
    assert_eq!(e.server_fn, "results_server");
    assert_eq!(e.fingerprint, 42);
    assert_eq!(e.rpcs.len(), 3);
    assert_eq!(e.rpcs[0].path, "/armonik.api.grpc.v1.results.Results/ListResults");
    assert_eq!(e.rpcs[0].label, "Results::list");
    assert_eq!(e.rpcs[0].serve, "serve_unary");
    assert_eq!(e.rpcs[1].serve, "serve_server_stream");
    assert_eq!(e.rpcs[2].serve, "serve_client_stream");
    assert_eq!(e.rpcs[2].input, "pkg.UploadResultDataRequest");
    assert!(e.unexposed_messages.is_empty());
}

fn path(segments: &[&str]) -> Vec<String> {
    segments.iter().map(|s| s.to_string()).collect()
}

#[test]
fn an_auto_projection_follows_the_response_fields() {
    let request = path(&["tasks", "ListRequest"]);
    let response = path(&["tasks", "ListResponse"]);
    match convenience_method(&Projection::Auto, &None, false, &request, &response, &Vec::new()) {
        Ok(Convenience::Hop { parent, callback }) => {
            assert_eq!(parent, vec!["tasks".to_string()]);
            assert_eq!(callback, "__armonik_fields_list_response");
        }
        _ => panic!("a hop through the response fields"),
    }
    let one = Some(vec!["task".to_string()]);
    match convenience_method(&Projection::Auto, &one, false, &request, &response, &Vec::new()) {
        Ok(Convenience::Method { gives: Returned::Field { field, alias, .. }, stream, request_stem, .. }) => {
            assert_eq!(field, "task");
            assert_eq!(alias, "__armonik_ty_list_response_task");
            assert!(!stream);
            assert_eq!(request_stem, "list_request");
        }
        _ => panic!("the single field is projected"),
    }
    let two = Some(vec!["a".to_string(), "b".to_string()]);
    assert!(matches!(
        convenience_method(&Projection::Auto, &two, false, &request, &response, &Vec::new()),
        Ok(Convenience::Method { gives: Returned::Whole, .. })
    ));
    assert_eq!(
        convenience_method(&Projection::Discard, &None, true, &request, &response, &Vec::new()).err(),
        Some("`=> ()` is not valid on a server-streaming rpc".to_string())
    );
    assert_eq!(
        convenience_method(&Projection::Whole, &None, false, &path(&["Bare"]), &response, &Vec::new()).err(),
        Some("expected a `module::Type` path".to_string())
    );
}

#[test]
fn explicit_projection_returns_the_field_alias() {
    let request = path(&["crate", "results", "get", "Request"]);
    let response = path(&["crate", "results", "get", "Response"]);
    let project = Projection::Field("result".to_string());
    let fields = vec![("id".to_string(), SugarClass::Into)];
    match convenience_method(&project, &None, false, &request, &response, &fields) {
        Ok(Convenience::Method { gives: Returned::Field { field, parent, alias }, stream, request_parent, request_stem, params }) => {
            assert_eq!(params.len(), 1);
            assert_eq!(params[0].aliases, vec!["__armonik_ty_request_id".to_string()]);
            assert_eq!(field, "result");
            assert_eq!(parent, path(&["crate", "results", "get"]));
            assert_eq!(alias, "__armonik_ty_response_result");
            assert!(!stream);
            assert_eq!(request_parent, path(&["crate", "results", "get"]));
            assert_eq!(request_stem, "request");
        }
        _ => panic!("the named field is projected"),
    }
}

#[test]
fn discard_drops_the_response() {
    let request = path(&["crate", "submitter", "cancel", "Request"]);
    let response = path(&["crate", "submitter", "cancel", "Response"]);
    assert!(matches!(
        convenience_method(&Projection::Discard, &None, false, &request, &response, &Vec::new()),
        Ok(Convenience::Method { gives: Returned::Unit, stream: false, .. })
    ));
}

#[test]
fn auto_without_response_fields_chains_the_response_callback() {
    let request = path(&["crate", "sessions", "get", "Request"]);
    let response = path(&["crate", "sessions", "get", "Response"]);
    match convenience_method(&Projection::Auto, &None, false, &request, &response, &Vec::new()) {
        Ok(Convenience::Hop { parent, callback }) => {
            assert_eq!(parent, path(&["crate", "sessions", "get"]));
            assert_eq!(callback, "__armonik_fields_response");
        }
        _ => panic!("no method before the response's fields are known"),
    }
}

#[test]
fn auto_projects_a_single_response_field_and_returns_whole_otherwise() {
    let request = path(&["crate", "sessions", "get", "Request"]);
    let response = path(&["crate", "sessions", "get", "Response"]);
    let single = Some(vec!["session".to_string()]);
    match convenience_method(&Projection::Auto, &single, false, &request, &response, &Vec::new()) {
        Ok(Convenience::Method { gives: Returned::Field { field, .. }, .. }) => assert_eq!(field, "session"),
        _ => panic!("the single field is projected"),
    }
    let request = path(&["crate", "sessions", "list", "Request"]);
    let response = path(&["crate", "sessions", "list", "Response"]);
    let multi = Some(vec!["sessions".to_string(), "total".to_string()]);
    assert!(matches!(
        convenience_method(&Projection::Auto, &multi, false, &request, &response, &Vec::new()),
        Ok(Convenience::Method { gives: Returned::Whole, .. })
    ));
}

#[test]
fn server_stream_returns_a_stream_and_maps_projections() {
    let request = path(&["crate", "events", "subscribe", "Request"]);
    let response = path(&["crate", "events", "subscribe", "Response"]);
    assert!(matches!(
        convenience_method(&Projection::Whole, &None, true, &request, &response, &Vec::new()),
        Ok(Convenience::Method { gives: Returned::Whole, stream: true, .. })
    ));
    let request = path(&["crate", "results", "download", "Request"]);
    let response = path(&["crate", "results", "download", "Response"]);
    let project = Projection::Field("data_chunk".to_string());
    match convenience_method(&project, &None, true, &request, &response, &Vec::new()) {
        Ok(Convenience::Method { gives: Returned::Field { field, alias, .. }, stream, .. }) => {
            assert_eq!(field, "data_chunk");
            assert_eq!(alias, "__armonik_ty_response_data_chunk");
            assert!(stream);
        }
        _ => panic!("a projected stream"),
    }
}

#[test]
fn discard_is_rejected_on_server_streams() {
    let request = path(&["crate", "x", "y", "Request"]);
    let response = path(&["crate", "x", "y", "Response"]);
    let err = convenience_method(&Projection::Discard, &None, true, &request, &response, &Vec::new()).err().unwrap();
    assert!(err.contains("server-streaming"), "{err}");
}

#[test]
fn an_auto_projection_over_a_fieldless_response_returns_it_whole() {
    let request = path(&["crate", "sessions", "get", "Request"]);
    let response = path(&["crate", "sessions", "get", "Response"]);
    let none = Some(Vec::new());
    assert!(matches!(
        convenience_method(&Projection::Auto, &none, false, &request, &response, &Vec::new()),
        Ok(Convenience::Method { gives: Returned::Whole, stream: false, .. })
    ));
    assert!(matches!(
        convenience_method(&Projection::Auto, &none, true, &request, &response, &Vec::new()),
        Ok(Convenience::Method { gives: Returned::Whole, stream: true, .. })
    ));
}

#[test]
fn unary_whole_with_all_sugar_classes() {
    let request = path(&["crate", "sessions", "list", "Request"]);
    let response = path(&["crate", "sessions", "list", "Response"]);
    let fields = vec![
        ("filters".to_string(), SugarClass::Filters),
        ("sort".to_string(), SugarClass::Plain),
        ("ids".to_string(), SugarClass::Iter),
        ("map".to_string(), SugarClass::Pairs),
        ("name".to_string(), SugarClass::Into),
    ];
    match convenience_method(&Projection::Whole, &None, false, &request, &response, &fields) {
        Ok(Convenience::Method { gives: Returned::Whole, stream, request_parent, request_stem, params }) => {
            assert!(!stream);
            assert_eq!(request_parent, path(&["crate", "sessions", "list"]));
            assert_eq!(request_stem, "request");
            let spelled: Vec<(String, SugarClass, Vec<String>)> =
                params.into_iter().map(|p| (p.name, p.class, p.aliases)).collect();
            assert_eq!(
                spelled,
                vec![
                    ("filters".to_string(), SugarClass::Filters, vec!["__armonik_ty_request_filters_elem".to_string()]),
                    ("sort".to_string(), SugarClass::Plain, vec!["__armonik_ty_request_sort".to_string()]),
                    ("ids".to_string(), SugarClass::Iter, vec!["__armonik_ty_request_ids_elem".to_string()]),
                    (
                        "map".to_string(),
                        SugarClass::Pairs,
                        vec!["__armonik_ty_request_map_key".to_string(), "__armonik_ty_request_map_value".to_string()],
                    ),
                    ("name".to_string(), SugarClass::Into, vec!["__armonik_ty_request_name".to_string()]),
                ]
            );
        }
        _ => panic!("a method returning the whole response"),
    }
}
