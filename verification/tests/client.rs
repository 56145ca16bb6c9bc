use armonik_api::client::{claim_of_macro, find_service, method_docs, Token};
use armonik_api::descriptor::{DescriptorIndex, MethodMeta, ServiceMeta};

fn method(name: &str, docs: &[&str]) -> MethodMeta {
    MethodMeta {
        name: name.to_string(),
        input: "pkg.In".to_string(),
        output: "pkg.Out".to_string(),
        client_streaming: false,
        server_streaming: false,
        docs: docs.iter().map(|d| d.to_string()).collect(),
    }
}

fn index() -> DescriptorIndex {
    DescriptorIndex {
        fingerprint: 0,
        messages: Vec::new(),
        enums: Vec::new(),
        services: vec![
            ("pkg.Tasks".to_string(), ServiceMeta { methods: vec![method("List", &["Lists tasks."])], docs: Vec::new() }),
            ("pkg.Auth".to_string(), ServiceMeta { methods: Vec::new(), docs: Vec::new() }),
        ],
    }
}

#[test]
fn a_known_service_is_found_and_an_unknown_one_lists_the_rest_sorted() {
    assert_eq!(find_service(&index(), "pkg.Tasks"), Ok(0));
    assert_eq!(
        find_service(&index(), "pkg.Nope"),
        Err("no service `pkg.Nope` in the descriptor; known services: pkg.Auth, pkg.Tasks".to_string())
    );
}

#[test]
fn a_method_gets_its_rpc_docs_or_an_error_naming_the_alternatives() {
    let index = index();
    let service = &index.services[0].1;
    assert_eq!(method_docs(service, "List", "pkg.Tasks"), Ok(vec!["Lists tasks.".to_string()]));
    assert_eq!(
        method_docs(service, "Get", "pkg.Tasks"),
        Err("no method named `Get` in service `pkg.Tasks` (available: List); check the RPC name against the proto service"
            .to_string())
    );
}

#[test]
fn a_client_method_invocation_claims_its_leading_name() {
    let tokens = vec![Token::Punct('#'), Token::Group, Token::Ident("ListTasks".to_string()), Token::Group];
    assert_eq!(claim_of_macro("client_method", &tokens), Some("ListTasks".to_string()));
    assert_eq!(claim_of_macro("other", &tokens), None);
    assert_eq!(claim_of_macro("client_method", &vec![Token::Literal]), None);
}
