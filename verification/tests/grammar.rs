use armonik_api::descriptor::{MethodMeta, ServiceMeta};
use armonik_api::grammar::{lines_of, parse_proto_names, parse_service, SvcToken};
use armonik_api::service::{validate, CallKind, Projection};

/// Splits source text into tokens the way the compiler hands them to a macro, groups flattened.
fn lex(text: &str) -> Vec<SvcToken> {
    let chars: Vec<char> = text.chars().collect();
    let mut out = Vec::new();
    let mut i = 0;
    while i < chars.len() {
        let c = chars[i];
        if c.is_whitespace() {
            i += 1;
        } else if c.is_alphanumeric() || c == '_' {
            let start = i;
            while i < chars.len() && (chars[i].is_alphanumeric() || chars[i] == '_') {
                i += 1;
            }
            out.push(SvcToken::Ident(chars[start..i].iter().collect()));
        } else if c == '"' {
            let start = i + 1;
            i += 1;
            while chars[i] != '"' {
                i += 1;
            }
            out.push(SvcToken::Str(chars[start..i].iter().collect()));
            i += 1;
        } else if c == '(' || c == '[' || c == '{' {
            out.push(SvcToken::Open(c));
            i += 1;
        } else if c == ')' || c == ']' || c == '}' {
            out.push(SvcToken::Close(c));
            i += 1;
        } else {
            let joint = i + 1 < chars.len()
                && !chars[i + 1].is_whitespace()
                && !chars[i + 1].is_alphanumeric()
                && !"()[]{}\"_".contains(chars[i + 1]);
            out.push(SvcToken::Punct(c, joint));
            i += 1;
        }
    }
    out
}

fn method(name: &str, client_streaming: bool, server_streaming: bool) -> MethodMeta {
    MethodMeta {
        name: name.to_string(),
        input: format!("pkg.{name}Request"),
        output: format!("pkg.{name}Response"),
        client_streaming,
        server_streaming,
        docs: Vec::new(),
    }
}

#[test]
fn the_documented_invocation_parses_and_validates() {
    let tokens = lex(
        r#"Results in crate::results @ "armonik.api.grpc.v1.results.Results";
        rpc ListResults(list::Request) -> list::Response;
        rpc DownloadResultData(download::Request) -> stream download::Response;
        rpc UploadResultData(stream upload::Request) -> upload::Response;
        rpc WatchResults(stream watch::Request) -> stream watch::Response;"#,
    );
    let def = parse_service(&tokens).ok().expect("the example parses");
    assert_eq!(def.marker, "Results");
    assert_eq!(def.module, vec!["crate".to_string(), "results".to_string()]);
    assert_eq!(def.name, "armonik.api.grpc.v1.results.Results");
    assert!(!def.deprecated && def.unexposed.is_empty());
    assert_eq!(def.rpcs.len(), 4);
    assert!(def.rpcs[3].line.client_stream && def.rpcs[3].line.server_stream);
    assert_eq!(def.rpcs[1].response, vec!["download".to_string(), "Response".to_string()]);
    assert!(matches!(def.rpcs[0].project, Projection::Whole));
    let service = ServiceMeta {
        methods: vec![
            method("ListResults", false, false),
            method("DownloadResultData", false, true),
            method("UploadResultData", true, false),
            method("WatchResults", true, true),
        ],
        docs: Vec::new(),
    };
    let resolved = validate(&lines_of(&def), &service).unwrap_or_else(|_| panic!("the example validates"));
    assert!(resolved[2].kind == CallKind::ClientStream);
    assert!(resolved[3].kind == CallKind::Bidirectional);
}

#[test]
fn the_optional_header_lines_and_line_tails_parse() {
    let tokens = lex(
        r#"Tasks in crate::tasks @ "p.Tasks"; unexposed(A, B,); deprecated;
        rpc Get(get::Request) -> get::Response as fetch => task manual;
        rpc Drop(d::Request) -> d::Response => ();"#,
    );
    let def = parse_service(&tokens).ok().expect("parses");
    assert_eq!(def.unexposed, vec!["A".to_string(), "B".to_string()]);
    assert!(def.deprecated);
    assert_eq!(def.rpcs[0].line.ergonomic.as_deref(), Some("fetch"));
    assert!(matches!(&def.rpcs[0].project, Projection::Field(f) if f == "task"));
    assert!(def.rpcs[0].line.manual);
    assert!(matches!(def.rpcs[1].project, Projection::Discard));
}

#[test]
fn a_malformed_invocation_reports_where_and_what() {
    let e = parse_service(&lex(r#"Results crate::results @ "p.R";"#)).err().expect("no `in`");
    assert_eq!((e.at, e.expected.as_str()), (1, "`in`"));
    let e = parse_service(&lex(r#"R in m @ "p.R"; rpc A(a::Req, b::Req) -> a::Resp;"#)).err().expect("two types");
    assert_eq!(e.expected, "a single request type");
    let e = parse_service(&lex(r#"R in m @ "p.R"; rpc A(a::Req) a::Resp;"#)).err().expect("no arrow");
    assert_eq!(e.expected, "`->`");
}

#[test]
fn proto_names_are_string_literals_separated_by_commas() {
    assert_eq!(
        parse_proto_names(&lex(r#""a.B", "a.C","#)).ok(),
        Some(vec!["a.B".to_string(), "a.C".to_string()])
    );
    assert_eq!(parse_proto_names(&Vec::new()).ok(), Some(Vec::new()));
    let e = parse_proto_names(&lex(r#""a.B" "a.C""#)).err().expect("a missing comma");
    assert_eq!((e.at, e.expected.as_str()), (1, "`,`"));
}
