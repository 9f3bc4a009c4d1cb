use zelus::arguments::{ArgKind, QueryDecl, RawParam};
use zelus::client::{
    decode_response, record_body, request_target, BodyPlan, ClientResult, TransportOutcome,
};
use zelus::method::HttpMethod;
use zelus::model::{OperationDecl, ServiceConfig, SuccessType};
use zelus::service::{translate, Artifacts, TranslateError};
use zelus::taxonomy::{CategoryEntry, ErrorCategory, ErrorRef, ErrorSource};
use zelus::validate::ViolationKind;

fn s(x: &str) -> String {
    x.to_string()
}

fn param(name: &str, ty: &str) -> RawParam {
    RawParam { name: s(name), ty: s(ty), special: false, no_schema: false }
}

fn op(id: &str, path: &str, method: HttpMethod) -> OperationDecl {
    OperationDecl {
        id: s(id),
        path: s(path),
        absolute: false,
        method,
        params: Vec::new(),
        query: Vec::new(),
        groups: Vec::new(),
        requires_auth: false,
        raw: false,
        errors: Vec::new(),
        success: SuccessType::Value(s("User")),
        doc: Vec::new(),
    }
}

fn inline(name: &str, status: u16, message: &str) -> ErrorRef {
    ErrorRef {
        source: ErrorSource::Inline { name: s(name), status, message: s(message) },
        attributes: Vec::new(),
    }
}

fn config() -> ServiceConfig {
    ServiceConfig { prefix: s(""), tag: None }
}

fn auth_registry() -> Vec<ErrorCategory> {
    vec![ErrorCategory {
        name: s("auth"),
        entries: vec![CategoryEntry {
            name: s("invalid"),
            status: 401,
            message: s("Authentication is invalid"),
        }],
    }]
}

fn artifacts(decls: Vec<OperationDecl>) -> (zelus::model::ServiceDefinition, Artifacts) {
    match translate(config(), &auth_registry(), decls) {
        Ok(r) => r,
        Err(TranslateError::Build(e)) => panic!("build failed: {:?}", e),
        Err(TranslateError::Invalid(v)) => panic!("invalid: {:?}", v),
    }
}

fn group<'a>(a: &'a Artifacts, name: &str) -> &'a zelus::dispatch::RouteGroup {
    a.dispatch.iter().find(|g| g.name == name).expect("group present")
}

#[test]
fn path_parameter_operation_is_dispatched_and_decodes_errors() {
    let mut d = op("get_user", "/users/{id}", HttpMethod::Get);
    d.params = vec![param("id", "u64")];
    d.errors = vec![inline("NotFound", 404, "User not found")];
    let (def, a) = artifacts(vec![d]);
    for g in ["default", "without_auth"] {
        let grp = group(&a, g);
        assert_eq!(grp.entries.len(), 1);
        assert_eq!(grp.entries[0].path, "/users/{id}");
        assert_eq!(grp.entries[0].method, HttpMethod::Get);
        assert_eq!(grp.entries[0].operation_id, "get_user");
    }
    assert!(group(&a, "with_auth").entries.is_empty());
    assert_eq!(def.routes[0].arguments[0].kind, ArgKind::Path);
    let tax = &def.routes[0].taxonomy;
    assert_eq!(tax.entries[1].key, "not_found");
    let body = br#"{"error":{"id":"not_found","msg":"..."}}"#.to_vec();
    let r = decode_response(tax, &a.clients[0], TransportOutcome::Answered { status: 404, body });
    assert!(matches!(r, ClientResult::Declared(1)));
    let r = decode_response(tax, &a.clients[0], TransportOutcome::Failed);
    assert!(matches!(r, ClientResult::CommunicationFailure));
}

#[test]
fn unknown_error_id_is_not_success() {
    let mut d = op("get_user", "/users/{id}", HttpMethod::Get);
    d.params = vec![param("id", "u64")];
    d.errors = vec![inline("NotFound", 404, "User not found")];
    let (def, a) = artifacts(vec![d]);
    let tax = &def.routes[0].taxonomy;
    let body = br#"{"error":{"id":"gone","msg":"..."}}"#.to_vec();
    let r = decode_response(tax, &a.clients[0], TransportOutcome::Answered { status: 410, body });
    assert!(matches!(r, ClientResult::Unrecognized(410)));
    let body = br#"{"error":{"id":"communication","msg":"..."}}"#.to_vec();
    let r = decode_response(tax, &a.clients[0], TransportOutcome::Answered { status: 400, body });
    assert!(matches!(r, ClientResult::Unrecognized(400)));
    let r = decode_response(tax, &a.clients[0], TransportOutcome::Answered { status: 500, body: b"oops".to_vec() });
    assert!(matches!(r, ClientResult::Unrecognized(500)));
    let r = decode_response(tax, &a.clients[0], TransportOutcome::Answered { status: 200, body: b"{}".to_vec() });
    assert!(matches!(r, ClientResult::Body(ref b) if b == b"{}"));
}

#[test]
fn two_payloads_make_one_record_body() {
    let mut d = op("create_item", "/items", HttpMethod::Post);
    d.params = vec![param("a", "i32"), param("b", "String")];
    let (def, a) = artifacts(vec![d]);
    assert_eq!(def.routes[0].arguments[0].kind, ArgKind::Payload);
    assert_eq!(def.routes[0].arguments[1].kind, ArgKind::Payload);
    match &a.clients[0].body {
        BodyPlan::Record(names) => assert_eq!(names, &vec![s("a"), s("b")]),
        _ => panic!("expected a record body"),
    }
    let body = record_body(&vec![s("a"), s("b")], &vec![s("1"), s("\"x\"")]);
    assert_eq!(body, r#"{"a":1,"b":"x"}"#);
    let doc = a.documents[0].body.as_ref().expect("a body");
    assert!(!doc.stream);
    assert_eq!(doc.schema.as_deref(), Some("CreateItemPayload"));
    assert_eq!(doc.fields, vec![s("a"), s("b")]);
}

#[test]
fn explicit_group_excludes_default() {
    let mut admin = op("purge", "/purge", HttpMethod::Delete);
    admin.groups = vec![s("admin")];
    let plain = op("list", "/list", HttpMethod::Get);
    let other = op("count", "/count", HttpMethod::Get);
    let (_, a) = artifacts(vec![admin, plain, other]);
    let names: Vec<&str> = a.dispatch.iter().map(|g| g.name.as_str()).collect();
    assert_eq!(names, vec!["default", "with_auth", "without_auth", "admin"]);
    let ids = |g: &str| -> Vec<String> {
        group(&a, g).entries.iter().map(|e| e.operation_id.clone()).collect()
    };
    assert_eq!(ids("admin"), vec![s("purge")]);
    assert_eq!(ids("default"), vec![s("list"), s("count")]);
    assert_eq!(ids("without_auth"), vec![s("purge"), s("list"), s("count")]);
}

#[test]
fn artifacts_name_the_same_operations() {
    let mut first = op("one", "/one/{x}", HttpMethod::Get);
    first.params = vec![param("x", "u8")];
    let mut second = op("two", "/two", HttpMethod::Post);
    second.requires_auth = true;
    second.groups = vec![s("admin")];
    let (_, a) = artifacts(vec![first, second]);
    let mut from_dispatch: Vec<String> = a
        .dispatch
        .iter()
        .flat_map(|g| g.entries.iter().map(|e| e.operation_id.clone()))
        .collect();
    from_dispatch.sort();
    from_dispatch.dedup();
    let docs: Vec<String> = a.documents.iter().map(|d| d.operation_id.clone()).collect();
    let clients: Vec<String> = a.clients.iter().map(|c| c.operation_id.clone()).collect();
    assert_eq!(from_dispatch, vec![s("one"), s("two")]);
    assert_eq!(docs, vec![s("one"), s("two")]);
    assert_eq!(clients, vec![s("one"), s("two")]);
}

#[test]
fn emitting_twice_gives_identical_artifacts() {
    let build = || {
        let mut d = op("get_user", "/users/{id}", HttpMethod::Get);
        d.params = vec![param("id", "u64")];
        d.doc = vec![s("Reads a user."), s("  "), s("By id.")];
        d
    };
    let (def, a) = artifacts(vec![build()]);
    let b = zelus::service::emit(&def);
    assert_eq!(format!("{:?}", summary(&a)), format!("{:?}", summary(&b)));
}

fn summary(a: &Artifacts) -> Vec<String> {
    let mut out = Vec::new();
    for g in &a.dispatch {
        for e in &g.entries {
            out.push(format!("{} {} {} {:?}", g.name, e.operation_id, e.path, e.method));
        }
    }
    for d in &a.documents {
        out.push(format!("{:?} {:?} {}", d.summary, d.description, d.responses.len()));
    }
    for c in &a.clients {
        out.push(format!("{} {:?} {}", c.operation_id, c.path_params, c.segments.len()));
    }
    out
}

#[test]
fn query_required_follows_optional_type() {
    let mut d = op("search", "/search", HttpMethod::Get);
    d.params = vec![param("q", "String"), param("page", "Option<u32>")];
    d.query = vec![
        QueryDecl { name: s("q"), description: Some(s("text")) },
        QueryDecl { name: s("page"), description: None },
    ];
    let (def, a) = artifacts(vec![d]);
    let args = &def.routes[0].arguments;
    assert_eq!(args[0].kind, ArgKind::Query);
    assert!(args[0].required);
    assert_eq!(args[1].kind, ArgKind::Query);
    assert!(!args[1].required);
    assert_eq!(args[1].inner_ty, "u32");
    let p = &a.documents[0].params;
    assert_eq!(p[0].description.as_deref(), Some("text"));
    assert_eq!(p[1].schema.as_deref(), Some("Option<u32>"));
}

#[test]
fn request_url_resolves_against_the_base() {
    let mut d = op("get_user", "/users/{id}", HttpMethod::Get);
    d.params = vec![param("id", "u64")];
    let (_, a) = artifacts(vec![d]);
    let url = zelus::client::request_url(&a.clients[0], &s("http://h.example/api/"), &vec![s("7")], &vec![]);
    assert_eq!(url.as_deref(), Some("http://h.example/api/users/7"));
    let bad = zelus::client::request_url(&a.clients[0], &s("not a url"), &vec![s("7")], &vec![]);
    assert_eq!(bad, None);
}

#[test]
fn request_target_encodes_path_and_query() {
    let mut d = op("get_file", "/files/{name}", HttpMethod::Get);
    d.params = vec![param("name", "String"), param("v", "Option<String>"), param("w", "Option<u8>")];
    d.query = vec![
        QueryDecl { name: s("v"), description: None },
        QueryDecl { name: s("w"), description: None },
    ];
    let (_, a) = artifacts(vec![d]);
    let plan = &a.clients[0];
    let t = request_target(plan, &vec![s("a b/c")], &vec![Some(s("x&y")), None]);
    assert_eq!(t, "/files/a%20b%2Fc?v=x%26y");
    let t = request_target(plan, &vec![s("plain")], &vec![None, None]);
    assert_eq!(t, "/files/plain");
}

#[test]
fn documentation_lines_become_summary_and_description() {
    let mut d = op("list", "/list", HttpMethod::Get);
    d.doc = vec![s("Lists."), s("   "), s("Every item."), s("Sorted.")];
    let (_, a) = artifacts(vec![d]);
    assert_eq!(a.documents[0].summary.as_deref(), Some("Lists."));
    assert_eq!(a.documents[0].description.as_deref(), Some("Every item.<br/>\nSorted."));
}

#[test]
fn shared_status_gets_distinct_response_keys() {
    let mut d = op("teapot", "/tea", HttpMethod::Get);
    d.errors = vec![inline("Cold", 418, "cold"), inline("Empty", 418, "empty")];
    d.success = SuccessType::Unit;
    let (_, a) = artifacts(vec![d]);
    let r = &a.documents[0].responses;
    assert_eq!((r[0].status, r[0].ordinal), (204, 0));
    assert_eq!((r[1].status, r[1].ordinal), (418, 0));
    assert_eq!((r[2].status, r[2].ordinal), (418, 1));
    assert_eq!(r[1].error_id.as_deref(), Some("cold"));
}

#[test]
fn authenticated_operation_gains_auth_entry_and_group() {
    let mut d = op("me", "/me", HttpMethod::Get);
    d.requires_auth = true;
    let (def, a) = artifacts(vec![d]);
    let tax = &def.routes[0].taxonomy;
    assert_eq!(tax.entries[0].key, "communication");
    assert_eq!(tax.entries[1].key, "auth/invalid");
    assert_eq!(tax.entries[1].status, 401);
    assert_eq!(group(&a, "with_auth").entries.len(), 1);
    assert_eq!(group(&a, "default").entries.len(), 1);
    assert!(group(&a, "without_auth").entries.is_empty());
    assert_eq!(tax.envelope(1), r#"{"error":{"id":"auth/invalid","msg":"Authentication is invalid"}}"#);
}

#[test]
fn model_violations_are_all_reported() {
    let a = op("same", "/a", HttpMethod::Get);
    let b = op("same", "/a", HttpMethod::Ws);
    let c = op("missing", "/c/{id}", HttpMethod::Get);
    match translate(config(), &auth_registry(), vec![a, b, c]) {
        Err(TranslateError::Invalid(v)) => {
            let kinds: Vec<(usize, ViolationKind)> = v.iter().map(|x| (x.operation, x.kind)).collect();
            assert_eq!(
                kinds,
                vec![
                    (1, ViolationKind::DuplicateOperationId),
                    (1, ViolationKind::DuplicateRoute),
                    (2, ViolationKind::PlaceholderMismatch),
                ]
            );
        }
        _ => panic!("expected violations"),
    }
}

#[test]
fn prefix_applies_unless_absolute() {
    let mut abs = op("health", "/health", HttpMethod::Get);
    abs.absolute = true;
    let rel = op("list", "/list", HttpMethod::Get);
    let cfg = ServiceConfig { prefix: s("/api"), tag: Some(s("items")) };
    let (def, a) = match translate(cfg, &auth_registry(), vec![abs, rel]) {
        Ok(r) => r,
        Err(_) => panic!("translation failed"),
    };
    assert_eq!(def.routes[0].path, "/health");
    assert_eq!(def.routes[1].path, "/api/list");
    assert_eq!(a.documents[1].tag.as_deref(), Some("items"));
}

#[test]
fn build_errors_are_reported_per_operation() {
    let bad_path = op("a", "no-slash", HttpMethod::Get);
    let good = op("b", "/b", HttpMethod::Get);
    let mut bad_type = op("c", "/c", HttpMethod::Get);
    bad_type.params = vec![param("x", "Option<u8")];
    match translate(config(), &auth_registry(), vec![bad_path, good, bad_type]) {
        Err(TranslateError::Build(e)) => {
            assert_eq!(e.len(), 2);
            assert_eq!(e[0].operation, 0);
            assert_eq!(e[0].kind, zelus::model::BuildErrorKind::PathWithoutSlash);
            assert_eq!(e[1].operation, 2);
            assert!(matches!(e[1].kind, zelus::model::BuildErrorKind::Classify(_)));
        }
        _ => panic!("expected build errors"),
    }
}

#[test]
fn websocket_client_is_not_implemented() {
    let d = op("live", "/live", HttpMethod::Ws);
    let (_, a) = artifacts(vec![d]);
    assert!(!a.clients[0].implemented);
    assert_eq!(a.clients[0].method, HttpMethod::Get);
    assert_eq!(a.documents[0].method, HttpMethod::Get);
}

#[test]
fn schema_table_lists_each_type_once() {
    let mut first = op("get_user", "/users/{id}", HttpMethod::Get);
    first.params = vec![param("id", "u64")];
    let mut second = op("put_user", "/users/{id}", HttpMethod::Put);
    second.params = vec![param("id", "u64"), param("body", "User")];
    let (_, a) = artifacts(vec![first, second]);
    let names = zelus::document::schema_names(&a.documents);
    assert_eq!(names, vec![s("u64"), s("User")]);
}
