use zelus::method::HttpMethod;
use zelus::model::SuccessType;
use zelus::surface::{
    declare, parse_category, parse_errors, parse_param, parse_params, parse_route, parse_service,
    ParseErrorKind,
};
use zelus::lexer::{tokenize, Token};
use zelus::taxonomy::ErrorSource;

#[test]
fn tokens_of_a_route_declaration() {
    let t = tokenize("!\"/a\", method = GET").expect("tokens");
    assert_eq!(t.len(), 6);
    assert!(matches!(&t[0], Token::Punct(p) if p == "!"));
    assert!(matches!(&t[1], Token::Str(s) if s == "/a"));
    assert!(matches!(&t[3], Token::Ident(s) if s == "method"));
    assert!(tokenize("\"open").is_none());
}

#[test]
fn full_route_declaration_is_read() {
    let r = parse_route("\"/users/{id}\", method = put, query = [page \"Page number\", size], routes = [admin, ops,], raw")
        .ok()
        .expect("parsed");
    assert!(!r.absolute);
    assert_eq!(r.path, "/users/{id}");
    assert_eq!(r.method, HttpMethod::Put);
    assert_eq!(r.query.len(), 2);
    assert_eq!(r.query[0].name, "page");
    assert_eq!(r.query[0].description.as_deref(), Some("Page number"));
    assert_eq!(r.query[1].name, "size");
    assert_eq!(r.query[1].description, None);
    assert_eq!(r.groups, vec!["admin".to_string(), "ops".to_string()]);
    assert!(r.raw);
    assert!(!r.no_auth);
}

#[test]
fn minimal_route_declaration_defaults() {
    let r = parse_route("!\"/health\"").ok().expect("parsed");
    assert!(r.absolute);
    assert_eq!(r.method, HttpMethod::Get);
    assert!(r.query.is_empty() && r.groups.is_empty());
    let d = declare("health".to_string(), r, vec![], vec![], SuccessType::Unit, vec![]);
    assert!(d.requires_auth);
    let open = parse_route("\"/x\", no_auth").ok().expect("parsed");
    let d = declare("x".to_string(), open, vec![], vec![], SuccessType::Unit, vec![]);
    assert!(!d.requires_auth);
}

fn error_of(text: &str) -> (ParseErrorKind, usize) {
    match parse_route(text) {
        Err(e) => (e.kind, e.token),
        Ok(_) => panic!("expected a parse error"),
    }
}

#[test]
fn malformed_route_declarations_are_refused() {
    assert_eq!(error_of("method = GET"), (ParseErrorKind::ExpectedPath, 0));
    assert_eq!(error_of("\"/a\" raw"), (ParseErrorKind::ExpectedComma, 1));
    assert_eq!(error_of("\"/a\", method = FETCH"), (ParseErrorKind::UnknownMethod, 4));
    assert_eq!(error_of("\"/a\", method GET"), (ParseErrorKind::ExpectedEquals, 3));
    assert_eq!(error_of("\"/a\", colour = red"), (ParseErrorKind::UnknownOption, 2));
    assert_eq!(error_of("\"/a\", = x"), (ParseErrorKind::ExpectedOption, 2));
    assert_eq!(error_of("\"/a\", query = page"), (ParseErrorKind::ExpectedList, 4));
    assert_eq!(error_of("\"/a\", routes = [\"x\"]"), (ParseErrorKind::ExpectedName, 5));
    assert_eq!(error_of("\"/a\", raw no_auth"), (ParseErrorKind::ExpectedComma, 3));
    assert_eq!(error_of("\"/a"), (ParseErrorKind::UnterminatedString, 0));
}

#[test]
fn error_declarations_are_read() {
    let refs = parse_errors("category(error1 [io:*] error2 [io:NotFound]), { Teapot \"I am a teapot\" 418 [sql:unique], Gone \"gone\" 410 }")
        .ok()
        .expect("parsed");
    assert_eq!(refs.len(), 4);
    match &refs[0].source {
        ErrorSource::Shared { category, entry } => assert_eq!((category.as_str(), entry.as_str()), ("category", "error1")),
        _ => panic!("expected a shared entry"),
    }
    assert_eq!(refs[0].attributes.len(), 1);
    assert_eq!(refs[0].attributes[0].attribute, "io");
    assert_eq!(refs[0].attributes[0].condition, None);
    assert_eq!(refs[1].attributes[0].condition.as_deref(), Some("NotFound"));
    match &refs[2].source {
        ErrorSource::Inline { name, status, message } => {
            assert_eq!((name.as_str(), *status, message.as_str()), ("Teapot", 418, "I am a teapot"))
        }
        _ => panic!("expected an inline entry"),
    }
    assert_eq!(refs[2].attributes[0].condition.as_deref(), Some("unique"));
    assert!(refs[3].attributes.is_empty());
    assert!(parse_errors("").ok().expect("parsed").is_empty());
}

#[test]
fn malformed_error_declarations_are_refused() {
    let kind = |text: &str| parse_errors(text).err().map(|e| (e.kind, e.token));
    assert_eq!(kind("category error1"), Some((ParseErrorKind::ExpectedList, 1)));
    assert_eq!(kind("{ Teapot 418 }"), Some((ParseErrorKind::ExpectedMessage, 2)));
    assert_eq!(kind("{ Teapot \"tea\" TEAPOT }"), Some((ParseErrorKind::ExpectedStatus, 3)));
    assert_eq!(kind("category(error1 [io *])"), Some((ParseErrorKind::ExpectedColon, 5)));
    assert_eq!(kind("category(error1"), Some((ParseErrorKind::ExpectedList, 3)));
}

#[test]
fn category_definitions_are_read() {
    let c = parse_category("category { error1 (\"first\" 418), error2 (\"second\" 404), }").ok().expect("parsed");
    assert_eq!(c.name, "category");
    assert_eq!(c.entries.len(), 2);
    assert_eq!((c.entries[1].name.as_str(), c.entries[1].status, c.entries[1].message.as_str()), ("error2", 404, "second"));
    let e = parse_category("auth { invalid (\"bad\" 401) } extra").err().expect("refused");
    assert_eq!((e.kind, e.token), (ParseErrorKind::ExpectedComma, 8));
}

#[test]
fn parameter_declarations_are_read() {
    let p = parse_param("#[special] #[no_schema] mut session: Option<Vec<u8>>").ok().expect("parsed");
    assert_eq!(p.name, "session");
    assert_eq!(p.ty, "Option<Vec<u8>>");
    assert!(p.special && p.no_schema);
    let q = parse_param("id : u64").ok().expect("parsed");
    assert_eq!((q.name.as_str(), q.ty.as_str(), q.special, q.no_schema), ("id", "u64", false, false));
    let d = parse_param("x: dyn Send").ok().expect("parsed");
    assert_eq!(d.ty, "dyn Send");
    let e = parse_param("#[hidden] x: u8").err().expect("refused");
    assert_eq!((e.kind, e.token), (ParseErrorKind::UnknownMarker, 2));
    let e = parse_param("x u8").err().expect("refused");
    assert_eq!((e.kind, e.token), (ParseErrorKind::ExpectedColon, 1));
    let e = parse_param("x:").err().expect("refused");
    assert_eq!((e.kind, e.token), (ParseErrorKind::ExpectedType, 2));
}

#[test]
fn service_arguments_are_read() {
    let a = parse_service("path = \"/api\", tag = \"users\", no_sdk").ok().expect("parsed");
    assert_eq!(a.prefix, "/api");
    assert_eq!(a.tag.as_deref(), Some("users"));
    assert!(a.no_sdk);
    let c = a.config();
    assert_eq!(c.prefix, "/api");
    let empty = parse_service("").ok().expect("parsed");
    assert_eq!(empty.prefix, "");
    assert!(empty.tag.is_none() && !empty.no_sdk);
    let e = parse_service("path = \"/a\", colour = \"red\"").err().expect("refused");
    assert_eq!((e.kind, e.token), (ParseErrorKind::UnknownOption, 4));
    let e = parse_service("path = api").err().expect("refused");
    assert_eq!((e.kind, e.token), (ParseErrorKind::ExpectedString, 2));
}

#[test]
fn parameter_lists_split_outside_angle_brackets() {
    let ps = parse_params("&self, id: u64, map: HashMap<String, Vec<u8>>, #[special] s: Session,").ok().expect("parsed");
    let names: Vec<&str> = ps.iter().map(|p| p.name.as_str()).collect();
    assert_eq!(names, vec!["id", "map", "s"]);
    assert_eq!(ps[1].ty, "HashMap<String,Vec<u8>>");
    assert!(ps[2].special);
    assert!(parse_params("&self").ok().expect("parsed").is_empty());
    let e = parse_params("id: u64").err().expect("refused");
    assert_eq!((e.kind, e.token), (ParseErrorKind::ExpectedReceiver, 0));
    let e = parse_params("&self id: u64").err().expect("refused");
    assert_eq!((e.kind, e.token), (ParseErrorKind::ExpectedComma, 2));
    let e = parse_params("&self, id u64").err().expect("refused");
    assert_eq!((e.kind, e.token), (ParseErrorKind::ExpectedColon, 4));
}
