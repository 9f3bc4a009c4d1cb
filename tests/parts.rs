use zelus::arguments::{classify_all, type_shape, ArgKind, ClassifyErrorKind, QueryDecl, RawParam};
use zelus::method::HttpMethod;
use zelus::taxonomy::{
    resolve_taxonomy, CategoryEntry, ErrorAttribute, ErrorCategory, ErrorRef, ErrorSource,
    TaxonomyErrorKind,
};
use zelus::validate::placeholders;

fn s(x: &str) -> String {
    x.to_string()
}

fn param(name: &str, ty: &str) -> RawParam {
    RawParam { name: s(name), ty: s(ty), special: false, no_schema: false }
}

fn registry() -> Vec<ErrorCategory> {
    vec![
        ErrorCategory {
            name: s("category"),
            entries: vec![
                CategoryEntry { name: s("error1"), status: 418, message: s("first") },
                CategoryEntry { name: s("error2"), status: 418, message: s("second") },
            ],
        },
        ErrorCategory {
            name: s("auth"),
            entries: vec![CategoryEntry { name: s("invalid"), status: 401, message: s("bad") }],
        },
    ]
}

fn shared(category: &str, entry: &str, attributes: Vec<ErrorAttribute>) -> ErrorRef {
    ErrorRef { source: ErrorSource::Shared { category: s(category), entry: s(entry) }, attributes }
}

fn attr(a: &str, c: Option<&str>) -> ErrorAttribute {
    ErrorAttribute { attribute: s(a), condition: c.map(s) }
}

#[test]
fn method_names_in_any_case() {
    assert_eq!(HttpMethod::from_name("get"), Some(HttpMethod::Get));
    assert_eq!(HttpMethod::from_name("DELETE"), Some(HttpMethod::Delete));
    assert_eq!(HttpMethod::from_name("Ws"), Some(HttpMethod::Ws));
    assert_eq!(HttpMethod::from_name("fetch"), None);
    assert_eq!(HttpMethod::Ws.wire_name(), "GET");
    assert_eq!(HttpMethod::Options.wire_name(), "OPTIONS");
}

#[test]
fn optional_types_unwrap_with_nesting() {
    assert_eq!(type_shape(&s("Option<Vec<Option<u8>>>")), Ok(Some(s("Vec<Option<u8>>"))));
    assert_eq!(type_shape(&s("u8")), Ok(None));
    assert_eq!(type_shape(&s("OptionLike<u8>")), Ok(None));
    assert_eq!(type_shape(&s("Option<u8>>")), Err(()));
    assert_eq!(type_shape(&s("Option<A><B>")), Err(()));
    assert_eq!(type_shape(&s("Option")), Err(()));
}

#[test]
fn classification_follows_precedence() {
    let mut special = param("id", "Session");
    special.special = true;
    let params = vec![
        special,
        param("id", "u64"),
        param("q", "String"),
        param("agent", "Option<TypedHeader<UserAgent>>"),
        param("body", "Item"),
    ];
    let query = vec![QueryDecl { name: s("q"), description: None }];
    let args = classify_all(&params, &s("/x/{id}"), &query).expect("classified");
    let kinds: Vec<ArgKind> = args.iter().map(|a| a.kind).collect();
    assert_eq!(
        kinds,
        vec![ArgKind::Special, ArgKind::Path, ArgKind::Query, ArgKind::Header, ArgKind::Payload]
    );
    assert!(!args[3].required);
    assert_eq!(args[3].inner_ty, "TypedHeader<UserAgent>");
}

#[test]
fn stream_beside_payload_is_refused() {
    let params = vec![param("a", "DataStream"), param("b", "Item")];
    let e = classify_all(&params, &s("/x"), &vec![]).err().expect("refused");
    assert_eq!(e.kind, ClassifyErrorKind::StreamWithPayload);
    assert_eq!(e.param, 0);
    let single = classify_all(&vec![param("a", "DataStream")], &s("/x"), &vec![]);
    assert!(single.is_ok());
    let bad = classify_all(&vec![param("a", "u8"), param("b", "Option<")], &s("/x"), &vec![]);
    let e = bad.err().expect("refused");
    assert_eq!(e.kind, ClassifyErrorKind::MalformedOptional);
    assert_eq!(e.param, 1);
}

#[test]
fn placeholders_are_extracted() {
    assert_eq!(placeholders(&s("/a/{x}/b/{y}")), vec![s("x"), s("y")]);
    assert_eq!(placeholders(&s("/a/{{x}")), vec![s("x")]);
    assert!(placeholders(&s("/a/{x")).is_empty());
}

#[test]
fn shared_entries_resolve_with_keys() {
    let t = resolve_taxonomy(&registry(), vec![shared("category", "error1", vec![]), shared("category", "error2", vec![])], false)
        .ok()
        .expect("resolved");
    let keys: Vec<&str> = t.entries.iter().map(|e| e.key.as_str()).collect();
    assert_eq!(keys, vec!["communication", "category/error1", "category/error2"]);
    assert_eq!(t.entries[1].status, 418);
    assert_eq!(t.entries[2].status, 418);
}

fn failure(refs: Vec<ErrorRef>, auth: bool) -> (TaxonomyErrorKind, Option<usize>) {
    match resolve_taxonomy(&registry(), refs, auth) {
        Err(e) => (e.kind, e.reference),
        Ok(_) => panic!("expected a failure"),
    }
}

#[test]
fn taxonomy_failures_name_the_reference() {
    assert_eq!(failure(vec![shared("nope", "x", vec![])], false), (TaxonomyErrorKind::UnknownCategory, Some(0)));
    assert_eq!(
        failure(vec![shared("category", "error1", vec![]), shared("category", "x", vec![])], false),
        (TaxonomyErrorKind::UnknownEntry, Some(1))
    );
    let inline = ErrorRef {
        source: ErrorSource::Inline { name: s("Odd"), status: 42, message: s("odd") },
        attributes: vec![],
    };
    assert_eq!(failure(vec![inline], false), (TaxonomyErrorKind::InvalidStatus, Some(0)));
    assert_eq!(
        failure(vec![shared("category", "error1", vec![]), shared("category", "error1", vec![])], false),
        (TaxonomyErrorKind::DuplicateKey, Some(1))
    );
    let comm = ErrorRef {
        source: ErrorSource::Inline { name: s("Communication"), status: 400, message: s("x") },
        attributes: vec![],
    };
    assert_eq!(failure(vec![comm], false), (TaxonomyErrorKind::DuplicateKey, Some(0)));
    let no_auth_registry = vec![];
    match resolve_taxonomy(&no_auth_registry, vec![], true) {
        Err(e) => assert_eq!((e.kind, e.reference), (TaxonomyErrorKind::UnknownCategory, None)),
        Ok(_) => panic!("expected a failure"),
    }
}

#[test]
fn attribute_rules_are_checked() {
    let io_default = |c: Option<&str>| attr("io", c);
    assert_eq!(
        failure(
            vec![shared("category", "error1", vec![io_default(None)]), shared("category", "error2", vec![io_default(None)])],
            false
        ),
        (TaxonomyErrorKind::DuplicateDefault, Some(1))
    );
    assert_eq!(
        failure(vec![shared("category", "error1", vec![io_default(Some("NotFound"))])], false),
        (TaxonomyErrorKind::MappingWithoutDefault, Some(0))
    );
    assert_eq!(
        failure(
            vec![
                shared("category", "error1", vec![io_default(None), io_default(Some("NotFound"))]),
                shared("category", "error2", vec![io_default(Some("NotFound"))]),
            ],
            false
        ),
        (TaxonomyErrorKind::DuplicateMapping, Some(1))
    );
    assert_eq!(
        failure(vec![shared("category", "error1", vec![attr("disk", None)])], false),
        (TaxonomyErrorKind::UnknownAttribute, Some(0))
    );
    assert_eq!(
        failure(
            vec![shared("category", "error1", vec![attr("sql", None), attr("sql", Some("deadlock"))])],
            false
        ),
        (TaxonomyErrorKind::UnknownCondition, Some(0))
    );
}

#[test]
fn conditions_map_to_their_entries() {
    let t = resolve_taxonomy(
        &registry(),
        vec![
            shared("category", "error1", vec![attr("io", None)]),
            shared("category", "error2", vec![attr("io", Some("NotFound"))]),
        ],
        true,
    )
    .ok()
    .expect("resolved");
    assert_eq!(t.mapped_entry(&s("io"), &s("NotFound")), Some(3));
    assert_eq!(t.mapped_entry(&s("io"), &s("Other")), Some(2));
    assert_eq!(t.mapped_entry(&s("sql"), &s("unique")), None);
}
