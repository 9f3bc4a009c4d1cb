use zelus::responses::FrameworkJsonResponse;
use zelus::serializer::StringSerializer;
use zelus::taxonomy::{resolve_taxonomy, CategoryEntry, ErrorCategory, ErrorRef, ErrorSource};

#[test]
fn scalars_serialize_to_text() {
    assert_eq!(StringSerializer.serialize_u64(0).ok().flatten().as_deref(), Some("0"));
    assert_eq!(StringSerializer.serialize_u64(1234567890).ok().flatten().as_deref(), Some("1234567890"));
    assert_eq!(StringSerializer.serialize_u64(u64::MAX).ok().flatten(), Some(u64::MAX.to_string()));
    assert_eq!(StringSerializer.serialize_i64(-42).ok().flatten().as_deref(), Some("-42"));
    assert_eq!(StringSerializer.serialize_i64(i64::MIN).ok().flatten(), Some(i64::MIN.to_string()));
    assert_eq!(StringSerializer.serialize_bool(true).ok().flatten().as_deref(), Some("true"));
    assert_eq!(StringSerializer.serialize_str("a b").ok().flatten().as_deref(), Some("a b"));
    assert_eq!(StringSerializer.serialize_none().ok(), Some(None));
    assert_eq!(StringSerializer.serialize_unit().ok(), Some(None));
    let e = StringSerializer.serialize_compound("a map").err().expect("refused");
    assert_eq!(e.message(), "cannot serialize a map into a string");
}

#[test]
fn responses_carry_status_and_envelope() {
    let ok = FrameworkJsonResponse::success(false, "{\"id\":1}".to_string());
    assert_eq!((ok.status, ok.body.as_str()), (200, "{\"id\":1}"));
    let none = FrameworkJsonResponse::success(true, "ignored".to_string());
    assert_eq!((none.status, none.body.as_str()), (204, ""));
    let cats = vec![ErrorCategory {
        name: "store".to_string(),
        entries: vec![CategoryEntry { name: "full".to_string(), status: 507, message: "Store \"full\"".to_string() }],
    }];
    let refs = vec![ErrorRef {
        source: ErrorSource::Shared { category: "store".to_string(), entry: "full".to_string() },
        attributes: vec![],
    }];
    let tax = resolve_taxonomy(&cats, refs, false).ok().expect("resolved");
    let r = FrameworkJsonResponse::error(&tax, 1);
    assert_eq!(r.status, 507);
    assert_eq!(r.body, r#"{"error":{"id":"store/full","msg":"Store \"full\""}}"#);
}

#[test]
fn inline_names_become_snake_case_keys() {
    let refs = vec![ErrorRef {
        source: ErrorSource::Inline { name: "TooManyRequests".to_string(), status: 429, message: "slow down".to_string() },
        attributes: vec![],
    }];
    let tax = resolve_taxonomy(&vec![], refs, false).ok().expect("resolved");
    assert_eq!(tax.entries[1].key, "too_many_requests");
    assert_eq!(tax.entry_for_id(&"too_many_requests".to_string()), Some(1));
    assert_eq!(tax.entry_for_id(&"communication".to_string()), None);
}
