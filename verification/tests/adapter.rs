use ubl::adapter::{
    check_policy, default_method, default_timeout, pin_response, request_method, verify_pinned,
    AdapterError, AdapterPolicy, AdapterResponse, HttpMethod, HttpParams, PinnedBlob,
};

fn params(url: &str) -> HttpParams {
    HttpParams {
        url: url.into(),
        method: "GET".into(),
        headers: Vec::new(),
        body: None,
        timeout_ms: 5000,
    }
}

#[test]
fn policy_allows_wildcard() {
    let policy = AdapterPolicy {
        allowed_urls: vec!["*".into()],
        ..Default::default()
    };
    assert!(check_policy(&params("https://anything.com/path"), &policy).is_ok());
}

#[test]
fn policy_allows_prefix_glob() {
    let policy = AdapterPolicy {
        allowed_urls: vec!["https://api.example.com/*".into()],
        ..Default::default()
    };
    assert!(check_policy(&params("https://api.example.com/v1/data"), &policy).is_ok());
    assert!(check_policy(&params("https://evil.com/data"), &policy).is_err());
}

#[test]
fn policy_allows_exact_match() {
    let policy = AdapterPolicy {
        allowed_urls: vec!["https://api.example.com/v1/data".into()],
        ..Default::default()
    };
    assert!(check_policy(&params("https://api.example.com/v1/data"), &policy).is_ok());
    assert!(check_policy(&params("https://api.example.com/v1/other"), &policy).is_err());
}

#[test]
fn policy_empty_allows_all() {
    let policy = AdapterPolicy::default();
    assert!(check_policy(&params("https://anything.com"), &policy).is_ok());
}

#[test]
fn policy_timeout_cap() {
    let policy = AdapterPolicy {
        max_timeout_ms: 3000,
        ..Default::default()
    };
    let mut p = params("https://example.com");
    p.timeout_ms = 5000;
    assert!(check_policy(&p, &policy).is_err());
    p.timeout_ms = 2000;
    assert!(check_policy(&p, &policy).is_ok());
}

#[test]
fn verify_pinned_ok() {
    let pinned = PinnedBlob::from_bytes(b"test data", 200, Vec::new());
    let resp = AdapterResponse {
        kind: "http".into(),
        params_cid: "b3:test".into(),
        pinned,
    };
    assert!(verify_pinned(&resp).is_ok());
}

#[test]
fn verify_pinned_tampered() {
    let mut pinned = PinnedBlob::from_bytes(b"test data", 200, Vec::new());
    pinned.data = "tampered".into();
    let resp = AdapterResponse {
        kind: "http".into(),
        params_cid: "b3:test".into(),
        pinned,
    };
    assert!(verify_pinned(&resp).is_err());
}

#[test]
fn pinned_blob_verify() {
    let blob = PinnedBlob::from_bytes(b"hello world", 200, Vec::new());
    assert!(blob.verify());
    assert_eq!(blob.status, 200);
}

#[test]
fn pinned_blob_tamper_detected() {
    let mut blob = PinnedBlob::from_bytes(b"hello world", 200, Vec::new());
    blob.data = "tampered".into();
    assert!(!blob.verify());
}

#[test]
fn http_params_cid_deterministic() {
    let p1 = HttpParams {
        url: "https://api.example.com/data".into(),
        method: "GET".into(),
        headers: Vec::new(),
        body: None,
        timeout_ms: 5000,
    };
    let p2 = p1.clone();
    assert_eq!(p1.params_cid(), p2.params_cid());
}

#[test]
fn http_params_cid_changes_with_url() {
    let p1 = HttpParams {
        url: "https://a.com".into(),
        method: "GET".into(),
        headers: Vec::new(),
        body: None,
        timeout_ms: 5000,
    };
    let p2 = HttpParams {
        url: "https://b.com".into(),
        ..p1.clone()
    };
    assert_ne!(p1.params_cid(), p2.params_cid());
}

#[test]
fn params_cid_is_cid_of_struct_json() {
    let p = params("https://a.com");
    let text = r#"{"url":"https://a.com","method":"GET","headers":{},"body":null,"timeout_ms":5000}"#;
    assert_eq!(p.params_cid(), ubl::cid::cid_b3(text.as_bytes()));
}

#[test]
fn defaults_of_http_params() {
    assert_eq!(default_method(), "GET");
    assert_eq!(default_timeout(), 10_000);
}

#[test]
fn policy_refusals_carry_their_messages() {
    let policy = AdapterPolicy {
        allowed_urls: vec!["https://ok.com/*".into()],
        max_timeout_ms: 100,
        max_response_bytes: 0,
    };
    match check_policy(&params("https://evil.com"), &policy) {
        Err(AdapterError::PolicyDeny { adapter }) => {
            assert_eq!(adapter, "http: URL 'https://evil.com' not in allowlist")
        }
        other => panic!("unexpected {:?}", other),
    }
    match check_policy(&params("https://ok.com/x"), &policy) {
        Err(e @ AdapterError::Timeout { .. }) => {
            assert_eq!(e.message(), "timeout: adapter 'http' exceeded 100ms")
        }
        other => panic!("unexpected {:?}", other),
    }
}

#[test]
fn cid_mismatch_names_both_cids() {
    let mut pinned = PinnedBlob::from_bytes(b"abc", 200, Vec::new());
    let claimed = pinned.cid.clone();
    pinned.data = "abd".into();
    let resp = AdapterResponse { kind: "http".into(), params_cid: "b3:x".into(), pinned };
    match verify_pinned(&resp) {
        Err(AdapterError::CidMismatch { expected, actual }) => {
            assert_eq!(expected, claimed);
            assert_eq!(actual, ubl::cid::cid_b3(b"abd"));
        }
        other => panic!("unexpected {:?}", other),
    }
}

#[test]
fn pinned_blob_from_invalid_utf8_does_not_verify() {
    let blob = PinnedBlob::from_bytes(&[0xff, 0xfe], 200, Vec::new());
    assert_eq!(blob.data, "\u{fffd}\u{fffd}");
    assert!(!blob.verify());
}

#[test]
fn methods_are_matched_uppercased() {
    let mut p = params("https://x");
    p.method = "get".into();
    assert_eq!(request_method(&p).unwrap(), HttpMethod::Get);
    p.method = "Delete".into();
    assert_eq!(request_method(&p).unwrap(), HttpMethod::Delete);
    // Unicode uppercase: the long s becomes S
    p.method = "po\u{17f}t".into();
    assert_eq!(request_method(&p).unwrap(), HttpMethod::Post);
    p.method = "trace".into();
    match request_method(&p) {
        Err(e) => assert_eq!(e.message(), "http: unsupported method: TRACE"),
        Ok(m) => panic!("unexpected {m:?}"),
    }
}

#[test]
fn responses_are_pinned_within_the_size_limit() {
    let p = params("https://api.example.com/v1");
    let policy = AdapterPolicy { max_response_bytes: 4, ..Default::default() };
    match pin_response(&p, &policy, 200, &Vec::new(), b"hello") {
        Err(e) => assert_eq!(e.message(), "http: response too large: 5 bytes (max 4)"),
        Ok(_) => panic!("five bytes are over the limit"),
    }
    let headers = vec![
        ("x-b".to_string(), "2".to_string()),
        ("content-type".to_string(), "text/plain".to_string()),
        ("x-b".to_string(), "3".to_string()),
    ];
    let r = pin_response(&p, &AdapterPolicy::default(), 201, &headers, b"hello").unwrap();
    assert_eq!(r.kind, "http");
    assert_eq!(r.params_cid, p.params_cid());
    assert_eq!(r.pinned.cid, ubl::cid::cid_b3(b"hello"));
    assert_eq!(r.pinned.data, "hello");
    assert_eq!(r.pinned.status, 201);
    assert_eq!(
        r.pinned.headers,
        vec![
            ("content-type".to_string(), "text/plain".to_string()),
            ("x-b".to_string(), "3".to_string()),
        ]
    );
}
