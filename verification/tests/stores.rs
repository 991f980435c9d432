use ubl::api_error::{u64_text, ApiErrorBody, AppError};
use ubl::audit::{generate_report, generate_report_at};
use ubl::cid::cid_b3;
use ubl::digest::{rfc3339_or_epoch, utc_now_rfc3339};
use ubl::idempotency::{IdempCheck, IdempotencyStore};
use ubl::json::{obj_get, obj_insert, to_bytes, JsonMap, JsonValue};
use ubl::keyring_store::KeyRingStore;
use ubl::nrf_canon::{normalize_nrf, Nrf1Canon};
use ubl::receipt::KeyRing;
use ubl::scope::Scope;

fn s(v: &str) -> JsonValue {
    JsonValue::Str(v.to_string())
}

fn map(pairs: Vec<(&str, JsonValue)>) -> JsonMap {
    let mut m: JsonMap = Vec::new();
    for (k, v) in pairs {
        obj_insert(&mut m, k.to_string(), v);
    }
    m
}

fn obj(pairs: Vec<(&str, JsonValue)>) -> JsonValue {
    JsonValue::Object(map(pairs))
}

fn get<'a>(v: &'a JsonValue, key: &str) -> Option<&'a JsonValue> {
    match v {
        JsonValue::Object(o) => obj_get(o, key),
        _ => None,
    }
}

fn count(counts: &[(String, usize)], key: &str) -> Option<usize> {
    counts.iter().find(|(k, _)| k == key).map(|(_, n)| *n)
}

// ── idempotency ────────────────────────────────────────────────────

fn h(s: &str) -> [u8; 32] {
    IdempotencyStore::hash_body(s.as_bytes())
}

#[test]
fn new_key_returns_new() {
    let mut store = IdempotencyStore::new(100, 60);
    assert_eq!(store.check("default:default", "POST", "/v1/execute", "key1", h("hello")), IdempCheck::New);
}

#[test]
fn same_key_same_body_returns_replay() {
    let mut store = IdempotencyStore::new(100, 60);
    store.check("default:default", "POST", "/v1/execute", "key1", h("hello"));
    assert_eq!(
        store.check("default:default", "POST", "/v1/execute", "key1", h("hello")),
        IdempCheck::Replay
    );
}

#[test]
fn same_key_different_body_returns_conflict() {
    let mut store = IdempotencyStore::new(100, 60);
    store.check("default:default", "POST", "/v1/execute", "key1", h("hello"));
    assert_eq!(
        store.check("default:default", "POST", "/v1/execute", "key1", h("world")),
        IdempCheck::KeyReusedDifferentPayload
    );
}

#[test]
fn different_scopes_are_independent() {
    let mut store = IdempotencyStore::new(100, 60);
    store.check("app1:tenant1", "POST", "/v1/execute", "key1", h("hello"));
    assert_eq!(store.check("app2:tenant2", "POST", "/v1/execute", "key1", h("hello")), IdempCheck::New);
}

#[test]
fn lru_eviction_is_deterministic() {
    let mut store = IdempotencyStore::new(2, 60);
    assert_eq!(store.check("a:t", "POST", "/x", "k1", h("a")), IdempCheck::New);
    assert_eq!(store.check("a:t", "POST", "/x", "k2", h("b")), IdempCheck::New);
    assert_eq!(store.check("a:t", "POST", "/x", "k1", h("a")), IdempCheck::Replay);
    assert_eq!(store.check("a:t", "POST", "/x", "k3", h("c")), IdempCheck::New);
    assert_eq!(store.check("a:t", "POST", "/x", "k1", h("a")), IdempCheck::Replay);
    assert_eq!(store.check("a:t", "POST", "/x", "k2", h("b")), IdempCheck::New);
}

#[test]
fn ttl_expiry_at_given_times() {
    // a TTL of one second; the clock in nanoseconds
    let mut store = IdempotencyStore::new(100, 1);
    assert_eq!(store.check_at("s|POST|/|k1", h("hello"), 10), IdempCheck::New);
    assert_eq!(store.check_at("s|POST|/|k1", h("hello"), 500_000_000), IdempCheck::Replay);
    assert_eq!(store.check_at("s|POST|/|k1", h("hello"), 1_000_000_010), IdempCheck::New);
}

#[test]
fn conflict_does_not_replace_the_recorded_body() {
    let mut store = IdempotencyStore::new(100, 60);
    store.record("s", "POST", "/", "k", h("first"));
    assert_eq!(store.check("s", "POST", "/", "k", h("second")), IdempCheck::KeyReusedDifferentPayload);
    assert_eq!(store.check("s", "POST", "/", "k", h("first")), IdempCheck::Replay);
}

#[test]
fn conflict_then_replay_then_expiry_at_given_times() {
    let mut store = IdempotencyStore::new(100, 1);
    assert_eq!(store.check_at("s|POST|/|k", h("first"), 0), IdempCheck::New);
    assert_eq!(store.check_at("s|POST|/|k", h("second"), 400_000_000), IdempCheck::KeyReusedDifferentPayload);
    assert_eq!(store.check_at("s|POST|/|k", h("first"), 999_999_999), IdempCheck::Replay);
    assert_eq!(store.check_at("s|POST|/|k", h("second"), 1_000_000_000), IdempCheck::New);
}

#[test]
fn zero_capacity_remembers_nothing() {
    let mut store = IdempotencyStore::new(0, 60);
    assert_eq!(store.check("s", "POST", "/", "k", h("a")), IdempCheck::New);
    assert_eq!(store.check("s", "POST", "/", "k", h("a")), IdempCheck::New);
}

#[test]
fn hash_body_is_sha256() {
    let expected: [u8; 32] = [
        0x2c, 0xf2, 0x4d, 0xba, 0x5f, 0xb0, 0xa3, 0x0e, 0x26, 0xe8, 0x3b, 0x2a, 0xc5, 0xb9, 0xe2, 0x9e,
        0x1b, 0x16, 0x1e, 0x5c, 0x1f, 0xa7, 0x42, 0x5e, 0x73, 0x04, 0x33, 0x62, 0x93, 0x8b, 0x98, 0x24,
    ];
    assert_eq!(h("hello"), expected);
}

// ── key rings ──────────────────────────────────────────────────────

fn make_keyring(kid: &str) -> KeyRing {
    let mut kr = KeyRing::dev();
    kr.active_kid = kid.to_string();
    kr
}

#[test]
fn global_fallback() {
    let store = KeyRingStore::new(make_keyring("global#k1"));
    let kr = store.resolve("any", "any");
    assert_eq!(kr.active_kid, "global#k1");
}

#[test]
fn app_level_override() {
    let mut store = KeyRingStore::new(make_keyring("global#k1"));
    store.set_app("ubl", make_keyring("ubl#k1"));
    assert_eq!(store.resolve("ubl", "any").active_kid, "ubl#k1");
    assert_eq!(store.resolve("other", "any").active_kid, "global#k1");
}

#[test]
fn scoped_override() {
    let mut store = KeyRingStore::new(make_keyring("global#k1"));
    store.set_app("ubl", make_keyring("ubl#k1"));
    store.set_scoped("ubl", "acme", make_keyring("ubl:acme#k1"));
    assert_eq!(store.resolve("ubl", "acme").active_kid, "ubl:acme#k1");
    assert_eq!(store.resolve("ubl", "beta").active_kid, "ubl#k1");
    assert_eq!(store.resolve("other", "acme").active_kid, "global#k1");
}

#[test]
fn resolve_for_scope() {
    let mut store = KeyRingStore::new(make_keyring("global#k1"));
    store.set_app("ubl", make_keyring("ubl#k1"));
    let scope = Scope::new("ubl", "acme");
    assert_eq!(store.resolve_for_scope(&scope).active_kid, "ubl#k1");
}

#[test]
fn set_app_twice_keeps_the_last() {
    let mut store = KeyRingStore::dev();
    store.set_app("ubl", make_keyring("ubl#k1"));
    store.set_app("ubl", make_keyring("ubl#k2"));
    assert_eq!(store.resolve("ubl", "x").active_kid, "ubl#k2");
    assert_eq!(store.app_keyrings.len(), 1);
    assert_eq!(store.resolve("other", "x").active_kid, "did:dev#k1");
}

// ── audit ──────────────────────────────────────────────────────────

fn sample_chain() -> JsonMap {
    let body = obj(vec![("type", s("ubl/wa")), ("rho_cid", s("b3:abc"))]);
    let body_cid = cid_b3(&to_bytes(&body));
    let wa = obj(vec![
        ("t", s("ubl/wa")),
        ("parents", JsonValue::Array(vec![])),
        ("body", body),
        ("body_cid", s(&body_cid)),
        ("sig", obj(vec![("alg", s("EdDSA")), ("kid", s("did:dev#k1")), ("sig", s("abc"))])),
        ("observability", obj(vec![("ghost", JsonValue::Bool(false)), ("phase", s("wa:write-ahead"))])),
    ]);
    let wf_body = obj(vec![
        ("type", s("ubl/wf")),
        ("decision", s("ALLOW")),
        ("dimension_stack", JsonValue::Array(vec![s("parse"), s("policy"), s("render")])),
    ]);
    let wf_body_cid = cid_b3(&to_bytes(&wf_body));
    let wf = obj(vec![
        ("t", s("ubl/wf")),
        ("parents", JsonValue::Array(vec![s(&body_cid)])),
        ("body", wf_body),
        ("body_cid", s(&wf_body_cid)),
        ("sig", obj(vec![("alg", s("EdDSA")), ("kid", s("did:dev#k1")), ("sig", s("def"))])),
        ("observability", obj(vec![("ghost", JsonValue::Bool(false)), ("phase", s("wf:write-final"))])),
    ]);
    let mut chain: JsonMap = Vec::new();
    obj_insert(&mut chain, body_cid, wa);
    obj_insert(&mut chain, wf_body_cid, wf);
    chain
}

#[test]
fn report_summary() {
    let report = generate_report(&sample_chain());
    assert_eq!(report.summary.total_receipts, 2);
    assert_eq!(report.summary.signed_count, 2);
    assert_eq!(report.summary.unsigned_count, 0);
    assert_eq!(report.summary.ghost_count, 0);
}

#[test]
fn report_by_type() {
    let report = generate_report(&sample_chain());
    assert_eq!(count(&report.by_type, "ubl/wa"), Some(1));
    assert_eq!(count(&report.by_type, "ubl/wf"), Some(1));
}

#[test]
fn report_by_decision() {
    let report = generate_report(&sample_chain());
    assert_eq!(count(&report.by_decision, "ALLOW"), Some(1));
}

#[test]
fn report_integrity_all_valid() {
    let report = generate_report(&sample_chain());
    assert_eq!(report.integrity.valid, 2);
    assert_eq!(report.integrity.invalid, 0);
    assert!(report.integrity.failures.is_empty());
}

#[test]
fn report_integrity_detects_tamper() {
    let mut chain = sample_chain();
    if let JsonValue::Object(rc) = &mut chain[0].1 {
        for (k, v) in rc.iter_mut() {
            if k == "body" {
                if let JsonValue::Object(b) = v {
                    obj_insert(b, "tampered".to_string(), JsonValue::Bool(true));
                }
            }
        }
    }
    let report = generate_report(&chain);
    assert_eq!(report.integrity.invalid, 1);
    assert_eq!(report.integrity.failures.len(), 1);
    assert_eq!(report.integrity.failures[0].cid, chain[0].0);
    assert_eq!(report.integrity.failures[0].claimed_body_cid, chain[0].0);
}

#[test]
fn report_timeline_has_entries() {
    let report = generate_report(&sample_chain());
    assert_eq!(report.timeline.len(), 2);
    assert!(report.timeline.iter().all(|e| e.has_signature));
}

#[test]
fn report_serializes() {
    let report = generate_report_at(&sample_chain(), "2024-01-01T00:00:00+00:00".to_string());
    assert_eq!(report.generated_at, "2024-01-01T00:00:00+00:00");
    assert_eq!(report.integrity.total_checked, 2);
}

#[test]
fn empty_chain_report() {
    let report = generate_report(&Vec::new());
    assert_eq!(report.summary.total_receipts, 0);
    assert!(report.timeline.is_empty());
    assert_eq!(report.integrity.total_checked, 0);
}

#[test]
fn report_timeline_reads_phase_parents_and_defaults() {
    let odd = obj(vec![
        ("parents", JsonValue::Array(vec![s("p1"), JsonValue::Number(3), s("p2")])),
        ("observability", obj(vec![("ghost", JsonValue::Bool(true))])),
    ]);
    let chain = map(vec![("c1", odd)]);
    let report = generate_report(&chain);
    let e = &report.timeline[0];
    assert_eq!(e.receipt_type, "unknown");
    assert!(e.ghost_mode);
    assert_eq!(e.parents, vec!["p1".to_string(), "p2".to_string()]);
    assert!(!e.has_signature);
    assert_eq!(e.phase, None);
    assert_eq!(report.summary.ghost_count, 1);
    assert_eq!(report.summary.unsigned_count, 1);
    assert_eq!(report.integrity.total_checked, 0);
    assert_eq!(report.by_type, vec![("unknown".to_string(), 1)]);
}

#[test]
fn report_counts_types_in_key_order() {
    let chain = map(vec![
        ("c1", obj(vec![("t", s("ubl/wf"))])),
        ("c2", obj(vec![("t", s("ubl/wa"))])),
        ("c3", obj(vec![("t", s("ubl/wf"))])),
    ]);
    let report = generate_report(&chain);
    assert_eq!(report.by_type, vec![("ubl/wa".to_string(), 1), ("ubl/wf".to_string(), 2)]);
}

// ── API errors ─────────────────────────────────────────────────────

#[test]
fn error_body_serializes_without_optional_fields() {
    let body = ApiErrorBody {
        code: "not_found",
        message: "receipt not found".into(),
        request_id: None,
        retry_after_secs: None,
    };
    let json = body.to_json();
    assert_eq!(get(&json, "code"), Some(&s("not_found")));
    assert_eq!(get(&json, "message"), Some(&s("receipt not found")));
    assert!(get(&json, "request_id").is_none());
    assert!(get(&json, "retry_after_secs").is_none());
}

#[test]
fn rate_limit_error_includes_retry_after() {
    let body = ApiErrorBody {
        code: "rate_limited",
        message: "too many requests".into(),
        request_id: None,
        retry_after_secs: Some(5),
    };
    let json = body.to_json();
    assert_eq!(get(&json, "retry_after_secs"), Some(&JsonValue::Number(5)));
}

#[test]
fn app_errors_carry_status_code_and_headers() {
    let e = AppError::not_found("receipt");
    assert_eq!((e.status, e.code, e.message.as_str()), (404, "not_found", "receipt not found"));
    assert_eq!(e.to_string(), "[404] not_found: receipt not found");
    let e = AppError::too_many_requests("slow down", 17);
    assert_eq!(e.status, 429);
    assert_eq!(e.extra_headers, vec![("retry-after".to_string(), "17".to_string())]);
    assert_eq!(e.body().retry_after_secs, Some(17));
    let e = AppError::method_not_allowed("GET, POST");
    assert_eq!(e.extra_headers, vec![("allow".to_string(), "GET, POST".to_string())]);
    assert_eq!(AppError::unsupported_media_type().status, 415);
    assert_eq!(AppError::unprocessable("x").code, "unprocessable_entity");
    assert_eq!(u64_text(0), "0");
    assert_eq!(u64_text(18446744073709551615), "18446744073709551615");
}

// ── NRF canonicalization ───────────────────────────────────────────

fn keys(v: &JsonValue) -> Vec<String> {
    match v {
        JsonValue::Object(o) => o.iter().map(|(k, _)| k.clone()).collect(),
        _ => panic!("not an object"),
    }
}

#[test]
fn nrf1_sorts_keys() {
    let v = JsonValue::Object(vec![
        ("z".to_string(), JsonValue::Number(1)),
        ("a".to_string(), JsonValue::Number(2)),
        ("m".to_string(), JsonValue::Number(3)),
    ]);
    let c = Nrf1Canon.canon(v);
    assert_eq!(keys(&c), vec!["a", "m", "z"]);
}

#[test]
fn nrf1_strips_nulls() {
    let v = obj(vec![("a", JsonValue::Number(1)), ("b", JsonValue::Null), ("c", JsonValue::Number(3))]);
    let c = Nrf1Canon.canon(v);
    assert!(get(&c, "b").is_none(), "null values must be stripped");
    assert_eq!(keys(&c).len(), 2);
}

#[test]
fn nrf1_nfc_normalization() {
    let c = Nrf1Canon.canon(s("e\u{0301}"));
    assert_eq!(c, s("\u{00e9}"), "must normalize to NFC");
}

#[test]
fn nrf1_strips_bom() {
    let c = Nrf1Canon.canon(s("\u{feff}hello"));
    assert_eq!(c, s("hello"), "BOM must be stripped");
}

#[test]
fn nrf1_deterministic() {
    let v1 = obj(vec![
        ("z", JsonValue::Array(vec![JsonValue::Number(1), obj(vec![("b", JsonValue::Number(2)), ("a", JsonValue::Number(1))])])),
        ("a", s("hello")),
    ]);
    let v2 = obj(vec![
        ("a", s("hello")),
        ("z", JsonValue::Array(vec![JsonValue::Number(1), obj(vec![("a", JsonValue::Number(1)), ("b", JsonValue::Number(2))])])),
    ]);
    let c1 = ubl::json::to_text(&Nrf1Canon.canon(v1));
    let c2 = ubl::json::to_text(&Nrf1Canon.canon(v2));
    assert_eq!(c1, c2, "same data in different order must canonicalize identically");
}

#[test]
fn nrf1_nested_null_strip() {
    let v = obj(vec![("a", obj(vec![("b", JsonValue::Null), ("c", JsonValue::Number(1))])), ("d", JsonValue::Null)]);
    let c = Nrf1Canon.canon(v);
    assert!(get(&c, "d").is_none());
    assert!(get(get(&c, "a").unwrap(), "b").is_none());
    assert_eq!(get(get(&c, "a").unwrap(), "c"), Some(&JsonValue::Number(1)));
}

#[test]
fn nrf_keys_are_normalized_too() {
    let v = JsonValue::Object(vec![("\u{feff}k".to_string(), s("e\u{0301}"))]);
    let c = normalize_nrf(&v);
    assert_eq!(c, obj(vec![("k", s("\u{00e9}"))]));
}

#[test]
fn nrf_ignores_entry_order() {
    let a = JsonValue::Object(vec![
        ("z".to_string(), JsonValue::Bool(true)),
        ("\u{feff}m".to_string(), JsonValue::Number(2)),
    ]);
    let b = JsonValue::Object(vec![
        ("\u{feff}m".to_string(), JsonValue::Number(2)),
        ("z".to_string(), JsonValue::Bool(true)),
    ]);
    let na = normalize_nrf(&a);
    assert_eq!(na, normalize_nrf(&b));
    assert_eq!(keys(&na), vec!["m".to_string(), "z".to_string()]);
}

#[test]
fn nrf_normalizing_twice_is_normalizing_once() {
    let v = JsonValue::Object(vec![
        ("\u{feff}z".to_string(), JsonValue::Array(vec![s("\u{feff}e\u{0301}"), JsonValue::Null])),
        ("a\u{030a}".to_string(), obj(vec![("x", JsonValue::Null), ("y", s("A\u{030a}"))])),
        ("n".to_string(), JsonValue::Null),
    ]);
    let once = normalize_nrf(&v);
    assert_eq!(normalize_nrf(&once), once);
    assert_eq!(keys(&once), vec!["z".to_string(), "\u{00e5}".to_string()]);
}

#[test]
fn rfc3339_text_of_given_instants() {
    assert_eq!(rfc3339_or_epoch(0, 0), "1970-01-01T00:00:00+00:00");
    assert_eq!(rfc3339_or_epoch(1_431_648_000, 0), "2015-05-15T00:00:00+00:00");
    assert_eq!(rfc3339_or_epoch(1_431_648_000, 500_000_000), "2015-05-15T00:00:00.500+00:00");
    // out of chrono's range, or of i64: the epoch's text
    assert_eq!(rfc3339_or_epoch(i64::MAX as u64, 0), "1970-01-01T00:00:00+00:00");
    assert_eq!(rfc3339_or_epoch(u64::MAX, 0), "1970-01-01T00:00:00+00:00");
    let now = utc_now_rfc3339();
    assert!(now.ends_with("+00:00") && now.len() >= 25);
}
