use base64::Engine;
use ubl::bind::bind_vars_to_inputs;
use ubl::canon::{canonical_bytes, normalize_value};
use ubl::cid::cid_b3;
use ubl::engine::{execute, ExecuteConfig, Grammar, Manifest, Mapping, Policy};
use ubl::json::{obj_get, obj_insert, to_bytes, to_text, JsonMap, JsonValue};
use ubl::jws::{sign_detached, verify_detached, verifying_key};
use ubl::policy::{resolve, CascadePolicy, PolicyRule};
use ubl::receipt::{
    build_receipt, iso_from_secs, run_with_receipts, run_with_receipts_simple, validate_receipt,
    verify_body_cid, KeyRing, LoglineContext, RunOpts,
};

fn s(v: &str) -> JsonValue {
    JsonValue::Str(v.to_string())
}

fn map(pairs: Vec<(&str, JsonValue)>) -> JsonMap {
    let mut m: JsonMap = Vec::new();
    for (k, v) in pairs {
        obj_insert(&mut m, k.to_string(), v);
    }
    m
}

fn obj(pairs: Vec<(&str, JsonValue)>) -> JsonValue {
    JsonValue::Object(map(pairs))
}

fn get<'a>(v: &'a JsonValue, key: &str) -> Option<&'a JsonValue> {
    match v {
        JsonValue::Object(o) => obj_get(o, key),
        _ => None,
    }
}

fn get_str<'a>(v: &'a JsonValue, key: &str) -> &'a str {
    match get(v, key) {
        Some(JsonValue::Str(x)) => x.as_str(),
        other => panic!("{key} is not a string: {other:?}"),
    }
}

fn to_serde(v: &JsonValue) -> serde_json::Value {
    match v {
        JsonValue::Null => serde_json::Value::Null,
        JsonValue::Bool(b) => serde_json::Value::Bool(*b),
        JsonValue::Number(n) => serde_json::Value::from(*n as i64),
        JsonValue::Str(x) => serde_json::Value::String(x.clone()),
        JsonValue::Array(a) => serde_json::Value::Array(a.iter().map(to_serde).collect()),
        JsonValue::Object(o) => {
            let mut m = serde_json::Map::new();
            for (k, x) in o {
                m.insert(k.clone(), to_serde(x));
            }
            serde_json::Value::Object(m)
        }
    }
}

fn cfg() -> ExecuteConfig {
    ExecuteConfig { version: "0.1.0".into() }
}

fn sample_passthrough() -> (Manifest, JsonMap) {
    let in_g = Grammar {
        inputs: map(vec![("raw_b64", s(""))]),
        mappings: vec![Mapping {
            from: "raw_b64".into(),
            codec: "base64.decode".into(),
            to: "raw.bytes".into(),
        }],
        output_from: "raw.bytes".into(),
    };
    let out_g = Grammar {
        inputs: map(vec![("content", s(""))]),
        mappings: vec![],
        output_from: "content".into(),
    };
    let man = Manifest {
        pipeline: "hello".into(),
        in_grammar: in_g,
        out_grammar: out_g,
        policy: Policy { allow: true },
    };
    let vars = map(vec![("input_data", s("aGVsbG8="))]);
    (man, vars)
}

fn test_manifest_vars_cfg(allow: bool) -> (Manifest, JsonMap, ExecuteConfig) {
    let (mut m, vars) = sample_passthrough();
    m.pipeline = "test".into();
    m.policy.allow = allow;
    (m, vars, cfg())
}

fn rule(id: &str, level: &str, condition: &str, action: &str, reason: &str) -> PolicyRule {
    PolicyRule {
        id: id.into(),
        level: level.into(),
        description: "".into(),
        condition: condition.into(),
        action: action.into(),
        reason: reason.into(),
    }
}

const TEST_KEY: [u8; 32] = [7u8; 32];

// ── engine ─────────────────────────────────────────────────────────

fn public_key(seed: &[u8; 32]) -> [u8; 32] {
    verifying_key(seed)
}

#[test]
fn verifying_key_matches_the_ed25519_crate() {
    let expected = ed25519_dalek::SigningKey::from_bytes(&TEST_KEY).verifying_key().to_bytes();
    assert_eq!(verifying_key(&TEST_KEY), expected);
    assert_ne!(verifying_key(&TEST_KEY), TEST_KEY);
    assert_ne!(verifying_key(&TEST_KEY), verifying_key(&[99u8; 32]));
}

#[test]
fn protected_header_decodes_to_fixed_json() {
    let jws = sign_detached(b"payload", &TEST_KEY, "did:dev#k1");
    let header = base64::engine::general_purpose::URL_SAFE_NO_PAD.decode(&jws.protected).unwrap();
    assert_eq!(
        String::from_utf8(header).unwrap(),
        r#"{"alg":"EdDSA","b64":false,"crit":["b64"],"kid":"did:dev#k1","typ":"ubl/rc+json"}"#
    );
}

#[test]
fn engine_determinism_10x() {
    let (m, v) = sample_passthrough();
    let first = execute(&m, &v, &cfg()).unwrap();
    assert!(first.cid.starts_with("b3:"), "CID must be b3: prefixed");
    assert_eq!(first.cid.len(), 67, "b3:<64 hex chars>");
    for _ in 1..10 {
        let r = execute(&m, &v, &cfg()).unwrap();
        assert_eq!(r.cid, first.cid, "same input must produce same CID every time");
        assert_eq!(r.artifacts.output, first.artifacts.output);
    }
}

#[test]
fn determinism_key_order_irrelevant() {
    let (m, _) = sample_passthrough();
    let v1 = map(vec![("input_data", s("aGVsbG8="))]);
    let v2 = map(vec![("input_data", s("aGVsbG8="))]);
    let r1 = execute(&m, &v1, &cfg()).unwrap();
    let r2 = execute(&m, &v2, &cfg()).unwrap();
    assert_eq!(r1.cid, r2.cid);
}

#[test]
fn different_input_different_cid() {
    let (m, _) = sample_passthrough();
    let v1 = map(vec![("input_data", s("aGVsbG8="))]);
    let v2 = map(vec![("input_data", s("d29ybGQ="))]);
    let r1 = execute(&m, &v1, &cfg()).unwrap();
    let r2 = execute(&m, &v2, &cfg()).unwrap();
    assert_ne!(r1.cid, r2.cid, "different inputs must produce different CIDs");
}

#[test]
fn policy_deny_blocks_execution() {
    let (mut m, v) = sample_passthrough();
    m.policy.allow = false;
    let err = execute(&m, &v, &cfg()).unwrap_err();
    let msg = err.message();
    assert!(msg.contains("policy deny"), "expected policy deny, got: {msg}");
}

#[test]
fn binding_name_match_exact() {
    let (m, _) = sample_passthrough();
    let vars = map(vec![("raw_b64", s("aGVsbG8="))]);
    let r = execute(&m, &vars, &cfg()).unwrap();
    assert!(!r.cid.is_empty());
}

#[test]
fn binding_error_missing_vars() {
    let in_g = Grammar {
        inputs: map(vec![("a", s("")), ("b", s(""))]),
        mappings: vec![],
        output_from: "a".into(),
    };
    let out_g = Grammar { inputs: map(vec![("x", s(""))]), mappings: vec![], output_from: "x".into() };
    let m = Manifest {
        pipeline: "t".into(),
        in_grammar: in_g,
        out_grammar: out_g,
        policy: Policy { allow: true },
    };
    let vars = map(vec![("a", s("ok"))]);
    let err = execute(&m, &vars, &cfg()).unwrap_err();
    let msg = err.message();
    assert!(msg.contains("missing"), "expected binding error, got: {msg}");
    assert!(msg.contains("b"), "should mention missing key 'b'");
}

#[test]
fn binding_error_message_lists_missing_and_available() {
    let in_g = Grammar {
        inputs: map(vec![("a", s("")), ("b", s(""))]),
        mappings: vec![],
        output_from: "a".into(),
    };
    let out_g = Grammar { inputs: map(vec![("x", s(""))]), mappings: vec![], output_from: "x".into() };
    let m = Manifest {
        pipeline: "t".into(),
        in_grammar: in_g,
        out_grammar: out_g,
        policy: Policy { allow: true },
    };
    let vars = map(vec![("a", s("ok"))]);
    let err = execute(&m, &vars, &cfg()).unwrap_err();
    assert_eq!(err.message(), "binding: missing inputs: [\"b\"], available vars: [\"a\"]");
}

#[test]
fn unknown_codec_rejected() {
    let in_g = Grammar {
        inputs: map(vec![("x", s(""))]),
        mappings: vec![Mapping { from: "x".into(), codec: "rot13".into(), to: "y".into() }],
        output_from: "y".into(),
    };
    let out_g = Grammar { inputs: map(vec![("z", s(""))]), mappings: vec![], output_from: "z".into() };
    let m = Manifest {
        pipeline: "t".into(),
        in_grammar: in_g,
        out_grammar: out_g,
        policy: Policy { allow: true },
    };
    let vars = map(vec![("x", s("data"))]);
    let err = execute(&m, &vars, &cfg()).unwrap_err();
    assert!(err.message().contains("unknown codec"), "got: {}", err.message());
    assert_eq!(err.message(), "validation: unknown codec: rot13");
}

#[test]
fn invalid_base64_rejected() {
    let in_g = Grammar {
        inputs: map(vec![("raw_b64", s(""))]),
        mappings: vec![Mapping {
            from: "raw_b64".into(),
            codec: "base64.decode".into(),
            to: "out".into(),
        }],
        output_from: "out".into(),
    };
    let out_g = Grammar { inputs: map(vec![("z", s(""))]), mappings: vec![], output_from: "z".into() };
    let m = Manifest {
        pipeline: "t".into(),
        in_grammar: in_g,
        out_grammar: out_g,
        policy: Policy { allow: true },
    };
    let vars = map(vec![("raw_b64", s("!!!not-base64!!!"))]);
    let err = execute(&m, &vars, &cfg()).unwrap_err();
    assert!(err.message().contains("base64"), "got: {}", err.message());
}

#[test]
fn dimension_stack_correct() {
    let (m, v) = sample_passthrough();
    let r = execute(&m, &v, &cfg()).unwrap();
    assert_eq!(r.dimension_stack, vec!["parse", "policy", "render"]);
}

#[test]
fn passthrough_output_is_decoded_text_and_cid_of_its_canonical_bytes() {
    let (m, v) = sample_passthrough();
    let r = execute(&m, &v, &cfg()).unwrap();
    assert_eq!(r.artifacts.output, s("hello"));
    assert_eq!(r.cid, cid_b3(b"\"hello\""));
    assert!(r.artifacts.sub_receipts.is_empty());
    assert_eq!(r.policy_trace.len(), 1);
    assert_eq!(r.policy_trace[0].result, "PASS");
}

// ── policy ─────────────────────────────────────────────────────────

#[test]
fn legacy_allow() {
    let p = CascadePolicy::allow();
    let r = resolve(&p, &Vec::new(), None);
    assert_eq!(r.decision, "ALLOW");
    assert_eq!(r.policy_trace.len(), 1);
    assert_eq!(r.policy_trace[0].result, "PASS");
}

#[test]
fn legacy_deny() {
    let p = CascadePolicy::deny();
    let r = resolve(&p, &Vec::new(), None);
    assert_eq!(r.decision, "DENY");
    assert_eq!(r.decided_by.as_deref(), Some("UBL_LEGACY_DENY"));
}

#[test]
fn single_rule_pass() {
    let p = CascadePolicy {
        allow: true,
        rules: vec![rule("REQUIRE_BRAND", "tenant", "inputs.brand_id", "DENY", "brand_id required")],
    };
    let vars = map(vec![("brand_id", s("acme"))]);
    let r = resolve(&p, &vars, None);
    assert_eq!(r.decision, "ALLOW");
    assert_eq!(r.policy_trace.len(), 1);
    assert_eq!(r.policy_trace[0].result, "PASS");
}

#[test]
fn single_rule_deny() {
    let p = CascadePolicy {
        allow: true,
        rules: vec![rule("REQUIRE_BRAND", "tenant", "inputs.brand_id", "DENY", "brand_id required")],
    };
    let vars = map(vec![("message", s("hello"))]);
    let r = resolve(&p, &vars, None);
    assert_eq!(r.decision, "DENY");
    assert_eq!(r.decided_by.as_deref(), Some("REQUIRE_BRAND"));
    assert_eq!(r.reason.as_deref(), Some("brand_id required"));
}

#[test]
fn cascade_global_then_tenant() {
    let p = CascadePolicy {
        allow: true,
        rules: vec![
            rule("UBL_AUTH", "global", "true", "DENY", ""),
            rule("ACME_BRAND", "tenant", "inputs.brand_id", "DENY", "brand_id required"),
        ],
    };
    let vars = map(vec![("brand_id", s("acme"))]);
    let r = resolve(&p, &vars, None);
    assert_eq!(r.decision, "ALLOW");
    assert_eq!(r.policy_trace.len(), 2);
    assert_eq!(r.policy_trace[0].rule, "UBL_AUTH");
    assert_eq!(r.policy_trace[0].result, "PASS");
    assert_eq!(r.policy_trace[1].rule, "ACME_BRAND");
    assert_eq!(r.policy_trace[1].result, "PASS");
}

#[test]
fn cascade_global_deny_stops_early() {
    let p = CascadePolicy {
        allow: true,
        rules: vec![
            rule("UBL_REQUIRE_TOKEN", "global", "inputs.token", "DENY", "token required"),
            rule("ACME_BRAND", "tenant", "inputs.brand_id", "DENY", "brand_id required"),
        ],
    };
    let vars = map(vec![("brand_id", s("acme"))]);
    let r = resolve(&p, &vars, None);
    assert_eq!(r.decision, "DENY");
    assert_eq!(r.decided_by.as_deref(), Some("UBL_REQUIRE_TOKEN"));
    assert_eq!(r.policy_trace.len(), 1);
}

#[test]
fn body_size_rule() {
    let p = CascadePolicy {
        allow: true,
        rules: vec![rule("MAX_BODY", "global", "body_size <= 1024", "DENY", "body too large")],
    };
    let r = resolve(&p, &Vec::new(), Some(512));
    assert_eq!(r.decision, "ALLOW");
    let r = resolve(&p, &Vec::new(), Some(2048));
    assert_eq!(r.decision, "DENY");
    assert_eq!(r.decided_by.as_deref(), Some("MAX_BODY"));
}

#[test]
fn warn_action_continues() {
    let p = CascadePolicy {
        allow: true,
        rules: vec![
            rule("SOFT_CHECK", "tenant", "inputs.optional_field", "WARN", "optional_field missing"),
            rule("HARD_CHECK", "tenant", "true", "DENY", ""),
        ],
    };
    let vars = map(vec![("message", s("hi"))]);
    let r = resolve(&p, &vars, None);
    assert_eq!(r.decision, "ALLOW");
    assert_eq!(r.policy_trace.len(), 2);
    assert_eq!(r.policy_trace[0].result, "DENY");
    assert_eq!(r.policy_trace[1].result, "PASS");
}

#[test]
fn inputs_equals_condition() {
    let p = CascadePolicy {
        allow: true,
        rules: vec![rule("CHECK_ENV", "app", "inputs.env == \"production\"", "DENY", "must be production")],
    };
    let vars = map(vec![("env", s("production"))]);
    assert_eq!(resolve(&p, &vars, None).decision, "ALLOW");
    let vars = map(vec![("env", s("staging"))]);
    assert_eq!(resolve(&p, &vars, None).decision, "DENY");
}

#[test]
fn deny_rule_failing_on_null_input() {
    let p = CascadePolicy {
        allow: false,
        rules: vec![rule("NEEDS_X", "global", "inputs.x != null", "DENY", "x required")],
    };
    let vars = map(vec![("x", JsonValue::Null)]);
    let r = resolve(&p, &vars, None);
    assert_eq!(r.decision, "DENY");
    assert_eq!(r.reason.as_deref(), Some("x required"));
    let vars = map(vec![("x", JsonValue::Number(1))]);
    assert_eq!(resolve(&p, &vars, None).decision, "ALLOW");
}

// ── jws ────────────────────────────────────────────────────────────

#[test]
fn sign_and_verify() {
    let payload = b"canonical body bytes";
    let jws = sign_detached(payload, &TEST_KEY, "did:dev#k1");
    assert!(!jws.protected.is_empty());
    assert!(!jws.signature.is_empty());
    assert_eq!(jws.kid, "did:dev#k1");
    let vk = public_key(&TEST_KEY);
    assert!(verify_detached(&jws, payload, &vk), "signature must verify");
}

#[test]
fn verify_rejects_tampered_payload() {
    let jws = sign_detached(b"original", &TEST_KEY, "did:dev#k1");
    let vk = public_key(&TEST_KEY);
    assert!(!verify_detached(&jws, b"tampered", &vk), "tampered payload must fail");
}

#[test]
fn verify_rejects_wrong_key() {
    let jws = sign_detached(b"data", &TEST_KEY, "did:dev#k1");
    let wrong_vk = public_key(&[99u8; 32]);
    assert!(!verify_detached(&jws, b"data", &wrong_vk), "wrong key must fail");
}

#[test]
fn deterministic_signature() {
    let jws1 = sign_detached(b"deterministic test", &TEST_KEY, "did:dev#k1");
    let jws2 = sign_detached(b"deterministic test", &TEST_KEY, "did:dev#k1");
    assert_eq!(jws1.signature, jws2.signature, "Ed25519 is deterministic");
    assert_eq!(jws1.protected, jws2.protected);
}

#[test]
fn protected_header_contains_b64_false() {
    let jws = sign_detached(b"test", &TEST_KEY, "did:dev#k1");
    let decoded = base64::engine::general_purpose::URL_SAFE_NO_PAD.decode(&jws.protected).unwrap();
    let header: serde_json::Value = serde_json::from_slice(&decoded).unwrap();
    assert_eq!(header["b64"], false);
    assert_eq!(header["alg"], "EdDSA");
    assert_eq!(header["typ"], "ubl/rc+json");
    assert_eq!(header["kid"], "did:dev#k1");
    assert_eq!(header["crit"], serde_json::Value::Array(vec![serde_json::Value::String("b64".into())]));
}

#[test]
fn verify_rejects_garbled_signature_text() {
    let mut jws = sign_detached(b"data", &TEST_KEY, "did:dev#k1");
    jws.signature = "***".into();
    assert!(!verify_detached(&jws, b"data", &public_key(&TEST_KEY)));
}

// ── canonical JSON ─────────────────────────────────────────────────

#[test]
fn same_bytes() {
    let a = obj(vec![("b", s("x")), ("a", JsonValue::Number(1)), ("z", JsonValue::Null)]);
    let b = obj(vec![("a", JsonValue::Number(1)), ("b", s("x"))]);
    assert_eq!(canonical_bytes(&a).unwrap(), canonical_bytes(&b).unwrap());
}

#[test]
fn canonical_bytes_are_sorted_compact_text_without_nulls() {
    let v = JsonValue::Object(vec![
        ("z".to_string(), JsonValue::Number(-3)),
        ("a".to_string(), JsonValue::Array(vec![JsonValue::Bool(true), JsonValue::Null])),
        ("m".to_string(), JsonValue::Null),
    ]);
    assert_eq!(canonical_bytes(&v).unwrap(), b"{\"a\":[true,null],\"z\":-3}".to_vec());
}

#[test]
fn canonical_strings_are_nfc() {
    let v = s("e\u{0301}");
    assert_eq!(normalize_value(&v), s("\u{00e9}"));
}

#[test]
fn compact_text_matches_serde_json() {
    let v = obj(vec![
        ("text", s("quote \" back \\ nl \n tab \t ctl \u{1} é")),
        ("n", JsonValue::Number(-42)),
        ("list", JsonValue::Array(vec![JsonValue::Bool(false), JsonValue::Null, obj(vec![])])),
    ]);
    assert_eq!(to_bytes(&v), serde_json::to_vec(&to_serde(&v)).unwrap());
    assert_eq!(to_text(&v), serde_json::to_string(&to_serde(&v)).unwrap());
}

// ── binding ────────────────────────────────────────────────────────

#[test]
fn name_match() {
    let vars = map(vec![("raw_b64", s("aGVsbG8="))]);
    let ins = map(vec![("raw_b64", s(""))]);
    let b = bind_vars_to_inputs(&vars, &ins).unwrap();
    assert!(obj_get(&b, "raw_b64").is_some());
}

#[test]
fn fallback_1to1() {
    let vars = map(vec![("input_data", s("aGVsbG8="))]);
    let ins = map(vec![("raw_b64", s(""))]);
    let b = bind_vars_to_inputs(&vars, &ins).unwrap();
    assert!(obj_get(&b, "raw_b64").is_some());
    assert_eq!(obj_get(&b, "raw_b64"), Some(&s("aGVsbG8=")));
}

// ── receipts ───────────────────────────────────────────────────────

#[test]
fn build_and_verify() {
    let rc = build_receipt(
        "ubl/wa",
        vec![],
        obj(vec![("inputs_raw_cid", s("b3:abc")), ("intention", s("execute"))]),
        &TEST_KEY,
        "did:dev#k1",
    )
    .unwrap();
    assert_eq!(rc.t, "ubl/wa");
    assert!(rc.body_cid.starts_with("b3:"));
    assert!(verify_body_cid(&rc).unwrap());
}

#[test]
fn parents_chain() {
    let rc1 = build_receipt("ubl/wa", vec![], obj(vec![("a", JsonValue::Number(1))]), &TEST_KEY, "did:dev#k1")
        .unwrap();
    let rc2 = build_receipt(
        "ubl/wf",
        vec![rc1.body_cid.clone()],
        obj(vec![("b", JsonValue::Number(2))]),
        &TEST_KEY,
        "did:dev#k1",
    )
    .unwrap();
    assert_eq!(rc2.parents, vec![rc1.body_cid]);
}

#[test]
fn deterministic_receipt() {
    let rc1 = build_receipt("ubl/wa", vec![], obj(vec![("x", JsonValue::Number(42))]), &TEST_KEY, "did:dev#k1")
        .unwrap();
    let rc2 = build_receipt("ubl/wa", vec![], obj(vec![("x", JsonValue::Number(42))]), &TEST_KEY, "did:dev#k1")
        .unwrap();
    assert_eq!(rc1.body_cid, rc2.body_cid);
    assert_eq!(rc1.proof.signature, rc2.proof.signature);
}

#[test]
fn verify_rejects_tampered_body() {
    let mut rc =
        build_receipt("ubl/wa", vec![], obj(vec![("a", JsonValue::Number(1))]), &TEST_KEY, "did:dev#k1").unwrap();
    rc.body = obj(vec![("a", JsonValue::Number(2))]);
    assert!(!verify_body_cid(&rc).unwrap());
    let err = validate_receipt(&rc).unwrap_err();
    assert!(err.message().starts_with("validation: body_cid mismatch: expected b3:"));
}

#[test]
fn receipt_signature_verifies_over_canonical_body() {
    let body = obj(vec![("a", JsonValue::Number(1)), ("n", JsonValue::Null)]);
    let bytes = canonical_bytes(&body).unwrap();
    let rc = build_receipt("ubl/attestation", vec![], body, &TEST_KEY, "did:dev#k1").unwrap();
    assert_eq!(rc.body_cid, cid_b3(&bytes));
    assert!(verify_detached(&rc.proof, &bytes, &public_key(&TEST_KEY)));
    assert!(rc.observability.is_none());
}

#[test]
fn run_with_receipts_produces_three_chained() {
    let (manifest, vars, cfg) = test_manifest_vars_cfg(true);
    let result = run_with_receipts_simple(&manifest, &vars, &cfg, None).unwrap();
    assert_eq!(result.wa.t, "ubl/wa");
    assert!(result.transition.is_some());
    assert_eq!(result.transition.as_ref().unwrap().t, "ubl/transition");
    assert_eq!(result.wf.t, "ubl/wf");
    assert!(result.wa.parents.is_empty());
    assert_eq!(result.transition.as_ref().unwrap().parents, vec![result.wa.body_cid.clone()]);
    assert_eq!(
        result.wf.parents,
        vec![result.wa.body_cid.clone(), result.transition.as_ref().unwrap().body_cid.clone()]
    );
    assert_eq!(result.tip_cid, result.wf.body_cid);
    assert!(verify_body_cid(&result.wa).unwrap());
    assert!(verify_body_cid(result.transition.as_ref().unwrap()).unwrap());
    assert!(verify_body_cid(&result.wf).unwrap());
}

#[test]
fn run_with_receipts_deterministic() {
    let (manifest, vars, cfg) = test_manifest_vars_cfg(true);
    let r1 = run_with_receipts_simple(&manifest, &vars, &cfg, None).unwrap();
    let r2 = run_with_receipts_simple(&manifest, &vars, &cfg, None).unwrap();
    assert_eq!(r1.tip_cid, r2.tip_cid);
    assert_eq!(r1.wa.body_cid, r2.wa.body_cid);
    assert_eq!(
        r1.transition.as_ref().unwrap().body_cid,
        r2.transition.as_ref().unwrap().body_cid,
    );
}

#[test]
fn wf_body_contains_decision_allow() {
    let (manifest, vars, cfg) = test_manifest_vars_cfg(true);
    let result = run_with_receipts_simple(&manifest, &vars, &cfg, None).unwrap();
    assert_eq!(get_str(&result.wf.body, "decision"), "ALLOW");
    assert!(get_str(&result.wf.body, "outputs_cid").starts_with("b3:"));
}

#[test]
fn validate_rejects_bad_type() {
    let err = build_receipt("ubl/bogus", vec![], obj(vec![("a", JsonValue::Number(1))]), &TEST_KEY, "did:dev#k1");
    assert!(err.is_err());
    assert!(err.unwrap_err().message().contains("invalid receipt type"));
}

#[test]
fn validate_rejects_empty_kid() {
    let err = build_receipt("ubl/wa", vec![], obj(vec![("a", JsonValue::Number(1))]), &TEST_KEY, "");
    assert!(err.is_err());
    assert!(err.unwrap_err().message().contains("kid"));
}

#[test]
fn bad_type_message_lists_known_types() {
    let err = build_receipt("ubl/bogus", vec![], obj(vec![]), &TEST_KEY, "did:dev#k1").unwrap_err();
    assert_eq!(
        err.message(),
        "validation: invalid receipt type 'ubl/bogus', expected one of [\"ubl/wa\", \"ubl/transition\", \"ubl/wf\", \"ubl/attestation\"]"
    );
}

#[test]
fn ghost_mode_sets_observability() {
    let (manifest, vars, cfg) = test_manifest_vars_cfg(true);
    let keys = KeyRing::dev();
    let opts = RunOpts { prev_tip: None, ghost_mode: true, keys: &keys, seen: None, logline: None };
    let result = run_with_receipts(&manifest, &vars, &cfg, &opts).unwrap();
    assert!(result.ghost_mode);
    let t = JsonValue::Bool(true);
    assert_eq!(get(result.wa.observability.as_ref().unwrap(), "ghost"), Some(&t));
    assert_eq!(
        get(result.transition.as_ref().unwrap().observability.as_ref().unwrap(), "ghost"),
        Some(&t)
    );
    assert_eq!(get(result.wf.observability.as_ref().unwrap(), "ghost"), Some(&t));
}

#[test]
fn no_ghost_no_logline_no_observability() {
    let (manifest, vars, cfg) = test_manifest_vars_cfg(true);
    let result = run_with_receipts_simple(&manifest, &vars, &cfg, None).unwrap();
    assert!(!result.ghost_mode);
    assert!(result.wa.observability.is_none());
    assert!(result.wf.observability.is_none());
}

#[test]
fn idempotency_rejects_replay() {
    let (manifest, vars, cfg) = test_manifest_vars_cfg(true);
    let keys = KeyRing::dev();
    let raw_bytes = serde_json::to_vec(&to_serde(&JsonValue::Object(map(vec![(
        "input_data",
        s("aGVsbG8="),
    )]))))
    .unwrap();
    let inputs_cid = cid_b3(&raw_bytes);
    let idemp_key = format!("{}:{}", manifest.pipeline, inputs_cid);
    let seen = vec![idemp_key];
    let opts = RunOpts { prev_tip: None, ghost_mode: false, keys: &keys, seen: Some(&seen), logline: None };
    let err = run_with_receipts(&manifest, &vars, &cfg, &opts);
    assert!(err.is_err());
    assert!(err.unwrap_err().message().contains("duplicate request (replay)"));
}

#[test]
fn unseen_key_is_not_a_replay() {
    let (manifest, vars, cfg) = test_manifest_vars_cfg(true);
    let keys = KeyRing::dev();
    let seen = vec!["test:b3:other".to_string()];
    let opts = RunOpts { prev_tip: None, ghost_mode: false, keys: &keys, seen: Some(&seen), logline: None };
    assert!(run_with_receipts(&manifest, &vars, &cfg, &opts).is_ok());
}

#[test]
fn prev_tip_appears_in_wa_parents() {
    let (manifest, vars, cfg) = test_manifest_vars_cfg(true);
    let result = run_with_receipts_simple(&manifest, &vars, &cfg, Some("b3:prev_tip_abc")).unwrap();
    assert_eq!(result.wa.parents[0], "b3:prev_tip_abc");
    assert_eq!(get_str(&result.wa.body, "prev_tip"), "b3:prev_tip_abc");
}

#[test]
fn engine_failure_produces_deny_wf() {
    let (manifest, vars, cfg) = test_manifest_vars_cfg(false);
    let result = run_with_receipts_simple(&manifest, &vars, &cfg, None).unwrap();
    assert_eq!(get_str(&result.wf.body, "decision"), "DENY");
    assert!(get_str(&result.wf.body, "reason").contains("policy deny"));
    assert_eq!(get(&result.wf.body, "outputs_cid"), Some(&JsonValue::Null));
}

#[test]
fn custom_keyring_signs_with_active_kid() {
    let keys = KeyRing {
        active: [42u8; 32],
        active_kid: "did:custom#k2".into(),
        next: Some([99u8; 32]),
        next_kid: Some("did:custom#k3".into()),
    };
    let (manifest, vars, cfg) = test_manifest_vars_cfg(true);
    let opts = RunOpts { prev_tip: None, ghost_mode: false, keys: &keys, seen: None, logline: None };
    let result = run_with_receipts(&manifest, &vars, &cfg, &opts).unwrap();
    assert_eq!(result.wa.proof.kid, "did:custom#k2");
    assert_eq!(result.wf.proof.kid, "did:custom#k2");
}

#[test]
fn empty_active_kid_refuses_run() {
    let keys = KeyRing { active: [42u8; 32], active_kid: "".into(), next: None, next_kid: None };
    let (manifest, vars, cfg) = test_manifest_vars_cfg(true);
    let opts = RunOpts { prev_tip: None, ghost_mode: false, keys: &keys, seen: None, logline: None };
    let err = run_with_receipts(&manifest, &vars, &cfg, &opts).unwrap_err();
    assert_eq!(err.message(), "validation: proof.kid must not be empty");
}

#[test]
fn logline_attached_to_all_receipts() {
    let (manifest, vars, cfg) = test_manifest_vars_cfg(true);
    let keys = KeyRing::dev();
    let ctx = LoglineContext {
        who: "test-runner",
        actor_did: "did:dev#k1",
        where_: "unit-test",
        why: "verify logline attachment",
        context_id: "ctx-001",
    };
    let opts = RunOpts { prev_tip: None, ghost_mode: false, keys: &keys, seen: None, logline: Some(ctx) };
    let result = run_with_receipts(&manifest, &vars, &cfg, &opts).unwrap();
    for (label, rc) in [("wa", &result.wa), ("wf", &result.wf)] {
        let obs = rc.observability.as_ref().unwrap_or_else(|| panic!("{label} missing observability"));
        let ll = get(obs, "logline").unwrap();
        assert_eq!(get_str(ll, "who"), "test-runner", "{label} logline.who");
        assert_eq!(get_str(ll, "actor_did"), "did:dev#k1", "{label} logline.actor_did");
        assert_eq!(get_str(ll, "context_id"), "ctx-001", "{label} logline.context_id");
        assert!(!get_str(ll, "when_iso").is_empty(), "{label} logline.when_iso");
        assert_eq!(get_str(ll, "version"), "0.1.0", "{label} logline.version");
    }
    let tr = result.transition.as_ref().unwrap();
    let tr_ll = get(tr.observability.as_ref().unwrap(), "logline").unwrap();
    assert_eq!(get_str(tr_ll, "who"), "test-runner");
    assert!(get_str(tr_ll, "what").contains("transition"));
    assert!(get(result.wa.observability.as_ref().unwrap(), "ghost").is_none());
}

#[test]
fn logline_and_ghost_coexist() {
    let (manifest, vars, cfg) = test_manifest_vars_cfg(true);
    let keys = KeyRing::dev();
    let ctx = LoglineContext {
        who: "ghost-test",
        actor_did: "did:dev#k1",
        where_: "unit-test",
        why: "verify ghost+logline",
        context_id: "ctx-ghost",
    };
    let opts = RunOpts { prev_tip: None, ghost_mode: true, keys: &keys, seen: None, logline: Some(ctx) };
    let result = run_with_receipts(&manifest, &vars, &cfg, &opts).unwrap();
    let obs = result.wa.observability.as_ref().unwrap();
    assert_eq!(get(obs, "ghost"), Some(&JsonValue::Bool(true)));
    assert_eq!(get_str(get(obs, "logline").unwrap(), "who"), "ghost-test");
    assert_eq!(get_str(get(obs, "logline").unwrap(), "where"), "unit-test");
}

#[test]
fn wa_body_names_pipeline_and_raw_cid() {
    let (manifest, vars, cfg) = test_manifest_vars_cfg(true);
    let result = run_with_receipts_simple(&manifest, &vars, &cfg, None).unwrap();
    let raw = serde_json::to_vec(&to_serde(&JsonValue::Object(map(vec![("input_data", s("aGVsbG8="))]))))
        .unwrap();
    assert_eq!(get_str(&result.wa.body, "inputs_raw_cid"), cid_b3(&raw));
    assert_eq!(get(&result.wa.body, "prev_tip"), Some(&JsonValue::Null));
    let intention = get(&result.wa.body, "intention").unwrap();
    assert_eq!(get_str(intention, "op"), "execute");
    assert_eq!(get_str(intention, "pipeline"), "test");
    let tr = result.transition.as_ref().unwrap();
    assert_eq!(get_str(&tr.body, "preimage_raw_cid"), cid_b3(&raw));
    assert_eq!(get_str(&tr.body, "op"), "rho.normalize@ai-nrf1/v1");
}

// ── timestamps ─────────────────────────────────────────────────────

#[test]
fn iso_timestamps_on_the_rough_calendar() {
    assert_eq!(iso_from_secs(0), "1970-01-01T00:00:00Z");
    assert_eq!(iso_from_secs(86400 + 3661), "1970-01-02T01:01:01Z");
    assert_eq!(iso_from_secs(86400 * 364), "1970-12-05T00:00:00Z");
    assert_eq!(iso_from_secs(86400 * 365 + 59), "1971-01-01T00:00:59Z");
}

#[test]
fn canonical_bytes_ignore_entry_order() {
    let a = JsonValue::Object(vec![
        ("b".to_string(), JsonValue::Number(1)),
        ("a".to_string(), s("x")),
        ("c".to_string(), JsonValue::Null),
    ]);
    let b = JsonValue::Object(vec![
        ("c".to_string(), JsonValue::Null),
        ("a".to_string(), s("x")),
        ("b".to_string(), JsonValue::Number(1)),
    ]);
    assert_eq!(canonical_bytes(&a).unwrap(), canonical_bytes(&b).unwrap());
    assert_eq!(String::from_utf8(canonical_bytes(&a).unwrap()).unwrap(), r#"{"a":"x","b":1}"#);
}

#[test]
fn policy_trace_serializes() {
    let p = CascadePolicy {
        allow: true,
        rules: vec![
            rule("G1", "global", "true", "DENY", ""),
            rule("T1", "tenant", "inputs.brand_id", "DENY", "need brand"),
        ],
    };
    let vars = map(vec![("brand_id", s("acme"))]);
    let r = resolve(&p, &vars, None);
    let json = r.to_json();
    assert_eq!(get(&json, "decision"), Some(&s("ALLOW")));
    match get(&json, "policy_trace") {
        Some(JsonValue::Array(a)) => assert_eq!(a.len(), 2),
        other => panic!("policy_trace is not an array: {other:?}"),
    }
    assert!(get(&json, "decided_by").is_none() && get(&json, "reason").is_none());
}
