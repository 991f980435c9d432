use ubl::access::{ClientInfo, TokenStore, AuthOutcome, DEV_TOKEN, rate_limit_body};
use ubl::cid::cid_b3;
use ubl::canon::canonical_bytes;
use ubl::engine::{Grammar, Manifest, Mapping, Policy};
use ubl::error::RuntimeError;
use ubl::json::{obj_get, obj_insert, to_bytes, JsonMap, JsonValue};
use ubl::jws::{verify_detached, verifying_key, JwsDetached};
use ubl::rb_bridge::{finish_rb, fuel_limit, vm_error, ExecuteRbReq, RbOutcome, VmFailure};
use ubl::receipt::KeyRing;
use ubl::service::{invalid_chip_answer, Answer, ExecRbRequest, ServiceState};

fn s(v: &str) -> JsonValue {
    JsonValue::Str(v.to_string())
}

fn map(pairs: Vec<(&str, JsonValue)>) -> JsonMap {
    let mut m: JsonMap = Vec::new();
    for (k, v) in pairs {
        obj_insert(&mut m, k.to_string(), v);
    }
    m
}

fn get<'a>(v: &'a JsonValue, key: &str) -> &'a JsonValue {
    match v {
        JsonValue::Object(o) => match obj_get(o, key) {
            Some(x) => x,
            None => panic!("no {key} in {v:?}"),
        },
        _ => panic!("not an object: {v:?}"),
    }
}

fn text<'a>(v: &'a JsonValue) -> &'a str {
    match v {
        JsonValue::Str(x) => x.as_str(),
        other => panic!("not a string: {other:?}"),
    }
}

fn item<'a>(v: &'a JsonValue, i: usize) -> &'a JsonValue {
    match v {
        JsonValue::Array(a) => &a[i],
        other => panic!("not an array: {other:?}"),
    }
}

fn state() -> ServiceState {
    ServiceState {
        transition_receipts: Vec::new(),
        receipt_chain: Vec::new(),
        seen: Vec::new(),
        keys: KeyRing::dev(),
        last_tip: None,
        base_url: "http://localhost:8080".to_string(),
    }
}

fn passthrough(pipeline: &str) -> Manifest {
    Manifest {
        pipeline: pipeline.into(),
        in_grammar: Grammar {
            inputs: map(vec![("raw_b64", s(""))]),
            mappings: vec![Mapping {
                from: "raw_b64".into(),
                codec: "base64.decode".into(),
                to: "raw.bytes".into(),
            }],
            output_from: "raw.bytes".into(),
        },
        out_grammar: Grammar {
            inputs: map(vec![("content", s(""))]),
            mappings: vec![],
            output_from: "content".into(),
        },
        policy: Policy { allow: true },
    }
}

fn plain(pipeline: &str, allow: bool, codec: Option<&str>) -> Manifest {
    Manifest {
        pipeline: pipeline.into(),
        in_grammar: Grammar {
            inputs: map(vec![("x", s(""))]),
            mappings: match codec {
                Some(c) => vec![Mapping { from: "x".into(), codec: c.into(), to: "y".into() }],
                None => vec![],
            },
            output_from: match codec {
                Some(_) => "y".into(),
                None => "x".into(),
            },
        },
        out_grammar: Grammar {
            inputs: map(vec![("y", s(""))]),
            mappings: vec![],
            output_from: "y".into(),
        },
        policy: Policy { allow },
    }
}

fn client(kids: Vec<&str>) -> ClientInfo {
    ClientInfo {
        client_id: "scoped-client".into(),
        tenant_id: "default".into(),
        allowed_kids: kids.into_iter().map(|k| k.to_string()).collect(),
    }
}

fn ok(a: &Answer) -> &JsonValue {
    assert_eq!(a.status, 200, "{:?}", a.body);
    &a.body
}

// ── /v1/execute ────────────────────────────────────────────────────

#[test]
fn execute_happy_path() {
    let mut st = state();
    let vars = map(vec![("input_data", s("aGVsbG8="))]);
    let a = st.execute_runtime(&passthrough("test"), &vars, None, None);
    let body = ok(&a);
    assert!(text(get(body, "cid")).starts_with("b3:"), "CID must be b3: prefixed");
    assert_eq!(
        get(body, "dimension_stack"),
        &JsonValue::Array(vec![s("parse"), s("policy"), s("render")])
    );
}

#[test]
fn execute_determinism_and_idempotency() {
    let mut st = state();
    let vars = map(vec![("data", s("aGVsbG8="))]);
    let m = passthrough("det");
    let r1 = st.execute_runtime(&m, &vars, None, None);
    let body1 = ok(&r1);
    let cid = text(get(body1, "cid"));
    assert!(cid.starts_with("b3:"), "CID must be b3: prefixed");
    assert_eq!(cid.len(), 67, "b3:<64 hex chars>");

    let r2 = st.execute_runtime(&m, &vars, None, None);
    assert_eq!(r2.status, 409, "replay must return 409 CONFLICT");
    assert!(text(get(&r2.body, "detail")).contains("duplicate request"));
}

#[test]
fn execute_policy_deny_returns_deny_receipt() {
    let mut st = state();
    let vars = map(vec![("x", s("data"))]);
    let a = st.execute_runtime(&plain("deny", false, None), &vars, None, None);
    let body = ok(&a);
    assert_eq!(get(body, "decision"), &s("DENY"));
    let wf = get(get(body, "receipts"), "wf");
    assert_eq!(get(get(wf, "body"), "decision"), &s("DENY"));
    assert!(text(get(get(wf, "body"), "reason")).contains("policy deny"));
    assert_eq!(text(get(get(get(body, "receipts"), "wa"), "t")), "ubl/wa");
}

#[test]
fn execute_bad_codec_returns_deny_receipt() {
    let mut st = state();
    let vars = map(vec![("x", s("data"))]);
    let a = st.execute_runtime(&plain("bad", true, Some("rot13")), &vars, None, None);
    let body = ok(&a);
    assert_eq!(get(body, "decision"), &s("DENY"));
    let wf = get(get(body, "receipts"), "wf");
    assert_eq!(get(get(wf, "body"), "decision"), &s("DENY"));
    assert!(text(get(get(wf, "body"), "reason")).contains("unknown codec"));
}

#[test]
fn auth_kid_scope_denied_returns_403() {
    let mut st = state();
    let vars = map(vec![("input_data", s("aGVsbG8="))]);
    let c = client(vec!["did:other#k9"]);
    let a = st.execute_runtime(&passthrough("kid-test"), &vars, None, Some(&c));
    assert_eq!(a.status, 403, "kid out of scope must return 403");
    assert_eq!(get(&a.body, "error"), &s("kid_scope_denied"));
    assert!(text(get(&a.body, "detail")).contains("did:dev#k1"));
    assert_eq!(
        text(get(&a.body, "detail")),
        "client 'scoped-client' not authorized for kid 'did:dev#k1'"
    );
    assert!(st.seen.is_empty() && st.receipt_chain.is_empty() && st.last_tip.is_none());
}

#[test]
fn auth_kid_scope_allowed_returns_200() {
    let mut st = state();
    let vars = map(vec![("input_data", s("aGVsbG8="))]);
    let c = client(vec!["did:dev#k1"]);
    let a = st.execute_runtime(&passthrough("kid-ok"), &vars, None, Some(&c));
    assert_eq!(a.status, 200, "kid in scope must return 200");
    let any = client(vec![]);
    let b = st.execute_runtime(&passthrough("kid-any"), &vars, None, Some(&any));
    assert_eq!(b.status, 200, "an empty kid list allows every kid");
}

#[test]
fn replay_returns_409_with_first_chain_intact() {
    let mut st = state();
    let m = passthrough("replay-integrity");
    let vars = map(vec![("input_data", s("cmVwbGF5"))]);
    let r1 = st.execute_runtime(&m, &vars, None, None);
    let body1 = ok(&r1);
    let receipts = get(body1, "receipts");
    let wa_cid = text(get(get(receipts, "wa"), "body_cid"));
    let tr_cid = text(get(get(receipts, "transition"), "body_cid"));
    let wf_parents = get(get(receipts, "wf"), "parents");
    assert_eq!(text(item(wf_parents, 0)), wa_cid, "wf.parents[0] == wa.body_cid");
    assert_eq!(text(item(wf_parents, 1)), tr_cid, "wf.parents[1] == transition.body_cid");
    assert!(wa_cid.starts_with("b3:"));
    assert!(tr_cid.starts_with("b3:"));
    assert_eq!(get(body1, "decision"), &s("ALLOW"));

    let chain_before = st.receipt_chain.len();
    let tip_before = st.last_tip.clone();
    let r2 = st.execute_runtime(&m, &vars, Some(true), None);
    assert_eq!(r2.status, 409, "replay must return 409 CONFLICT");
    assert!(text(get(&r2.body, "detail")).contains("duplicate request"));
    assert_eq!(get(&r2.body, "error"), &s("execute_failed"));
    assert_eq!(st.receipt_chain.len(), chain_before);
    assert_eq!(st.last_tip, tip_before);
}

#[test]
fn policy_deny_produces_deny_receipt_with_chain() {
    let mut st = state();
    let vars = map(vec![("x", s("data"))]);
    let a = st.execute_runtime(&plain("deny-chain-test", false, None), &vars, None, None);
    let body = ok(&a);
    assert_eq!(get(body, "decision"), &s("DENY"));
    let wf = get(get(body, "receipts"), "wf");
    assert_eq!(get(get(wf, "body"), "decision"), &s("DENY"));
    assert!(!text(get(get(wf, "body"), "reason")).is_empty());
    let wa_cid = text(get(get(get(body, "receipts"), "wa"), "body_cid"));
    assert_eq!(text(item(get(wf, "parents"), 0)), wa_cid);
    assert!(text(get(body, "tip_cid")).starts_with("b3:"));
}

#[test]
fn runs_are_chained_and_stored() {
    let mut st = state();
    let r1 = st.execute_runtime(&passthrough("a"), &map(vec![("d", s("aGk="))]), None, None);
    let tip1 = text(get(ok(&r1), "tip_cid")).to_string();
    assert_eq!(st.last_tip.as_deref(), Some(tip1.as_str()));
    assert_eq!(st.receipt_chain.len(), 3);
    assert_eq!(st.seen.len(), 1);
    assert!(st.seen[0].starts_with("a:b3:"));
    assert_eq!(
        text(get(ok(&r1), "url")),
        format!("http://localhost:8080/v1/receipt/{tip1}")
    );
    let r2 = st.execute_runtime(&passthrough("a"), &map(vec![("d", s("aG8="))]), None, None);
    let wa = get(get(ok(&r2), "receipts"), "wa");
    assert_eq!(text(item(get(wa, "parents"), 0)), tip1);
    assert_eq!(st.receipt_chain.len(), 6);
}

#[test]
fn ghost_runs_leave_state_unchanged() {
    let mut st = state();
    let vars = map(vec![("d", s("aGk="))]);
    let r = st.execute_runtime(&passthrough("g"), &vars, Some(true), None);
    let body = ok(&r);
    assert_eq!(get(body, "ghost"), &JsonValue::Bool(true));
    assert!(st.receipt_chain.is_empty(), "ghost receipts are not stored");
    assert!(st.seen.is_empty(), "ghost runs are not recorded");
    assert_eq!(st.last_tip, None, "ghost runs do not move the tip");
    let obs = get(get(get(body, "receipts"), "wf"), "observability");
    assert_eq!(get(obs, "ghost"), &JsonValue::Bool(true));
    // the same request, not in ghost mode, then runs and is recorded
    let again = st.execute_runtime(&passthrough("g"), &vars, None, None);
    assert_eq!(again.status, 200);
    assert_eq!(st.seen.len(), 1);
    assert_eq!(st.receipt_chain.len(), 3);
}

// ── /v1/transition and /v1/execute/rb ──────────────────────────────

fn rb_req(ghost: Option<bool>) -> ExecuteRbReq {
    ExecuteRbReq {
        chip: vec![1, 2, 3],
        inputs: vec![JsonValue::Object(map(vec![("b", JsonValue::Number(2)), ("a", JsonValue::Null)]))],
        ghost_mode: ghost,
        fuel: None,
    }
}

#[test]
fn transition_not_found_names_the_cid() {
    let st = state();
    let a = st.get_transition("b3:nope");
    assert_eq!(a.status, 404);
    assert_eq!(get(&a.body, "error"), &s("transition_not_found"));
    assert_eq!(get(&a.body, "cid"), &s("b3:nope"));
}

#[test]
fn rb_run_stores_its_transition_under_cid_and_rho() {
    let mut st = state();
    let req = rb_req(None);
    let outcome = RbOutcome { rc_cid: Some("b3:rc".into()), steps: 4, fuel_used: 11 };
    let a = st.rb_answer(&req, Ok(outcome));
    let body = ok(&a);
    assert_eq!(get(body, "rc_cid"), &s("b3:rc"));
    assert_eq!(get(body, "steps"), &JsonValue::Number(4));
    assert_eq!(get(body, "fuel_used"), &JsonValue::Number(11));
    let env = get(body, "transition_receipt");
    let cid = text(get(env, "cid")).to_string();
    let rho = text(get(get(env, "body"), "rho_cid")).to_string();
    assert_eq!(st.transition_receipts.len(), 2);
    let by_cid = st.get_transition(&cid);
    assert_eq!(by_cid.status, 200);
    assert_eq!(&by_cid.body, env);
    assert_eq!(&st.get_transition(&rho).body, env);
}

#[test]
fn rb_failure_is_422_and_stores_nothing() {
    let mut st = state();
    let a = st.rb_answer(&rb_req(None), Err(RuntimeError::Engine("fuel exhausted".into())));
    assert_eq!(a.status, 422);
    assert_eq!(get(&a.body, "error"), &s("execute_rb_failed"));
    assert_eq!(get(&a.body, "detail"), &s("engine: fuel exhausted"));
    assert!(st.transition_receipts.is_empty());
}

#[test]
fn rb_envelope_is_the_signed_transition_of_the_inputs() {
    let req = rb_req(Some(true));
    let res = finish_rb(&req, RbOutcome { rc_cid: None, steps: 1, fuel_used: 5 });
    let env = res.transition_receipt.unwrap();
    let body = get(&env, "body");
    let inputs = JsonValue::Array(req.inputs.iter().map(|v| v.duplicate()).collect());
    assert_eq!(text(get(body, "preimage_raw_cid")), cid_b3(&to_bytes(&inputs)));
    assert_eq!(text(get(body, "rho_cid")), cid_b3(&canonical_bytes(&inputs).unwrap()));
    assert_eq!(get(body, "ghost"), &JsonValue::Bool(true));
    let witness = get(body, "witness");
    assert_eq!(text(get(witness, "bytecode_cid")), cid_b3(&[1, 2, 3]));
    assert_eq!(get(witness, "fuel_spent"), &JsonValue::Number(5));
    assert_eq!(get(witness, "vm"), &s("rb-vm@0.1.0"));
    let body_bytes = canonical_bytes(body).unwrap();
    assert_eq!(text(get(&env, "cid")), cid_b3(&body_bytes));
    let proof = get(&env, "proof");
    let jws = JwsDetached {
        protected: text(get(proof, "protected")).into(),
        signature: text(get(proof, "signature")).into(),
        kid: text(get(proof, "kid")).into(),
    };
    assert_eq!(jws.kid, "did:dev#k1");
    let vk = verifying_key(&[7u8; 32]);
    assert!(verify_detached(&jws, &body_bytes, &vk));
    let plain_run = finish_rb(&rb_req(None), RbOutcome { rc_cid: None, steps: 1, fuel_used: 5 });
    let plain_body = get(plain_run.transition_receipt.as_ref().unwrap(), "body");
    match plain_body {
        JsonValue::Object(o) => assert!(obj_get(o, "ghost").is_none()),
        _ => panic!("body is an object"),
    }
}

#[test]
fn rb_fuel_defaults_to_fifty_thousand() {
    assert_eq!(fuel_limit(&rb_req(None)), 50_000);
    let mut r = rb_req(None);
    r.fuel = Some(7);
    assert_eq!(fuel_limit(&r), 7);
}

#[test]
fn rb_request_decodes_its_chip() {
    let req = ExecRbRequest {
        chip_b64: "AQID".into(),
        inputs: vec![s("a")],
        ghost_mode: Some(false),
        fuel: Some(9),
    };
    let q = req.to_rb_req().unwrap();
    assert_eq!(q.chip, vec![1, 2, 3]);
    assert_eq!(q.fuel, Some(9));
    assert_eq!(q.inputs, vec![s("a")]);
    let bad = ExecRbRequest { chip_b64: "not base64!".into(), inputs: vec![], ghost_mode: None, fuel: None };
    assert!(bad.to_rb_req().is_none());
    let a = invalid_chip_answer();
    assert_eq!(a.status, 400);
    assert_eq!(get(&a.body, "error"), &s("invalid base64 chip"));
}

// ── authentication ─────────────────────────────────────────────────

#[test]
fn authentication_decisions() {
    let store = TokenStore::with_dev_token();
    let header = format!("Bearer {DEV_TOKEN}");
    assert!(matches!(store.authenticate(false, "POST", "/v1/execute", None), AuthOutcome::MissingToken));
    assert!(matches!(
        store.authenticate(false, "POST", "/v1/execute", Some("Bearer nope")),
        AuthOutcome::InvalidToken
    ));
    match store.authenticate(false, "POST", "/v1/execute", Some(header.as_str())) {
        AuthOutcome::Client(c) => assert_eq!(c.client_id, "dev-client"),
        _ => panic!("the dev token is known"),
    }
    assert!(matches!(store.authenticate(false, "GET", "/healthz", None), AuthOutcome::Pass));
    assert!(matches!(store.authenticate(false, "OPTIONS", "/v1/execute", None), AuthOutcome::Pass));
    assert!(matches!(store.authenticate(true, "POST", "/v1/execute", None), AuthOutcome::Pass));
}

#[test]
fn rate_limit_body_names_client_and_limit() {
    let b = rate_limit_body("c1", 600, 3);
    assert_eq!(get(&b, "error"), &s("rate_limit_exceeded"));
    assert_eq!(get(&b, "detail"), &s("client 'c1' exceeded 600 rpm"));
    let body = get(get(&b, "receipt"), "body");
    assert_eq!(get(body, "retry_after_secs"), &JsonValue::Number(3));
    assert_eq!(get(body, "decision"), &s("DENY"));
}

#[test]
fn audit_of_stored_run_finds_every_body_cid_valid() {
    let mut st = state();
    let r = st.execute_runtime(&passthrough("audited"), &map(vec![("d", s("aGk="))]), None, None);
    assert_eq!(r.status, 200);
    let report = ubl::audit::generate_report(&st.receipt_chain);
    assert_eq!(report.integrity.total_checked, 3);
    assert_eq!(report.integrity.valid, 3);
    assert_eq!(report.integrity.invalid, 0);
}

#[test]
fn vm_failures_map_to_runtime_errors() {
    assert!(matches!(vm_error(VmFailure::Deny("no".into())), RuntimeError::PolicyDeny(r) if r == "no"));
    assert!(matches!(vm_error(VmFailure::FuelExhausted), RuntimeError::Engine(m) if m == "fuel exhausted"));
    assert!(matches!(
        vm_error(VmFailure::Other("stack underflow".into())),
        RuntimeError::Engine(m) if m == "stack underflow"
    ));
    let e = vm_error(VmFailure::Decode("truncated".into()));
    assert_eq!(e.message(), "engine: TLV decode: truncated");
}
