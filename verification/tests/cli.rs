use sha2::Digest;
use ubl::client::{check_receipt_cid, group_receipts, receipt_type_label, short_cid, Client};
use ubl::engine::{ExecuteConfig, Grammar, Manifest, Mapping, Policy};
use ubl::json::{obj_insert, to_bytes, JsonMap, JsonValue};
use ubl::local_ledger::{
    attestation_at, cidv1_raw_sha256_base32, event_at, inspect_receipt, shard_of, story_lines_for,
    to_lower_ascii, validate_required, verify_target, VerifyTarget,
};
use ubl::cid::cid_b3;

fn s(v: &str) -> JsonValue {
    JsonValue::Str(v.to_string())
}

fn map(pairs: Vec<(&str, JsonValue)>) -> JsonMap {
    let mut m: JsonMap = Vec::new();
    for (k, v) in pairs {
        obj_insert(&mut m, k.to_string(), v);
    }
    m
}

fn obj(pairs: Vec<(&str, JsonValue)>) -> JsonValue {
    JsonValue::Object(map(pairs))
}

// ── local ledger ───────────────────────────────────────────────────

#[test]
fn local_cid_is_lower_base32_of_sha256() {
    let digest = sha2::Sha256::digest(b"hello");
    let expected = format!(
        "cidv1-raw-sha2-256:{}",
        data_encoding::BASE32_NOPAD.encode(&digest).to_lowercase()
    );
    assert_eq!(cidv1_raw_sha256_base32(b"hello"), expected);
    assert_eq!(to_lower_ascii("AbC-12"), "abc-12");
}

#[test]
fn shard_is_the_last_two_bytes() {
    assert_eq!(shard_of("cidv1-raw-sha2-256:abcxy"), b"xy".to_vec());
    assert_eq!(shard_of("z"), b"z".to_vec());
}

#[test]
fn required_fields_are_checked_in_order() {
    let v = obj(vec![("type", s("x")), ("claim", s("c"))]);
    assert!(validate_required(&v, &["type", "claim"]).is_ok());
    assert_eq!(
        validate_required(&v, &["type", "signer", "created_at"]).unwrap_err(),
        "missing field: signer"
    );
}

#[test]
fn attestation_and_event_documents() {
    let (name, doc) = attestation_at("cid1", "audited", "alice", "2024-01-02T03:04:05+00:00").unwrap();
    assert_eq!(name, "attest-audited-2024-01-02T03_04_05+00_00.json");
    let text = String::from_utf8(to_bytes(&doc)).unwrap();
    assert_eq!(
        text,
        r#"{"claim":"audited","created_at":"2024-01-02T03:04:05+00:00","evidence":[],"signature":"base64:TODO","signer":"alice","target_cid":"cid1","type":"attestation"}"#
    );
    let (name, doc) = event_at("release", "cid1", Some("v1"), "2024-01-02T00:00:00Z").unwrap();
    assert_eq!(name, "event-release-2024-01-02T00_00_00Z.json");
    let text = String::from_utf8(to_bytes(&doc)).unwrap();
    assert_eq!(
        text,
        r#"{"author":"@local/user","created_at":"2024-01-02T00:00:00Z","kind":"release","metadata":{"title":"v1"},"signature":"base64:TODO","subjects":["cid1"],"type":"event"}"#
    );
}

#[test]
fn verify_targets() {
    assert_eq!(verify_target("rc.json").unwrap(), VerifyTarget::ReceiptFile);
    assert_eq!(verify_target("b3:abc").unwrap(), VerifyTarget::Cid);
    assert_eq!(verify_target("cidv1-raw-sha2-256:abc").unwrap(), VerifyTarget::Cid);
    assert_eq!(
        verify_target("sha256:abc").unwrap_err(),
        "invalid CID form (expected cidv1-raw-sha2-256:... or b3:...)"
    );
}

#[test]
fn receipt_inspection() {
    let cid = format!("b3:{}", "a".repeat(64));
    let rc = obj(vec![
        ("t", s("ubl/transition")),
        ("body_cid", s(&cid)),
        ("body", obj(vec![("preimage_raw_cid", s("b3:p"))])),
        ("proof", obj(vec![])),
        ("parents", JsonValue::Array(vec![s("x"), s("y")])),
    ]);
    let x = inspect_receipt(&rc).unwrap();
    assert!(x.cid_format_ok);
    assert_eq!(x.transition, Some(("b3:p".to_string(), "?".to_string())));
    assert_eq!(x.parents, Some(2));
    assert_eq!(x.t, "ubl/transition");
    let no_proof = obj(vec![("body_cid", s("b3:x")), ("body", obj(vec![]))]);
    assert_eq!(inspect_receipt(&no_proof).unwrap_err(), "missing proof");
    assert_eq!(inspect_receipt(&obj(vec![])).unwrap_err(), "missing body_cid");
}

#[test]
fn story_is_sorted_by_creation() {
    let atts = vec![
        obj(vec![("target_cid", s("T")), ("claim", s("late")), ("signer", s("b")), ("created_at", s("2024-02"))]),
        obj(vec![("target_cid", s("T")), ("claim", s("early")), ("signer", s("a")), ("created_at", s("2024-01"))]),
        obj(vec![("target_cid", s("U")), ("claim", s("other")), ("signer", s("c")), ("created_at", s("2024-01"))]),
    ];
    let events = vec![obj(vec![
        ("kind", s("release")),
        ("subjects", JsonValue::Array(vec![s("T")])),
        ("metadata", obj(vec![("title", s("v1"))])),
        ("created_at", s("2024-01-15")),
    ])];
    let lines = story_lines_for(&atts, &events, "T");
    assert_eq!(
        lines,
        vec![
            "# Story for T",
            "",
            "## Events",
            "- [2024-01-15] release v1",
            "",
            "## Attestations",
            "- [2024-01] early (by a)",
            "- [2024-02] late (by b)",
            "",
        ]
    );
    let none = story_lines_for(&vec![], &vec![], "T");
    assert_eq!(none.last().unwrap(), "_No events or attestations found for this CID._");
}

// ── command-line client ────────────────────────────────────────────

#[test]
fn client_urls() {
    let c = Client::new("http://localhost:8080//", Some("tok"));
    assert_eq!(c.base, "http://localhost:8080");
    assert_eq!(c.url("/v1/receipts"), "http://localhost:8080/v1/receipts");
    assert_eq!(c.token.as_deref(), Some("tok"));
}

#[test]
fn receipt_cid_check() {
    let body = obj(vec![("b", JsonValue::Number(1)), ("a", s("x"))]);
    let computed = cid_b3(&to_bytes(&body));
    let rc = obj(vec![
        ("body_cid", s(&computed)),
        ("body", body.duplicate()),
        ("t", s("ubl/wf")),
        ("parents", JsonValue::Array(vec![s("p0"), JsonValue::Number(3)])),
    ]);
    let c = check_receipt_cid(&rc).unwrap();
    assert!(c.matches);
    assert_eq!(c.receipt_type.as_deref(), Some("ubl/wf"));
    assert_eq!(c.parents, vec!["p0"]);
    assert!(!c.has_signature);
    let bad = obj(vec![("body_cid", s("b3:00")), ("body", body.duplicate())]);
    assert!(!check_receipt_cid(&bad).unwrap().matches);
    assert_eq!(check_receipt_cid(&obj(vec![("body_cid", s("x"))])).unwrap_err(), "missing body field");
}

#[test]
fn receipts_grouped_by_type() {
    let reg = map(vec![
        ("c1", obj(vec![("t", s("ubl/wf")), ("body", obj(vec![("decision", s("ALLOW"))]))])),
        ("c2", obj(vec![("t", s("ubl/wa")), ("body", obj(vec![]))])),
        ("c3", obj(vec![("body", obj(vec![]))])),
        ("c4", obj(vec![("t", s("ubl/wf")), ("body", obj(vec![("decision", s("DENY"))]))])),
    ]);
    let g = group_receipts(&reg);
    let types: Vec<&str> = g.iter().map(|(t, _)| t.as_str()).collect();
    assert_eq!(types, vec!["ubl/wa", "ubl/wf", "unknown"]);
    assert_eq!(
        g[1].1,
        vec![("c1".to_string(), "ALLOW".to_string()), ("c4".to_string(), "DENY".to_string())]
    );
}

// ── TDLN engine ────────────────────────────────────────────────────

fn tdln_manifest(allow: bool) -> Manifest {
    Manifest {
        pipeline: "p".into(),
        in_grammar: Grammar {
            inputs: map(vec![("raw_b64", s(""))]),
            mappings: vec![Mapping { from: "raw_b64".into(), codec: "base64.decode".into(), to: "raw.bytes".into() }],
            output_from: "raw.bytes".into(),
        },
        out_grammar: Grammar { inputs: map(vec![("content", s(""))]), mappings: vec![], output_from: "content".into() },
        policy: Policy { allow },
    }
}

#[test]
fn tdln_runs_and_denies() {
    let vars = map(vec![("input_data", s("aGVsbG8="))]);
    let cfg = ExecuteConfig { version: "0.1.0".into() };
    let r = ubl::tdln::execute(&tdln_manifest(true), &vars, &cfg).unwrap();
    assert_eq!(r.dimension_stack, vec!["parse", "policy", "render"]);
    assert!(r.cid.starts_with("b3:"));
    let again = ubl::tdln::execute(&tdln_manifest(true), &vars, &cfg).unwrap();
    assert_eq!(again.cid, r.cid);
    let e = ubl::tdln::execute(&tdln_manifest(false), &vars, &cfg).unwrap_err();
    assert_eq!(e.message(), "validation: policy deny");
}

#[test]
fn listing_labels() {
    assert_eq!(receipt_type_label("ubl/wa"), "Write-Ahead");
    assert_eq!(receipt_type_label("ubl/transition"), "Transition");
    assert_eq!(receipt_type_label("ubl/wf"), "Write-Final");
    assert_eq!(receipt_type_label("ubl/attestation"), "ubl/attestation");
    let long = format!("b3:{}", "ab".repeat(32));
    assert_eq!(short_cid(&long), long.as_bytes()[..32].to_vec());
    assert_eq!(short_cid("b3:x"), b"b3:x".to_vec());
}
