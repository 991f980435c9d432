use ubl::json::JsonValue;
use ubl::transition::build_transition;

#[test]
fn transition_receipt_deterministic() {
    let raw = b"hello raw";
    let rho = b"hello canonical";
    let tr1 = build_transition(raw, rho, "rb-vm@0.1.0", None, Some(42), false);
    let tr2 = build_transition(raw, rho, "rb-vm@0.1.0", None, Some(42), false);
    assert_eq!(tr1.cid().unwrap(), tr2.cid().unwrap());
}

#[test]
fn transition_receipt_fields() {
    let tr = build_transition(b"raw", b"rho", "rb-vm@0.1.0", None, None, false);
    assert_eq!(tr.t, "ubl/transition");
    assert_eq!(tr.v, "1");
    assert_eq!(tr.from_layer, "-1:rb");
    assert_eq!(tr.to_layer, "0:rho");
    assert_eq!(tr.op, "rho.normalize@ai-nrf1/v1");
    assert!(tr.preimage_raw_cid.starts_with("b3:"));
    assert!(tr.rho_cid.starts_with("b3:"));
    assert!(tr.ghost_mode.is_none());
}

#[test]
fn transition_receipt_ghost() {
    let tr = build_transition(b"raw", b"rho", "rb-vm@0.1.0", None, None, true);
    assert_eq!(tr.ghost_mode, Some(true));
}

#[test]
fn transition_receipt_different_input_different_cid() {
    let tr1 = build_transition(b"input_a", b"rho_a", "rb-vm@0.1.0", None, None, false);
    let tr2 = build_transition(b"input_b", b"rho_b", "rb-vm@0.1.0", None, None, false);
    assert_ne!(tr1.cid().unwrap(), tr2.cid().unwrap());
}

#[test]
fn transition_receipt_cid_stable_10x() {
    let raw = b"stable test input";
    let rho = b"stable canonical output";
    let first = build_transition(raw, rho, "rb-vm@0.1.0", Some("b3:abc".into()), Some(99), false);
    let first_cid = first.cid().unwrap();
    for _ in 0..10 {
        let tr = build_transition(raw, rho, "rb-vm@0.1.0", Some("b3:abc".into()), Some(99), false);
        assert_eq!(tr.cid().unwrap(), first_cid);
    }
}

#[test]
fn transition_cids_are_cids_of_the_layers() {
    let tr = build_transition(b"raw", b"rho", "vm", None, None, false);
    assert_eq!(tr.preimage_raw_cid, ubl::cid::cid_b3(b"raw"));
    assert_eq!(tr.rho_cid, ubl::cid::cid_b3(b"rho"));
}

#[test]
fn transition_canonical_bytes_are_sorted_json() {
    let tr = build_transition(b"raw", b"rho", "vm", Some("b3:abc".into()), Some(7), true);
    let bytes = tr.canonical_bytes().unwrap();
    let expected = format!(
        r#"{{"from_layer":"-1:rb","ghost":true,"op":"rho.normalize@ai-nrf1/v1","preimage_raw_cid":"{}","rho_cid":"{}","t":"ubl/transition","to_layer":"0:rho","v":"1","witness":{{"bytecode_cid":"b3:abc","fuel_spent":7,"vm":"vm"}}}}"#,
        tr.preimage_raw_cid, tr.rho_cid
    );
    assert_eq!(String::from_utf8(bytes).unwrap(), expected);
    assert_eq!(tr.cid().unwrap(), ubl::cid::cid_b3(expected.as_bytes()));
}

fn from_serde(v: &serde_json::Value) -> JsonValue {
    match v {
        serde_json::Value::Null => JsonValue::Null,
        serde_json::Value::Bool(b) => JsonValue::Bool(*b),
        serde_json::Value::Number(n) => JsonValue::Number(n.as_i64().expect("integer") as i128),
        serde_json::Value::String(x) => JsonValue::Str(x.clone()),
        serde_json::Value::Array(a) => JsonValue::Array(a.iter().map(from_serde).collect()),
        serde_json::Value::Object(o) => {
            let mut m = Vec::new();
            for (k, x) in o {
                ubl::json::obj_insert(&mut m, k.clone(), from_serde(x));
            }
            JsonValue::Object(m)
        }
    }
}

fn canonical_of(raw: &[u8]) -> Vec<u8> {
    let v: serde_json::Value = serde_json::from_slice(raw).unwrap();
    ubl::canon::canonical_bytes(&from_serde(&v)).unwrap()
}

#[test]
fn replay_forense() {
    let raw = br#"{"age":17,"name":"Alice"}"#;
    let rho_bytes = canonical_of(raw);
    let rho_cid_expected = ubl::cid::cid_b3(&rho_bytes);

    let tr = build_transition(raw, &rho_bytes, "rb-vm@0.1.0", None, None, false);
    assert_eq!(tr.rho_cid, rho_cid_expected, "replay must match rho_cid");

    let replay_rho = canonical_of(raw);
    let replay_cid = ubl::cid::cid_b3(&replay_rho);
    assert_eq!(replay_cid, tr.rho_cid, "forensic replay must produce same rho_cid");
}

#[test]
fn replay_negative_mutated_byte() {
    let raw = br#"{"age":17,"name":"Alice"}"#;
    let rho_bytes = canonical_of(raw);
    let tr = build_transition(raw, &rho_bytes, "rb-vm@0.1.0", None, None, false);

    let mut mutated = raw.to_vec();
    mutated[7] = b'8';
    let mutated_rho = canonical_of(&mutated);
    let mutated_cid = ubl::cid::cid_b3(&mutated_rho);
    assert_ne!(mutated_cid, tr.rho_cid, "mutated input must NOT match original rho_cid");
}

#[test]
fn cid_len() {
    let c = ubl::cid::cid_b3(b"hello");
    assert!(c.starts_with("b3:"));
    assert_eq!(c.len(), 2 + 1 + 64);
}

#[test]
fn cid_is_blake3_in_lower_hex() {
    let digest = blake3::hash(b"hello");
    let hex: String = digest.as_bytes().iter().map(|b| format!("{b:02x}")).collect();
    assert_eq!(ubl::cid::cid_b3(b"hello"), format!("b3:{hex}"));
}
