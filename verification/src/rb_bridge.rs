//! Running an RB-VM chip: the request, the fuel it is given, and what is made
//! of the VM's outcome: the transition receipt (raw inputs, layer -1, to their
//! canonical form, layer 0), its CID and its detached JWS under the
//! development key. The VM itself runs outside the library and hands its
//! outcome in as plain values.
use vstd::prelude::*;
use vstd::utf8::encode_utf8;
use crate::canon::{canonical_bytes, spec_canonical_bytes};
use crate::cid::{cid_b3, spec_cid};
use crate::jws::{sign_detached, spec_sign_detached, JwsDetached};
use crate::json::{entries_model, text, to_bytes, values_model, Json, JsonValue};
use crate::receipt::{dev_seed, jws_json};
use crate::error::{ErrModel, RuntimeError};
use crate::text::{append_str, string_from_chars};
use crate::transition::build_transition;

verus! {

/// A chip to run, with its inputs.
#[derive(Debug)]
pub struct ExecuteRbReq {
    /// The chip's TLV bytecode
    pub chip: Vec<u8>,
    pub inputs: Vec<JsonValue>,
    pub ghost_mode: Option<bool>,
    /// Fuel for the VM; the default is [`default_fuel`]
    pub fuel: Option<u64>,
}

/// What the VM reports of a finished run.
#[derive(Debug, Clone, PartialEq, Eq)]
pub struct RbOutcome {
    /// CID of the receipt the chip emitted, if any
    pub rc_cid: Option<String>,
    pub steps: u64,
    pub fuel_used: u64,
}

/// The result of running a chip.
#[derive(Debug)]
pub struct ExecuteRbRes {
    pub rc_cid: Option<String>,
    pub steps: u64,
    pub fuel_used: u64,
    /// `{body, cid, proof}` of the transition receipt
    pub transition_receipt: Option<JsonValue>,
}

/// Why a chip run failed, as the VM and its decoder report it: the bytecode
/// did not decode (with the decoder's message), a policy denied (with its
/// reason), the fuel ran out, or another VM failure (with its message).
#[derive(Debug, Clone, PartialEq, Eq)]
pub enum VmFailure {
    Decode(String),
    Deny(String),
    FuelExhausted,
    Other(String),
}

/// The runtime error a failed chip run is answered with.
pub open spec fn vm_error_model(f: VmFailure) -> ErrModel {
    match f {
        VmFailure::Decode(m) => ErrModel::Engine("TLV decode: "@ + m@),
        VmFailure::Deny(reason) => ErrModel::PolicyDeny(reason@),
        VmFailure::FuelExhausted => ErrModel::Engine("fuel exhausted"@),
        VmFailure::Other(m) => ErrModel::Engine(m@),
    }
}

/// The runtime error of a failed chip run: a denial stays a policy denial,
/// everything else is an engine error.
pub fn vm_error(f: VmFailure) -> (r: RuntimeError)
    ensures
        r@ == vm_error_model(f),
{
    match f {
        VmFailure::Decode(m) => {
            let mut out: Vec<char> = Vec::new();
            append_str(&mut out, "TLV decode: ");
            append_str(&mut out, m.as_str());
            RuntimeError::Engine(string_from_chars(&out))
        },
        VmFailure::Deny(reason) => RuntimeError::PolicyDeny(reason),
        VmFailure::FuelExhausted => RuntimeError::Engine("fuel exhausted".to_owned()),
        VmFailure::Other(m) => RuntimeError::Engine(m),
    }
}

/// The fuel a run gets when the request names none.
pub open spec fn default_fuel() -> u64 {
    50_000
}

/// The fuel limit of a request.
pub fn fuel_limit(req: &ExecuteRbReq) -> (r: u64)
    ensures
        r == match req.fuel {
            Some(f) => f,
            None => default_fuel(),
        },
{
    match req.fuel {
        Some(f) => f,
        None => 50_000,
    }
}

/// The VM tag of the transition witness.
pub open spec fn rb_vm_tag() -> Seq<char> {
    "rb-vm@0.1.0"@
}

/// The body of the transition receipt of a run (as `serde_json::to_value`
/// gives it): the CID of the inputs' compact JSON bytes as preimage, the CID
/// of their canonical bytes as rho, the chip's CID and the fuel used as
/// witness; `ghost` only when true.
pub open spec fn rb_body_json(inputs: Seq<Json>, chip: Seq<u8>, fuel_used: u64, ghost: bool) -> Json {
    Json::Obj(
        seq![("from_layer"@, Json::Str("-1:rb"@))] + (if ghost {
            seq![("ghost"@, Json::Bool(true))]
        } else {
            Seq::empty()
        }) + seq![
            ("op"@, Json::Str("rho.normalize@ai-nrf1/v1"@)),
            ("preimage_raw_cid"@, Json::Str(spec_cid(encode_utf8(text(Json::Arr(inputs)))))),
            ("rho_cid"@, Json::Str(spec_cid(spec_canonical_bytes(Json::Arr(inputs))))),
            ("t"@, Json::Str("ubl/transition"@)),
            ("to_layer"@, Json::Str("0:rho"@)),
            ("v"@, Json::Str("1"@)),
            (
                "witness"@,
                Json::Obj(
                    seq![
                        ("bytecode_cid"@, Json::Str(spec_cid(chip))),
                        ("fuel_spent"@, Json::Num(fuel_used as int)),
                        ("vm"@, Json::Str(rb_vm_tag())),
                    ],
                ),
            ),
        ],
    )
}

/// The envelope of a transition body: the body, the CID of its canonical
/// bytes, and their detached JWS under the development key `did:dev#k1`.
pub open spec fn envelope_json(body: Json) -> Json {
    Json::Obj(
        seq![
            ("body"@, body),
            ("cid"@, Json::Str(spec_cid(spec_canonical_bytes(body)))),
            (
                "proof"@,
                jws_json(spec_sign_detached(spec_canonical_bytes(body), dev_seed(), "did:dev#k1"@)),
            ),
        ],
    )
}

fn jws_value(p: &JwsDetached) -> (r: JsonValue)
    ensures
        r.model() == jws_json(p@),
{
    let mut o: Vec<(String, JsonValue)> = Vec::new();
    o.push(("kid".to_owned(), JsonValue::from_str(p.kid.as_str())));
    o.push(("protected".to_owned(), JsonValue::from_str(p.protected.as_str())));
    o.push(("signature".to_owned(), JsonValue::from_str(p.signature.as_str())));
    proof {
        assert(entries_model(o@) =~= match jws_json(p@) {
            Json::Obj(es) => es,
            _ => Seq::empty(),
        });
    }
    JsonValue::Object(o)
}

fn copy_values(v: &Vec<JsonValue>) -> (r: Vec<JsonValue>)
    ensures
        values_model(r@) == values_model(v@),
{
    let mut out: Vec<JsonValue> = Vec::new();
    let mut i: usize = 0;
    while i < v.len()
        invariant
            i <= v.len(),
            out@.len() == i,
            forall|k: int| 0 <= k < i ==> #[trigger] out@[k].model() == v@[k].model(),
        decreases v.len() - i,
    {
        out.push(v[i].duplicate());
        i = i + 1;
    }
    assert forall|k: int| 0 <= k < v@.len() implies values_model(out@)[k] == values_model(v@)[k] by {
        assert(out@[k].model() == v@[k].model());
    }
    assert(values_model(out@) =~= values_model(v@));
    out
}

/// What a finished run gives back: the VM's outcome and the transition
/// receipt envelope, for the request's inputs, chip and ghost flag.
pub fn finish_rb(req: &ExecuteRbReq, outcome: RbOutcome) -> (r: ExecuteRbRes)
    ensures
        r.rc_cid == outcome.rc_cid,
        r.steps == outcome.steps,
        r.fuel_used == outcome.fuel_used,
        r.transition_receipt matches Some(tr) && tr.model() == envelope_json(
            rb_body_json(
                values_model(req.inputs@),
                req.chip@,
                outcome.fuel_used,
                match req.ghost_mode {
                    Some(g) => g,
                    None => false,
                },
            ),
        ),
{
    let ghost_mode = match req.ghost_mode {
        Some(g) => g,
        None => false,
    };
    let inputs = JsonValue::Array(copy_values(&req.inputs));
    // (A) raw bytes before normalization (layer -1)
    let raw_bytes = to_bytes(&inputs);
    // (B) rho bytes after normalization (layer 0)
    let rho_bytes = match canonical_bytes(&inputs) {
        Ok(b) => b,
        Err(_) => Vec::new(),
    };
    let bytecode_cid = cid_b3(req.chip.as_slice());
    // (C) the transition receipt
    let tr = build_transition(
        raw_bytes.as_slice(),
        rho_bytes.as_slice(),
        "rb-vm@0.1.0",
        Some(bytecode_cid),
        Some(outcome.fuel_used),
        ghost_mode,
    );
    let body = tr.to_json();
    proof {
        let want = rb_body_json(values_model(req.inputs@), req.chip@, outcome.fuel_used, ghost_mode);
        assert(inputs.model() == Json::Arr(values_model(req.inputs@)));
        let we = seq![
            ("bytecode_cid"@, Json::Str(spec_cid(req.chip@))),
            ("fuel_spent"@, Json::Num(outcome.fuel_used as int)),
            ("vm"@, Json::Str(rb_vm_tag())),
        ];
        assert(crate::transition::witness_json(tr.witness) == Json::Obj(we)) by {
            let got = match crate::transition::witness_json(tr.witness) {
                Json::Obj(es) => es,
                _ => Seq::empty(),
            };
            assert(got =~= we);
        }
        let be = match crate::transition::body_json(tr) {
            Json::Obj(es) => es,
            _ => Seq::empty(),
        };
        let re = match want {
            Json::Obj(es) => es,
            _ => Seq::empty(),
        };
        assert(be =~= re);
        assert(body.model() == want);
    }
    let tr_body_bytes = match canonical_bytes(&body) {
        Ok(b) => b,
        Err(_) => Vec::new(),
    };
    let tr_cid = cid_b3(tr_body_bytes.as_slice());
    // (D) detached JWS over the canonical body bytes
    let sign_key: [u8; 32] = [7u8; 32];
    assert(sign_key@ =~= dev_seed());
    let jws = sign_detached(tr_body_bytes.as_slice(), &sign_key, "did:dev#k1");
    let mut env: Vec<(String, JsonValue)> = Vec::new();
    env.push(("body".to_owned(), body));
    env.push(("cid".to_owned(), JsonValue::from_str(tr_cid.as_str())));
    env.push(("proof".to_owned(), jws_value(&jws)));
    let ghost em = env@;
    proof {
        assert(entries_model(em) =~= match envelope_json(
            rb_body_json(values_model(req.inputs@), req.chip@, outcome.fuel_used, ghost_mode),
        ) {
            Json::Obj(es) => es,
            _ => Seq::empty(),
        });
    }
    ExecuteRbRes {
        rc_cid: outcome.rc_cid,
        steps: outcome.steps,
        fuel_used: outcome.fuel_used,
        transition_receipt: Some(JsonValue::Object(env)),
    }
}

} // verus!
