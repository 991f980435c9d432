//! Transition receipt: proves the deterministic jump from layer -1 (raw
//! bytes) to layer 0 (rho, canonical); links preimage_raw_cid to rho_cid with
//! witness metadata.
use vstd::prelude::*;
use crate::canon::{canonical_bytes, spec_canonical_bytes};
use crate::cid::{cid_b3, spec_cid};
use crate::error::{strings_view, Result};
use crate::json::{entries_model, values_model, Json, JsonValue};

verus! {

#[derive(Debug, Clone, PartialEq, Eq)]
pub struct TransitionWitness {
    pub vm: String,
    pub bytecode_cid: Option<String>,
    pub fuel_spent: Option<u64>,
}

#[derive(Debug, Clone, PartialEq, Eq)]
pub struct TransitionReceiptBody {
    pub t: String,
    pub v: String,
    pub from_layer: String,
    pub to_layer: String,
    pub op: String,
    pub preimage_raw_cid: String,
    pub rho_cid: String,
    pub witness: TransitionWitness,
    pub ghost_mode: Option<bool>,
    pub parents: Vec<String>,
}

/// The JSON form of a witness; absent options are left out.
pub open spec fn witness_json(w: TransitionWitness) -> Json {
    Json::Obj(
        (match w.bytecode_cid {
            Some(c) => seq![("bytecode_cid"@, Json::Str(c@))],
            None => Seq::empty(),
        }) + (match w.fuel_spent {
            Some(f) => seq![("fuel_spent"@, Json::Num(f as int))],
            None => Seq::empty(),
        }) + seq![("vm"@, Json::Str(w.vm@))],
    )
}

/// The strings of a list, as JSON.
pub open spec fn strings_json(s: Seq<Seq<char>>) -> Json {
    Json::Arr(s.map_values(|x: Seq<char>| Json::Str(x)))
}

/// The JSON form of a transition body, keys in order; `ghost` is left out
/// when absent and `parents` when empty.
pub open spec fn body_json(b: TransitionReceiptBody) -> Json {
    Json::Obj(
        seq![("from_layer"@, Json::Str(b.from_layer@))] + (match b.ghost_mode {
            Some(g) => seq![("ghost"@, Json::Bool(g))],
            None => Seq::empty(),
        }) + seq![("op"@, Json::Str(b.op@))] + (if b.parents@.len() == 0 {
            Seq::empty()
        } else {
            seq![("parents"@, strings_json(strings_view(b.parents@)))]
        }) + seq![
            ("preimage_raw_cid"@, Json::Str(b.preimage_raw_cid@)),
            ("rho_cid"@, Json::Str(b.rho_cid@)),
            ("t"@, Json::Str(b.t@)),
            ("to_layer"@, Json::Str(b.to_layer@)),
            ("v"@, Json::Str(b.v@)),
            ("witness"@, witness_json(b.witness)),
        ],
    )
}

/// A list of strings as a JSON array.
pub fn strings_value(s: &Vec<String>) -> (r: JsonValue)
    ensures
        r.model() == strings_json(strings_view(s@)),
{
    let mut out: Vec<JsonValue> = Vec::new();
    let mut i: usize = 0;
    while i < s.len()
        invariant
            i <= s.len(),
            out@.len() == i,
            forall|k: int| 0 <= k < i ==> out@[k].model() == Json::Str(s@[k]@),
        decreases s.len() - i,
    {
        out.push(JsonValue::from_str(s[i].as_str()));
        i = i + 1;
    }
    proof {
        assert(values_model(out@) =~= strings_view(s@).map_values(|x: Seq<char>| Json::Str(x)));
    }
    JsonValue::Array(out)
}

impl TransitionWitness {
    /// The JSON form of this witness.
    pub fn to_json(&self) -> (r: JsonValue)
        ensures
            r.model() == witness_json(*self),
    {
        let mut o: Vec<(String, JsonValue)> = Vec::new();
        match &self.bytecode_cid {
            Some(c) => {
                o.push(("bytecode_cid".to_owned(), JsonValue::from_str(c.as_str())));
            },
            None => {},
        }
        match self.fuel_spent {
            Some(f) => {
                o.push(("fuel_spent".to_owned(), JsonValue::Number(f as i128)));
            },
            None => {},
        }
        o.push(("vm".to_owned(), JsonValue::from_str(self.vm.as_str())));
        proof {
            assert(entries_model(o@) =~= match witness_json(*self) {
                Json::Obj(es) => es,
                _ => Seq::empty(),
            });
        }
        JsonValue::Object(o)
    }
}

impl TransitionReceiptBody {
    pub fn new(
        preimage_raw_cid: String,
        rho_cid: String,
        vm: &str,
        bytecode_cid: Option<String>,
        fuel_spent: Option<u64>,
        ghost: bool,
    ) -> (r: TransitionReceiptBody)
        ensures
            r.t@ == "ubl/transition"@,
            r.v@ == "1"@,
            r.from_layer@ == "-1:rb"@,
            r.to_layer@ == "0:rho"@,
            r.op@ == "rho.normalize@ai-nrf1/v1"@,
            r.preimage_raw_cid == preimage_raw_cid,
            r.rho_cid == rho_cid,
            r.witness.vm@ == vm@,
            r.witness.bytecode_cid == bytecode_cid,
            r.witness.fuel_spent == fuel_spent,
            r.ghost_mode == (if ghost {
                Some(true)
            } else {
                None
            }),
            r.parents@.len() == 0,
    {
        TransitionReceiptBody {
            t: "ubl/transition".to_owned(),
            v: "1".to_owned(),
            from_layer: "-1:rb".to_owned(),
            to_layer: "0:rho".to_owned(),
            op: "rho.normalize@ai-nrf1/v1".to_owned(),
            preimage_raw_cid,
            rho_cid,
            witness: TransitionWitness { vm: vm.to_owned(), bytecode_cid, fuel_spent },
            ghost_mode: if ghost {
                Some(true)
            } else {
                None
            },
            parents: Vec::new(),
        }
    }

    /// The JSON form of this body (what `serde_json::to_value` gives).
    pub fn to_json(&self) -> (r: JsonValue)
        ensures
            r.model() == body_json(*self),
    {
        let mut o: Vec<(String, JsonValue)> = Vec::new();
        o.push(("from_layer".to_owned(), JsonValue::from_str(self.from_layer.as_str())));
        match self.ghost_mode {
            Some(g) => {
                o.push(("ghost".to_owned(), JsonValue::Bool(g)));
            },
            None => {},
        }
        o.push(("op".to_owned(), JsonValue::from_str(self.op.as_str())));
        if self.parents.len() > 0 {
            o.push(("parents".to_owned(), strings_value(&self.parents)));
        }
        o.push(("preimage_raw_cid".to_owned(), JsonValue::from_str(self.preimage_raw_cid.as_str())));
        o.push(("rho_cid".to_owned(), JsonValue::from_str(self.rho_cid.as_str())));
        o.push(("t".to_owned(), JsonValue::from_str(self.t.as_str())));
        o.push(("to_layer".to_owned(), JsonValue::from_str(self.to_layer.as_str())));
        o.push(("v".to_owned(), JsonValue::from_str(self.v.as_str())));
        o.push(("witness".to_owned(), self.witness.to_json()));
        proof {
            assert(entries_model(o@) =~= match body_json(*self) {
                Json::Obj(es) => es,
                _ => Seq::empty(),
            });
        }
        JsonValue::Object(o)
    }

    /// Canonical JSON bytes of this receipt body (for the CID and signing).
    pub fn canonical_bytes(&self) -> (r: Result<Vec<u8>>)
        ensures
            r matches Ok(b) && b@ == spec_canonical_bytes(body_json(*self)),
    {
        let val = self.to_json();
        canonical_bytes(&val)
    }

    /// Canonical CID of this receipt body (deterministic, transport-independent).
    pub fn cid(&self) -> (r: Result<String>)
        ensures
            r matches Ok(c) && c@ == spec_cid(spec_canonical_bytes(body_json(*self))),
    {
        let bytes = self.canonical_bytes()?;
        Ok(cid_b3(bytes.as_slice()))
    }
}

/// Builds a transition receipt for the raw-to-rho jump: `raw_bytes` before
/// normalization (layer -1), `rho_bytes` after (layer 0); with `ghost` the raw
/// bytes are not to be persisted.
pub fn build_transition(
    raw_bytes: &[u8],
    rho_bytes: &[u8],
    vm_tag: &str,
    bytecode_cid: Option<String>,
    fuel_spent: Option<u64>,
    ghost: bool,
) -> (r: TransitionReceiptBody)
    ensures
        r.t@ == "ubl/transition"@,
        r.v@ == "1"@,
        r.from_layer@ == "-1:rb"@,
        r.to_layer@ == "0:rho"@,
        r.op@ == "rho.normalize@ai-nrf1/v1"@,
        r.preimage_raw_cid@ == spec_cid(raw_bytes@),
        r.rho_cid@ == spec_cid(rho_bytes@),
        r.witness.vm@ == vm_tag@,
        r.witness.bytecode_cid == bytecode_cid,
        r.witness.fuel_spent == fuel_spent,
        r.ghost_mode == (if ghost {
            Some(true)
        } else {
            None
        }),
        r.parents@.len() == 0,
{
    let preimage_raw_cid = cid_b3(raw_bytes);
    let rho_cid = cid_b3(rho_bytes);
    TransitionReceiptBody::new(preimage_raw_cid, rho_cid, vm_tag, bytecode_cid, fuel_spent, ghost)
}

} // verus!
