//! The state of the HTTP service and its decisions: running a pipeline with
//! receipts for a client (the key-scope check, chaining to the last tip,
//! idempotency; a ghost run answers but persists nothing), answering a chip run
//! (storing its transition receipt) and looking up transition receipts. The
//! service itself only moves requests and answers.
use vstd::prelude::*;
use crate::access::ClientInfo;
use crate::assoc::{contains_str, has_str};
use crate::engine::{ExecuteConfig, Manifest};
use crate::digest::{base64_decode, spec_base64_decode};
use crate::error::{err_text, strings_view, ErrModel, Result};
use crate::json::{
    entries_model, json_get, map_get, map_insert, obj_get, obj_insert, values_model, Json, JsonMap,
    JsonValue,
};
use crate::receipt::{
    idempotency_key, inputs_raw_cid, lemma_stamped_without_logline, opt_str_view, receipt_json,
    run_with_receipts, spec_run, with_ghost, wa_body, KeyRing, KeyRingModel, ReceiptModel, RunModel,
    Receipt, RunOpts,
};
use crate::rb_bridge::{envelope_json, finish_rb, rb_body_json, ExecuteRbReq, RbOutcome};
use crate::scope::kid_permitted;
use crate::text::{append_str, chars_of, find_from, split_once_chars, string_from_chars};

verus! {

/// What the service keeps between requests.
#[derive(Debug)]
pub struct ServiceState {
    /// Transition receipts by CID (and by rho CID)
    pub transition_receipts: JsonMap,
    /// Stored receipts by body CID
    pub receipt_chain: JsonMap,
    /// Idempotency keys already run (`pipeline:inputs_raw_cid`)
    pub seen: Vec<String>,
    pub keys: KeyRing,
    /// Tip of the stored chain
    pub last_tip: Option<String>,
    /// Where the service is reached, for the URLs it answers with
    pub base_url: String,
}

pub struct ServiceModel {
    pub transition_receipts: Seq<(Seq<char>, Json)>,
    pub receipt_chain: Seq<(Seq<char>, Json)>,
    pub seen: Seq<Seq<char>>,
    pub keys: KeyRingModel,
    pub last_tip: Option<Seq<char>>,
    pub base_url: Seq<char>,
}

impl View for ServiceState {
    type V = ServiceModel;

    open spec fn view(&self) -> ServiceModel {
        ServiceModel {
            transition_receipts: entries_model(self.transition_receipts@),
            receipt_chain: entries_model(self.receipt_chain@),
            seen: strings_view(self.seen@),
            keys: self.keys@,
            last_tip: crate::policy::opt_view(self.last_tip),
            base_url: self.base_url@,
        }
    }
}

/// An HTTP answer: status code and JSON body.
#[derive(Debug)]
pub struct Answer {
    pub status: u16,
    pub body: JsonValue,
}

// ---------------------------------------------------------------------------
// Running a pipeline
// ---------------------------------------------------------------------------

/// The refusal of a client that may not use the service's signing key.
pub open spec fn kid_denied_json(client_id: Seq<char>, kid: Seq<char>) -> Json {
    Json::Obj(
        seq![
            (
                "detail"@,
                Json::Str("client '"@ + client_id + "' not authorized for kid '"@ + kid + "'"@),
            ),
            ("error"@, Json::Str("kid_scope_denied"@)),
        ],
    )
}

/// The answer to a refused run: 409 for a replay, 422 otherwise.
pub open spec fn failed_status(detail: Seq<char>) -> u16 {
    if find_from(detail, "duplicate request"@, 0) is Some {
        409
    } else {
        422
    }
}

pub open spec fn failed_json(detail: Seq<char>) -> Json {
    Json::Obj(seq![("detail"@, Json::Str(detail)), ("error"@, Json::Str("execute_failed"@))])
}

/// The answer to a run: the tip, the decision and stages of the write-final
/// body, the ghost flag, the three receipts, and the tip's receipt URL.
pub open spec fn run_json(
    wa: ReceiptModel,
    tr: ReceiptModel,
    wf: ReceiptModel,
    ghost_mode: bool,
    base_url: Seq<char>,
) -> Json {
    Json::Obj(
        seq![
            ("cid"@, Json::Str(wf.body_cid)),
            (
                "decision"@,
                match json_get(wf.body, "decision"@) {
                    Some(d) => d,
                    None => Json::Null,
                },
            ),
            (
                "dimension_stack"@,
                match json_get(wf.body, "dimension_stack"@) {
                    Some(d) => d,
                    None => Json::Arr(Seq::empty()),
                },
            ),
            ("ghost"@, Json::Bool(ghost_mode)),
            (
                "receipts"@,
                Json::Obj(
                    seq![
                        ("transition"@, receipt_json(tr)),
                        ("wa"@, receipt_json(wa)),
                        ("wf"@, receipt_json(wf)),
                    ],
                ),
            ),
            ("tip_cid"@, Json::Str(wf.body_cid)),
            ("url"@, Json::Str(base_url + "/v1/receipt/"@ + wf.body_cid)),
        ],
    )
}

/// The chain with the receipts of a run stored, unless in ghost mode.
pub open spec fn chain_after(
    chain: Seq<(Seq<char>, Json)>,
    wa: ReceiptModel,
    tr: ReceiptModel,
    wf: ReceiptModel,
    ghost_mode: bool,
) -> Seq<(Seq<char>, Json)> {
    if ghost_mode {
        chain
    } else {
        map_insert(
            map_insert(map_insert(chain, wa.body_cid, receipt_json(wa)), tr.body_cid, receipt_json(tr)),
            wf.body_cid,
            receipt_json(wf),
        )
    }
}

/// The idempotency keys with `key` added, if it is new.
pub open spec fn seen_after(seen: Seq<Seq<char>>, key: Seq<char>) -> Seq<Seq<char>> {
    if seen.contains(key) {
        seen
    } else {
        seen.push(key)
    }
}

/// What running a pipeline answers, and the state it leaves: a client whose
/// key ids exclude the service's key is refused (403) and nothing changes; a
/// refused run (replay, bad key id) is answered 409 or 422 and nothing
/// changes; otherwise the run extends the last tip and, unless in ghost mode,
/// its receipts are stored, its idempotency key is recorded and its tip
/// becomes the last tip. A ghost run answers as a run does and leaves the
/// state as it was.
pub open spec fn spec_execute_runtime(
    s: ServiceModel,
    m: Manifest,
    vars: Seq<(Seq<char>, Json)>,
    ghost_mode: bool,
    client: Option<(Seq<char>, Seq<String>)>,
) -> (u16, Json, ServiceModel) {
    match client {
        Some((id, kids)) if !kid_permitted(kids, s.keys.active_kid) => (
            403,
            kid_denied_json(id, s.keys.active_kid),
            s,
        ),
        _ => match spec_run(m, vars, s.last_tip, Some(s.seen), s.keys.active, s.keys.active_kid) {
            Err(e) => (failed_status(err_text(e)), failed_json(err_text(e)), s),
            Ok(run) => {
                let wa = with_ghost(run.wa, ghost_mode);
                let tr = with_ghost(run.transition, ghost_mode);
                let wf = with_ghost(run.wf, ghost_mode);
                (
                    200,
                    run_json(wa, tr, wf, ghost_mode, s.base_url),
                    ServiceModel {
                        transition_receipts: s.transition_receipts,
                        receipt_chain: chain_after(s.receipt_chain, wa, tr, wf, ghost_mode),
                        seen: if ghost_mode {
                            s.seen
                        } else {
                            seen_after(s.seen, idempotency_key(m.pipeline@, inputs_raw_cid(vars)))
                        },
                        keys: s.keys,
                        last_tip: if ghost_mode {
                            s.last_tip
                        } else {
                            Some(wf.body_cid)
                        },
                        base_url: s.base_url,
                    },
                )
            },
        },
    }
}

pub open spec fn client_view(c: Option<&ClientInfo>) -> Option<(Seq<char>, Seq<String>)> {
    match c {
        Some(x) => Some((x.client_id@, x.allowed_kids@)),
        None => None,
    }
}

fn str_entry(key: &str, val: &str) -> (r: (String, JsonValue))
    ensures
        r.0@ == key@,
        r.1.model() == Json::Str(val@),
{
    (key.to_owned(), JsonValue::from_str(val))
}

/// The string under `key`, or the empty string.
pub open spec fn str_or_empty(j: Option<Json>) -> Seq<char> {
    match crate::audit::json_str(j) {
        Some(s) => s,
        None => ""@,
    }
}

fn str_at(v: &JsonValue, key: &str) -> (r: String)
    ensures
        r@ == str_or_empty(json_get(v.model(), key@)),
{
    match v.get(key) {
        Some(x) => match x.as_str() {
            Some(s) => s.clone(),
            None => "".to_owned(),
        },
        None => "".to_owned(),
    }
}

/// The idempotency key read back from a write-ahead body:
/// `intention.pipeline:inputs_raw_cid`, a missing part read as empty.
pub open spec fn key_of_wa_body(b: Json) -> Seq<char> {
    let pipeline = match json_get(b, "intention"@) {
        Some(i) => str_or_empty(json_get(i, "pipeline"@)),
        None => ""@,
    };
    pipeline + ":"@ + str_or_empty(json_get(b, "inputs_raw_cid"@))
}

fn key_from_wa_body(body: &JsonValue) -> (r: String)
    ensures
        r@ == key_of_wa_body(body.model()),
{
    let inputs_cid = str_at(body, "inputs_raw_cid");
    let pipeline = match body.get("intention") {
        Some(i) => str_at(i, "pipeline"),
        None => "".to_owned(),
    };
    let mut key: Vec<char> = Vec::new();
    append_str(&mut key, pipeline.as_str());
    append_str(&mut key, ":");
    append_str(&mut key, inputs_cid.as_str());
    string_from_chars(&key)
}

/// The idempotency key recorded in a write-ahead body is the run's key.
proof fn lemma_wa_body_key(prev_tip: Option<Seq<char>>, raw_cid: Seq<char>, pipeline: Seq<char>)
    ensures
        key_of_wa_body(wa_body(prev_tip, raw_cid, pipeline)) == idempotency_key(pipeline, raw_cid),
{
    reveal_strlit("inputs_raw_cid");
    reveal_strlit("intention");
    reveal_strlit("op");
    reveal_strlit("pipeline");
    reveal_with_fuel(map_get, 2);
    let es = match wa_body(prev_tip, raw_cid, pipeline) {
        Json::Obj(es) => es,
        _ => Seq::empty(),
    };
    assert(es[0].0 == "inputs_raw_cid"@);
    assert(es[1].0 == "intention"@);
    assert("inputs_raw_cid"@.len() != "intention"@.len());
    assert(es.drop_first()[0] == es[1]);
    assert(map_get(es, "inputs_raw_cid"@) == Some(Json::Str(raw_cid)));
    assert(map_get(es, "intention"@) == Some(es[1].1));
    let inner = seq![("op"@, Json::Str("execute"@)), ("pipeline"@, Json::Str(pipeline))];
    assert("op"@.len() != "pipeline"@.len());
    assert(inner.drop_first()[0] == inner[1]);
    assert(map_get(inner, "pipeline"@) == Some(Json::Str(pipeline)));
}

fn kid_denied_body(client_id: &str, kid: &str) -> (r: JsonValue)
    ensures
        r.model() == kid_denied_json(client_id@, kid@),
{
    let mut detail: Vec<char> = Vec::new();
    append_str(&mut detail, "client '");
    append_str(&mut detail, client_id);
    append_str(&mut detail, "' not authorized for kid '");
    append_str(&mut detail, kid);
    append_str(&mut detail, "'");
    let detail = string_from_chars(&detail);
    let mut o: Vec<(String, JsonValue)> = Vec::new();
    o.push(str_entry("detail", detail.as_str()));
    o.push(str_entry("error", "kid_scope_denied"));
    proof {
        assert(entries_model(o@) =~= match kid_denied_json(client_id@, kid@) {
            Json::Obj(es) => es,
            _ => Seq::empty(),
        });
    }
    JsonValue::Object(o)
}

fn failed_answer(detail: &str) -> (r: Answer)
    ensures
        r.status == failed_status(detail@),
        r.body.model() == failed_json(detail@),
{
    let pat = chars_of("duplicate request");
    let replay = split_once_chars(&chars_of(detail), &pat).is_some();
    let status: u16 = if replay {
        409
    } else {
        422
    };
    let mut o: Vec<(String, JsonValue)> = Vec::new();
    o.push(str_entry("detail", detail));
    o.push(str_entry("error", "execute_failed"));
    proof {
        assert(entries_model(o@) =~= match failed_json(detail@) {
            Json::Obj(es) => es,
            _ => Seq::empty(),
        });
    }
    Answer { status, body: JsonValue::Object(o) }
}

fn store_run(chain: &mut JsonMap, wa: &Receipt, tr: &Receipt, wf: &Receipt, ghost_mode: bool)
    ensures
        entries_model(final(chain)@) == chain_after(
            entries_model(old(chain)@),
            wa@,
            tr@,
            wf@,
            ghost_mode,
        ),
{
    if !ghost_mode {
        obj_insert(chain, wa.body_cid.clone(), wa.to_json());
        obj_insert(chain, tr.body_cid.clone(), tr.to_json());
        obj_insert(chain, wf.body_cid.clone(), wf.to_json());
    }
}

fn record_seen(seen: &mut Vec<String>, key: String)
    ensures
        strings_view(final(seen)@) == seen_after(strings_view(old(seen)@), key@),
{
    proof {
        crate::receipt::lemma_contains_str(seen@, key@);
    }
    if !has_str(seen, key.as_str()) {
        let ghost before = seen@;
        seen.push(key);
        assert(strings_view(seen@) =~= strings_view(before).push(key@));
    }
}

fn run_body(wa: &Receipt, tr: &Receipt, wf: &Receipt, ghost_mode: bool, base_url: &str) -> (r:
    JsonValue)
    ensures
        r.model() == run_json(wa@, tr@, wf@, ghost_mode, base_url@),
{
    let decision = match wf.body.get("decision") {
        Some(d) => d.duplicate(),
        None => JsonValue::Null,
    };
    let stack = match wf.body.get("dimension_stack") {
        Some(d) => d.duplicate(),
        None => JsonValue::Array(Vec::new()),
    };
    let mut receipts: Vec<(String, JsonValue)> = Vec::new();
    receipts.push(("transition".to_owned(), tr.to_json()));
    receipts.push(("wa".to_owned(), wa.to_json()));
    receipts.push(("wf".to_owned(), wf.to_json()));
    let ghost rm = receipts@;
    let mut url: Vec<char> = Vec::new();
    append_str(&mut url, base_url);
    append_str(&mut url, "/v1/receipt/");
    append_str(&mut url, wf.body_cid.as_str());
    let url = string_from_chars(&url);
    let mut o: Vec<(String, JsonValue)> = Vec::new();
    o.push(str_entry("cid", wf.body_cid.as_str()));
    o.push(("decision".to_owned(), decision));
    o.push(("dimension_stack".to_owned(), stack));
    o.push(("ghost".to_owned(), JsonValue::Bool(ghost_mode)));
    o.push(("receipts".to_owned(), JsonValue::Object(receipts)));
    o.push(str_entry("tip_cid", wf.body_cid.as_str()));
    o.push(str_entry("url", url.as_str()));
    proof {
        assert(crate::json::values_model(Seq::<JsonValue>::empty()) =~= Seq::<Json>::empty());
        assert(entries_model(rm) =~= seq![
            ("transition"@, receipt_json(tr@)),
            ("wa"@, receipt_json(wa@)),
            ("wf"@, receipt_json(wf@)),
        ]);
        assert(entries_model(o@) =~= match run_json(wa@, tr@, wf@, ghost_mode, base_url@) {
            Json::Obj(es) => es,
            _ => Seq::empty(),
        });
    }
    JsonValue::Object(o)
}

/// A pattern found at `j` (at or after `i`) is found searching from `i`.
proof fn lemma_find_from_some(s: Seq<char>, p: Seq<char>, i: int, j: int)
    requires
        0 <= i <= j,
        j + p.len() <= s.len(),
        s.subrange(j, j + p.len()) == p,
    ensures
        find_from(s, p, i) is Some,
    decreases j - i,
{
    if s.subrange(i, i + p.len()) != p {
        lemma_find_from_some(s, p, i + 1, j);
    }
}

/// A refused run whose message is a replay's is answered 409.
proof fn lemma_replay_status(pipeline: Seq<char>, raw_cid: Seq<char>)
    ensures
        failed_status(err_text(ErrModel::Validation(crate::receipt::replay_message(pipeline, raw_cid))))
            == 409,
{
    reveal_strlit("validation: ");
    reveal_strlit("duplicate request (replay): pipeline=");
    reveal_strlit("duplicate request");
    let t = err_text(ErrModel::Validation(crate::receipt::replay_message(pipeline, raw_cid)));
    let p = "duplicate request"@;
    assert(t.subrange(12, 12 + p.len() as int) =~= p);
    lemma_find_from_some(t, p, 0, 12);
}

/// Idempotency of the service: a request that ran (200) and was recorded
/// (not in ghost mode) is refused when it comes again, ghost or not, with 409
/// and the replay message, and the refusal leaves the state as the first run
/// left it.
pub proof fn lemma_replay_refused(
    s: ServiceModel,
    m: Manifest,
    vars: Seq<(Seq<char>, Json)>,
    first_ghost: bool,
    again_ghost: bool,
    client: Option<(Seq<char>, Seq<String>)>,
)
    requires
        spec_execute_runtime(s, m, vars, first_ghost, client).0 == 200,
        !first_ghost,
    ensures
        ({
            let s1 = spec_execute_runtime(s, m, vars, first_ghost, client).2;
            let again = spec_execute_runtime(s1, m, vars, again_ghost, client);
            &&& again.0 == 409
            &&& again.1 == failed_json(
                err_text(
                    ErrModel::Validation(
                        crate::receipt::replay_message(m.pipeline@, inputs_raw_cid(vars)),
                    ),
                ),
            )
            &&& again.2 == s1
        }),
{
    let key = idempotency_key(m.pipeline@, inputs_raw_cid(vars));
    let s1 = spec_execute_runtime(s, m, vars, first_ghost, client).2;
    assert(s1.seen.contains(key)) by {
        if !s.seen.contains(key) {
            assert(s1.seen == s.seen.push(key));
            assert(s1.seen[s.seen.len() as int] == key);
        }
    }
    lemma_replay_status(m.pipeline@, inputs_raw_cid(vars));
}

/// A ghost run is not persisted: whatever it answers, the service's state
/// is left as it was.
pub proof fn lemma_ghost_run_leaves_state(
    s: ServiceModel,
    m: Manifest,
    vars: Seq<(Seq<char>, Json)>,
    client: Option<(Seq<char>, Seq<String>)>,
)
    ensures
        spec_execute_runtime(s, m, vars, true, client).2 == s,
{
}

// ---------------------------------------------------------------------------
// Running a chip
// ---------------------------------------------------------------------------

/// A request to run a chip, its bytecode in standard base64.
#[derive(Debug)]
pub struct ExecRbRequest {
    pub chip_b64: String,
    pub inputs: Vec<JsonValue>,
    pub ghost_mode: Option<bool>,
    pub fuel: Option<u64>,
}

/// The chip request with its bytecode decoded; `None` when the base64 is bad.
pub open spec fn rb_request_chip(chip_b64: Seq<char>) -> Option<Seq<u8>> {
    spec_base64_decode(chip_b64)
}

impl ExecRbRequest {
    /// The runnable request, or `None` when the chip is not valid base64.
    pub fn to_rb_req(&self) -> (r: Option<ExecuteRbReq>)
        ensures
            match rb_request_chip(self.chip_b64@) {
                Some(chip) => r matches Some(q) && q.chip@ == chip && values_model(q.inputs@)
                    == values_model(self.inputs@) && q.ghost_mode == self.ghost_mode && q.fuel
                    == self.fuel,
                None => r is None,
            },
    {
        match base64_decode(self.chip_b64.as_str()) {
            Some(chip) => {
                let mut inputs: Vec<JsonValue> = Vec::new();
                let mut i: usize = 0;
                while i < self.inputs.len()
                    invariant
                        i <= self.inputs.len(),
                        inputs@.len() == i,
                        forall|k: int|
                            0 <= k < i ==> #[trigger] inputs@[k].model() == self.inputs@[k].model(),
                    decreases self.inputs.len() - i,
                {
                    inputs.push(self.inputs[i].duplicate());
                    i = i + 1;
                }
                assert forall|k: int| 0 <= k < self.inputs@.len() implies values_model(inputs@)[k]
                    == values_model(self.inputs@)[k] by {
                    assert(inputs@[k].model() == self.inputs@[k].model());
                }
                assert(values_model(inputs@) =~= values_model(self.inputs@));
                Some(ExecuteRbReq { chip, inputs, ghost_mode: self.ghost_mode, fuel: self.fuel })
            },
            None => None,
        }
    }
}

/// The answer to a chip that is not valid base64.
pub open spec fn invalid_chip_json() -> Json {
    Json::Obj(seq![("error"@, Json::Str("invalid base64 chip"@))])
}

pub fn invalid_chip_answer() -> (r: Answer)
    ensures
        r.status == 400,
        r.body.model() == invalid_chip_json(),
{
    let mut o: Vec<(String, JsonValue)> = Vec::new();
    o.push(str_entry("error", "invalid base64 chip"));
    assert(entries_model(o@) =~= seq![("error"@, Json::Str("invalid base64 chip"@))]);
    Answer { status: 400, body: JsonValue::Object(o) }
}

/// The transition receipts with a run's envelope stored under its CID and,
/// when its body names one, under its rho CID too.
pub open spec fn transitions_after(t: Seq<(Seq<char>, Json)>, tr: Option<Json>) -> Seq<
    (Seq<char>, Json),
> {
    match tr {
        Some(env) => match crate::audit::json_str(json_get(env, "cid"@)) {
            Some(cid) => {
                let t1 = map_insert(t, cid, env);
                match json_get(env, "body"@) {
                    Some(b) => match crate::audit::json_str(json_get(b, "rho_cid"@)) {
                        Some(rho) => map_insert(t1, rho, env),
                        None => t1,
                    },
                    None => t1,
                }
            },
            None => t,
        },
        None => t,
    }
}

/// The response to a run chip, fields in order.
pub open spec fn rb_response_json(
    rc_cid: Option<Seq<char>>,
    steps: u64,
    fuel_used: u64,
    tr: Option<Json>,
) -> Json {
    Json::Obj(
        seq![
            (
                "rc_cid"@,
                match rc_cid {
                    Some(c) => Json::Str(c),
                    None => Json::Null,
                },
            ),
            ("steps"@, Json::Num(steps as int)),
            ("fuel_used"@, Json::Num(fuel_used as int)),
            (
                "transition_receipt"@,
                match tr {
                    Some(j) => j,
                    None => Json::Null,
                },
            ),
        ],
    )
}

pub open spec fn rb_failed_json(detail: Seq<char>) -> Json {
    Json::Obj(seq![("detail"@, Json::Str(detail)), ("error"@, Json::Str("execute_rb_failed"@))])
}

fn opt_string_value(o: &Option<String>) -> (r: JsonValue)
    ensures
        r.model() == match o {
            Some(c) => Json::Str(c@),
            None => Json::Null,
        },
{
    match o {
        Some(c) => JsonValue::from_str(c.as_str()),
        None => JsonValue::Null,
    }
}

impl ServiceState {
    /// Runs a pipeline with receipts for `client` (when authenticated).
    pub fn execute_runtime(
        &mut self,
        manifest: &Manifest,
        vars: &JsonMap,
        ghost: Option<bool>,
        client: Option<&ClientInfo>,
    ) -> (r: Answer)
        ensures
            ({
                let (status, body, after) = spec_execute_runtime(
                    old(self)@,
                    *manifest,
                    entries_model(vars@),
                    match ghost {
                        Some(g) => g,
                        None => false,
                    },
                    client_view(client),
                );
                r.status == status && r.body.model() == body && final(self)@ == after
            }),
    {
        let ghost_mode = match ghost {
            Some(g) => g,
            None => false,
        };
        let ghost s0 = self@;
        // the client may have to use the service's key
        match client {
            Some(ci) => {
                if !ci.kid_allowed(self.keys.active_kid.as_str()) {
                    let body = kid_denied_body(ci.client_id.as_str(), self.keys.active_kid.as_str());
                    return Answer { status: 403, body };
                }
            },
            None => {},
        }
        let cfg = ExecuteConfig { version: "0.1.0".to_owned() };
        let outcome = {
            let prev_tip: Option<&str> = match &self.last_tip {
                Some(t) => Some(t.as_str()),
                None => None,
            };
            let opts = RunOpts {
                prev_tip,
                ghost_mode,
                keys: &self.keys,
                seen: Some(&self.seen),
                logline: None,
            };
            assert(opt_str_view(opts.prev_tip) == s0.last_tip);
            run_with_receipts(manifest, vars, &cfg, &opts)
        };
        match outcome {
            Err(e) => {
                let detail = e.message();
                failed_answer(detail.as_str())
            },
            Ok(run) => {
                let ghost m = spec_run(
                    *manifest,
                    entries_model(vars@),
                    s0.last_tip,
                    Some(s0.seen),
                    s0.keys.active,
                    s0.keys.active_kid,
                )->Ok_0;
                let tr = run.transition.unwrap();
                proof {
                    lemma_stamped_without_logline(run.wa@, m.wa, ghost_mode, "wa:write-ahead"@);
                    lemma_stamped_without_logline(
                        tr@,
                        m.transition,
                        ghost_mode,
                        "transition:normalize"@,
                    );
                    lemma_stamped_without_logline(run.wf@, m.wf, ghost_mode, m.wf_what);
                    lemma_wa_body_key(
                        s0.last_tip,
                        inputs_raw_cid(entries_model(vars@)),
                        manifest.pipeline@,
                    );
                }
                // store the receipts, the idempotency key read back from the
                // write-ahead body and the new tip, unless in ghost mode
                store_run(&mut self.receipt_chain, &run.wa, &tr, &run.wf, ghost_mode);
                if !ghost_mode {
                    let key = key_from_wa_body(&run.wa.body);
                    record_seen(&mut self.seen, key);
                    self.last_tip = Some(run.tip_cid.clone());
                }
                let body = run_body(&run.wa, &tr, &run.wf, ghost_mode, self.base_url.as_str());
                Answer { status: 200, body }
            },
        }
    }

    /// The transition receipt stored under `cid`, or 404.
    pub fn get_transition(&self, cid: &str) -> (r: Answer)
        ensures
            match map_get(entries_model(self.transition_receipts@), cid@) {
                Some(env) => r.status == 200 && r.body.model() == env,
                None => r.status == 404 && r.body.model() == Json::Obj(
                    seq![
                        ("cid"@, Json::Str(cid@)),
                        ("error"@, Json::Str("transition_not_found"@)),
                    ],
                ),
            },
    {
        match obj_get(&self.transition_receipts, cid) {
            Some(env) => Answer { status: 200, body: env.duplicate() },
            None => {
                let mut o: Vec<(String, JsonValue)> = Vec::new();
                o.push(str_entry("cid", cid));
                o.push(str_entry("error", "transition_not_found"));
                proof {
                    assert(entries_model(o@) =~= seq![
                        ("cid"@, Json::Str(cid@)),
                        ("error"@, Json::Str("transition_not_found"@)),
                    ]);
                }
                Answer { status: 404, body: JsonValue::Object(o) }
            },
        }
    }

    /// Stores the transition envelope of a run (under its CID and its rho CID).
    pub fn store_transition(&mut self, tr: &JsonValue)
        ensures
            entries_model(final(self).transition_receipts@) == transitions_after(
                entries_model(old(self).transition_receipts@),
                Some(tr.model()),
            ),
            final(self).receipt_chain@ == old(self).receipt_chain@,
            final(self).seen@ == old(self).seen@,
            final(self).keys@ == old(self).keys@,
            final(self).last_tip == old(self).last_tip,
            final(self).base_url@ == old(self).base_url@,
    {
        match tr.get("cid") {
            Some(c) => match c.as_str() {
                Some(cid) => {
                    obj_insert(&mut self.transition_receipts, cid.clone(), tr.duplicate());
                    match tr.get("body") {
                        Some(b) => match b.get("rho_cid") {
                            Some(r) => match r.as_str() {
                                Some(rho) => {
                                    obj_insert(
                                        &mut self.transition_receipts,
                                        rho.clone(),
                                        tr.duplicate(),
                                    );
                                },
                                None => {},
                            },
                            None => {},
                        },
                        None => {},
                    }
                },
                None => {},
            },
            None => {},
        }
    }

    /// Answers a finished chip run: on success its transition envelope is
    /// stored and the result answered (200); a failed run is answered 422.
    pub fn rb_answer(&mut self, req: &ExecuteRbReq, outcome: Result<RbOutcome>) -> (r: Answer)
        ensures
            match outcome {
                Ok(o) => {
                    let tr = envelope_json(
                        rb_body_json(
                            values_model(req.inputs@),
                            req.chip@,
                            o.fuel_used,
                            match req.ghost_mode {
                                Some(g) => g,
                                None => false,
                            },
                        ),
                    );
                    &&& r.status == 200
                    &&& r.body.model() == rb_response_json(
                        crate::policy::opt_view(o.rc_cid),
                        o.steps,
                        o.fuel_used,
                        Some(tr),
                    )
                    &&& entries_model(final(self).transition_receipts@) == transitions_after(
                        entries_model(old(self).transition_receipts@),
                        Some(tr),
                    )
                },
                Err(e) => r.status == 422 && r.body.model() == rb_failed_json(err_text(e@))
                    && entries_model(final(self).transition_receipts@) == entries_model(
                    old(self).transition_receipts@),
            },
            final(self).receipt_chain@ == old(self).receipt_chain@,
            final(self).seen@ == old(self).seen@,
            final(self).keys@ == old(self).keys@,
            final(self).last_tip == old(self).last_tip,
            final(self).base_url@ == old(self).base_url@,
    {
        match outcome {
            Ok(o) => {
                let res = finish_rb(req, o);
                let tr = match &res.transition_receipt {
                    Some(t) => t.duplicate(),
                    None => JsonValue::Null,
                };
                self.store_transition(&tr);
                let mut out: Vec<(String, JsonValue)> = Vec::new();
                out.push(("rc_cid".to_owned(), opt_string_value(&res.rc_cid)));
                out.push(("steps".to_owned(), JsonValue::Number(res.steps as i128)));
                out.push(("fuel_used".to_owned(), JsonValue::Number(res.fuel_used as i128)));
                out.push(("transition_receipt".to_owned(), tr));
                proof {
                    assert(entries_model(out@) =~= match rb_response_json(
                        crate::policy::opt_view(res.rc_cid),
                        res.steps,
                        res.fuel_used,
                        Some(tr.model()),
                    ) {
                        Json::Obj(es) => es,
                        _ => Seq::empty(),
                    });
                }
                Answer { status: 200, body: JsonValue::Object(out) }
            },
            Err(e) => {
                let detail = e.message();
                let mut out: Vec<(String, JsonValue)> = Vec::new();
                out.push(str_entry("detail", detail.as_str()));
                out.push(str_entry("error", "execute_rb_failed"));
                assert(entries_model(out@) =~= match rb_failed_json(detail@) {
                    Json::Obj(es) => es,
                    _ => Seq::empty(),
                });
                Answer { status: 422, body: JsonValue::Object(out) }
            },
        }
    }
}

} // verus!
