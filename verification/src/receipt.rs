//! Receipts of the WA → transition → WF pipeline.
//!
//! Every receipt has a type tag, a parent chain, a body, the CID of the
//! body's canonical bytes, a detached JWS over those bytes, and optional
//! observability metadata that never enters the CID.
use vstd::prelude::*;
use vstd::utf8::encode_utf8;
use crate::assoc::{contains_str, has_str};
use crate::canon::{canonical_bytes, spec_canonical_bytes};
use crate::cid::{cid_b3, spec_cid};
use crate::digest::{spec_ed25519_public, unix_now};
use crate::engine::{dimension_stack_spec, execute, spec_execute, ExecuteConfig, ExecuteResult, Manifest};
use crate::error::{err_text, strings_view, ErrModel, Result, RuntimeError};
use crate::json::{
    copy_entries, entries_model, nat_text, text, to_bytes, values_model, write_nat, Json,
    JsonMap, JsonValue,
};
use crate::jws::{sign_detached, spec_sign_detached, spec_verify_detached, JwsDetached, JwsModel};
use crate::policy::{opt_view, traces_view, PolicyResult, PolicyTraceEntry, ResultModel, TraceModel};
use crate::text::{append_str, chars_of, has_prefix, starts_with, str_eq, string_from_chars};
use crate::transition::{strings_json, strings_value};

verus! {

// ---------------------------------------------------------------------------
// Timestamps
// ---------------------------------------------------------------------------

/// `digits` left-padded with `0` to at least `width` characters.
pub open spec fn zero_pad(digits: Seq<char>, width: nat) -> Seq<char> {
    if digits.len() >= width {
        digits
    } else {
        Seq::new((width - digits.len()) as nat, |i: int| '0') + digits
    }
}

pub open spec fn min_nat(a: nat, b: nat) -> nat {
    if a <= b {
        a
    } else {
        b
    }
}

/// The observability timestamp for `secs` seconds after the Unix epoch,
/// `YYYY-MM-DDTHH:MM:SSZ`, on a rough calendar of 365-day years and 30-day
/// months (month capped at 12). Good for logs, not for anything signed.
pub open spec fn iso_text(secs: nat) -> Seq<char> {
    let days = secs / 86400;
    let doy = days % 365;
    zero_pad(nat_text((1970 + days / 365) as nat), 4) + seq!['-'] + zero_pad(
        nat_text(min_nat((doy / 30 + 1) as nat, 12)),
        2,
    ) + seq!['-'] + zero_pad(nat_text(min_nat((doy % 30 + 1) as nat, 31)), 2) + seq!['T']
        + zero_pad(nat_text((secs / 3600) % 24), 2) + seq![':'] + zero_pad(
        nat_text((secs / 60) % 60),
        2,
    ) + seq![':'] + zero_pad(nat_text(secs % 60), 2) + seq!['Z']
}

/// Appends `n` in decimal, left-padded with `0` to `width` characters.
fn write_padded(n: u64, width: usize, out: &mut Vec<char>)
    ensures
        final(out)@ == old(out)@ + zero_pad(nat_text(n as nat), width as nat),
{
    let mut digits: Vec<char> = Vec::new();
    write_nat(n as u128, &mut digits);
    assert(digits@ =~= nat_text(n as nat));
    let ghost start = out@;
    let mut k: usize = digits.len();
    while k < width
        invariant
            digits@ == nat_text(n as nat),
            digits.len() <= k,
            k <= width || k == digits.len(),
            out@ == start + Seq::new((k - digits.len()) as nat, |i: int| '0'),
        decreases width - k,
    {
        out.push('0');
        proof {
            assert(Seq::new((k + 1 - digits.len()) as nat, |i: int| '0') =~= Seq::new(
                (k - digits.len()) as nat,
                |i: int| '0',
            ).push('0'));
        }
        k = k + 1;
    }
    let ghost pad = out@;
    crate::text::append_chars(out, &digits);
    proof {
        if digits.len() >= width {
            assert(k == digits.len());
            assert(Seq::new(0nat, |i: int| '0') =~= Seq::<char>::empty());
            assert(out@ =~= old(out)@ + zero_pad(nat_text(n as nat), width as nat));
        } else {
            assert(out@ =~= old(out)@ + zero_pad(nat_text(n as nat), width as nat));
        }
    }
}

/// The observability timestamp for `secs` seconds after the Unix epoch.
pub fn iso_from_secs(secs: u64) -> (r: String)
    ensures
        r@ == iso_text(secs as nat),
{
    let days = secs / 86400;
    let doy = days % 365;
    let year = 1970 + days / 365;
    let month_raw = doy / 30 + 1;
    let month = if month_raw <= 12 {
        month_raw
    } else {
        12
    };
    let day_raw = doy % 30 + 1;
    let day = if day_raw <= 31 {
        day_raw
    } else {
        31
    };
    let mut out: Vec<char> = Vec::new();
    write_padded(year, 4, &mut out);
    out.push('-');
    write_padded(month, 2, &mut out);
    out.push('-');
    write_padded(day, 2, &mut out);
    out.push('T');
    write_padded((secs / 3600) % 24, 2, &mut out);
    out.push(':');
    write_padded((secs / 60) % 60, 2, &mut out);
    out.push(':');
    write_padded(secs % 60, 2, &mut out);
    out.push('Z');
    assert(out@ =~= iso_text(secs as nat));
    string_from_chars(&out)
}

/// The current time as an observability timestamp.
fn chrono_now_iso() -> (r: String)
    ensures
        exists|secs: nat| #![trigger iso_text(secs)] secs <= u64::MAX && r@ == iso_text(secs),
{
    let (secs, _nanos) = unix_now();
    let r = iso_from_secs(secs);
    assert(r@ == iso_text(secs as nat));
    r
}

// ---------------------------------------------------------------------------
// Loglines and observability
// ---------------------------------------------------------------------------

/// Observability logline attached to a receipt: who did what, where, when and
/// why. It never affects the receipt's body CID.
#[derive(Debug, Clone)]
pub struct Logline {
    pub who: String,
    pub actor_did: String,
    pub what: String,
    /// Serialized under the key `where`.
    pub where_: String,
    pub when_iso: String,
    pub why: String,
    pub context_id: String,
    pub version: String,
}

pub struct LoglineModel {
    pub who: Seq<char>,
    pub actor_did: Seq<char>,
    pub what: Seq<char>,
    pub where_: Seq<char>,
    pub when_iso: Seq<char>,
    pub why: Seq<char>,
    pub context_id: Seq<char>,
    pub version: Seq<char>,
}

impl View for Logline {
    type V = LoglineModel;

    open spec fn view(&self) -> LoglineModel {
        LoglineModel {
            who: self.who@,
            actor_did: self.actor_did@,
            what: self.what@,
            where_: self.where_@,
            when_iso: self.when_iso@,
            why: self.why@,
            context_id: self.context_id@,
            version: self.version@,
        }
    }
}

/// The JSON object of a logline, keys in order.
pub open spec fn logline_json(l: LoglineModel) -> Json {
    Json::Obj(
        seq![
            ("actor_did"@, Json::Str(l.actor_did)),
            ("context_id"@, Json::Str(l.context_id)),
            ("version"@, Json::Str(l.version)),
            ("what"@, Json::Str(l.what)),
            ("when_iso"@, Json::Str(l.when_iso)),
            ("where"@, Json::Str(l.where_)),
            ("who"@, Json::Str(l.who)),
            ("why"@, Json::Str(l.why)),
        ],
    )
}

impl Logline {
    /// A logline stamped with the current time, version `0.1.0`.
    pub fn now(
        who: &str,
        actor_did: &str,
        what: &str,
        where_: &str,
        why: &str,
        context_id: &str,
    ) -> (r: Self)
        ensures
            r.who@ == who@,
            r.actor_did@ == actor_did@,
            r.what@ == what@,
            r.where_@ == where_@,
            r.why@ == why@,
            r.context_id@ == context_id@,
            r.version@ == "0.1.0"@,
            exists|secs: nat| #![trigger iso_text(secs)] secs <= u64::MAX && r.when_iso@ == iso_text(secs),
    {
        Logline {
            who: who.to_owned(),
            actor_did: actor_did.to_owned(),
            what: what.to_owned(),
            where_: where_.to_owned(),
            when_iso: chrono_now_iso(),
            why: why.to_owned(),
            context_id: context_id.to_owned(),
            version: "0.1.0".to_owned(),
        }
    }

    /// The JSON object of this logline.
    pub fn to_json(&self) -> (r: JsonValue)
        ensures
            r.model() == logline_json(self@),
    {
        let mut o: Vec<(String, JsonValue)> = Vec::new();
        o.push(("actor_did".to_owned(), JsonValue::from_str(self.actor_did.as_str())));
        o.push(("context_id".to_owned(), JsonValue::from_str(self.context_id.as_str())));
        o.push(("version".to_owned(), JsonValue::from_str(self.version.as_str())));
        o.push(("what".to_owned(), JsonValue::from_str(self.what.as_str())));
        o.push(("when_iso".to_owned(), JsonValue::from_str(self.when_iso.as_str())));
        o.push(("where".to_owned(), JsonValue::from_str(self.where_.as_str())));
        o.push(("who".to_owned(), JsonValue::from_str(self.who.as_str())));
        o.push(("why".to_owned(), JsonValue::from_str(self.why.as_str())));
        proof {
            assert(entries_model(o@) =~= match logline_json(self@) {
                Json::Obj(es) => es,
                _ => Seq::empty(),
            });
        }
        JsonValue::Object(o)
    }
}

/// Minimal context for the loglines of one run.
pub struct LoglineContext<'a> {
    pub who: &'a str,
    pub actor_did: &'a str,
    pub where_: &'a str,
    pub why: &'a str,
    pub context_id: &'a str,
}

pub struct ContextModel {
    pub who: Seq<char>,
    pub actor_did: Seq<char>,
    pub where_: Seq<char>,
    pub why: Seq<char>,
    pub context_id: Seq<char>,
}

impl<'a> View for LoglineContext<'a> {
    type V = ContextModel;

    open spec fn view(&self) -> ContextModel {
        ContextModel {
            who: self.who@,
            actor_did: self.actor_did@,
            where_: self.where_@,
            why: self.why@,
            context_id: self.context_id@,
        }
    }
}

pub open spec fn context_view<'a>(c: Option<LoglineContext<'a>>) -> Option<ContextModel> {
    match c {
        Some(x) => Some(x@),
        None => None,
    }
}

/// The JSON of an optional value.
pub open spec fn opt_model(v: Option<JsonValue>) -> Option<Json> {
    match v {
        Some(x) => Some(x.model()),
        None => None,
    }
}

/// The observability object of a receipt: `ghost: true` in ghost mode, and the
/// logline of the context (stamped `when`, doing `what`) when there is one;
/// nothing at all when there is neither.
pub open spec fn observability_json(
    ghost: bool,
    ctx: Option<ContextModel>,
    what: Seq<char>,
    when: Seq<char>,
) -> Option<Json> {
    if !ghost && ctx is None {
        None
    } else {
        Some(
            Json::Obj(
                (if ghost {
                    seq![("ghost"@, Json::Bool(true))]
                } else {
                    Seq::empty()
                }) + match ctx {
                    Some(c) => seq![
                        (
                            "logline"@,
                            logline_json(
                                LoglineModel {
                                    who: c.who,
                                    actor_did: c.actor_did,
                                    what,
                                    where_: c.where_,
                                    when_iso: when,
                                    why: c.why,
                                    context_id: c.context_id,
                                    version: "0.1.0"@,
                                },
                            ),
                        ),
                    ],
                    None => Seq::empty(),
                },
            ),
        )
    }
}

/// The observability JSON for a receipt, merging the ghost flag and a logline
/// stamped with the current time.
fn make_observability(ghost: bool, logline_ctx: &Option<LoglineContext>, what_suffix: &str) -> (r:
    Option<JsonValue>)
    ensures
        !ghost && logline_ctx is None ==> r is None,
        exists|secs: nat|
            #![trigger iso_text(secs)]
            secs <= u64::MAX && opt_model(r) == observability_json(
                ghost,
                context_view(*logline_ctx),
                what_suffix@,
                iso_text(secs),
            ),
{
    if !ghost && logline_ctx.is_none() {
        assert(observability_json(ghost, context_view(*logline_ctx), what_suffix@, iso_text(0))
            is None);
        return None;
    }
    let mut obs: Vec<(String, JsonValue)> = Vec::new();
    if ghost {
        obs.push(("ghost".to_owned(), JsonValue::Bool(true)));
    }
    let ghost before = obs@;
    match logline_ctx {
        Some(ctx) => {
            let ll = Logline::now(
                ctx.who,
                ctx.actor_did,
                what_suffix,
                ctx.where_,
                ctx.why,
                ctx.context_id,
            );
            let ghost secs = choose|secs: nat| #![trigger iso_text(secs)] secs <= u64::MAX && ll.when_iso@ == iso_text(secs);
            obs.push(("logline".to_owned(), ll.to_json()));
            proof {
                let target = observability_json(
                    ghost,
                    context_view(*logline_ctx),
                    what_suffix@,
                    iso_text(secs),
                );
                assert(ll@ == LoglineModel {
                    who: ctx.who@,
                    actor_did: ctx.actor_did@,
                    what: what_suffix@,
                    where_: ctx.where_@,
                    when_iso: iso_text(secs),
                    why: ctx.why@,
                    context_id: ctx.context_id@,
                    version: "0.1.0"@,
                });
                assert(Some(entries_model(obs@)) == match target {
                    Some(Json::Obj(es)) => Some(es),
                    _ => None,
                });
            }
            Some(JsonValue::Object(obs))
        },
        None => {
            proof {
                let target = observability_json(
                    ghost,
                    context_view(*logline_ctx),
                    what_suffix@,
                    iso_text(0),
                );
                assert(Some(entries_model(obs@)) == match target {
                    Some(Json::Obj(es)) => Some(es),
                    _ => None,
                });
            }
            Some(JsonValue::Object(obs))
        },
    }
}


// ---------------------------------------------------------------------------
// Receipts
// ---------------------------------------------------------------------------

/// The receipt envelope shared by every pipeline stage.
#[derive(Debug)]
pub struct Receipt {
    /// Type tag: "ubl/wa", "ubl/transition", "ubl/wf" or "ubl/attestation"
    pub t: String,
    /// CIDs of parent receipts
    pub parents: Vec<String>,
    /// Stage-specific body
    pub body: JsonValue,
    /// CID of the canonical body bytes
    pub body_cid: String,
    /// Detached JWS over the canonical body bytes
    pub proof: JwsDetached,
    /// Optional observability; never part of the body CID
    pub observability: Option<JsonValue>,
}

pub struct ReceiptModel {
    pub t: Seq<char>,
    pub parents: Seq<Seq<char>>,
    pub body: Json,
    pub body_cid: Seq<char>,
    pub proof: JwsModel,
    pub observability: Option<Json>,
}

impl View for Receipt {
    type V = ReceiptModel;

    open spec fn view(&self) -> ReceiptModel {
        ReceiptModel {
            t: self.t@,
            parents: strings_view(self.parents@),
            body: self.body.model(),
            body_cid: self.body_cid@,
            proof: self.proof@,
            observability: opt_model(self.observability),
        }
    }
}

/// The known receipt type tags.
pub open spec fn valid_type(t: Seq<char>) -> bool {
    t == "ubl/wa"@ || t == "ubl/transition"@ || t == "ubl/wf"@ || t == "ubl/attestation"@
}

pub open spec fn type_error(t: Seq<char>) -> Seq<char> {
    "invalid receipt type '"@ + t
        + "', expected one of [\"ubl/wa\", \"ubl/transition\", \"ubl/wf\", \"ubl/attestation\"]"@
}

/// The CID a body must carry: that of its canonical bytes.
pub open spec fn body_cid_of(body: Json) -> Seq<char> {
    spec_cid(spec_canonical_bytes(body))
}

/// Why a receipt breaks the schema, checked in this order; `None` when it
/// does not.
pub open spec fn receipt_error(rc: ReceiptModel) -> Option<Seq<char>> {
    if !valid_type(rc.t) {
        Some(type_error(rc.t))
    } else if rc.body_cid.len() == 0 || !has_prefix(rc.body_cid, "b3:"@) {
        Some("body_cid must be non-empty and start with 'b3:'"@)
    } else if rc.proof.signature.len() == 0 {
        Some("proof.signature must not be empty"@)
    } else if rc.proof.kid.len() == 0 {
        Some("proof.kid must not be empty"@)
    } else if body_cid_of(rc.body) != rc.body_cid {
        Some("body_cid mismatch: expected "@ + body_cid_of(rc.body) + ", got "@ + rc.body_cid)
    } else {
        None
    }
}

/// Checks a receipt against the schema: a known type, a `b3:` body CID, a
/// signature and a key id, and a body CID that matches the canonical body.
pub fn validate_receipt(rc: &Receipt) -> (r: Result<()>)
    ensures
        match receipt_error(rc@) {
            None => r is Ok,
            Some(m) => r matches Err(e) && e@ == ErrModel::Validation(m),
        },
{
    let t = rc.t.as_str();
    if !(str_eq(t, "ubl/wa") || str_eq(t, "ubl/transition") || str_eq(t, "ubl/wf") || str_eq(
        t,
        "ubl/attestation",
    )) {
        let mut out: Vec<char> = Vec::new();
        append_str(&mut out, "invalid receipt type '");
        append_str(&mut out, t);
        append_str(
            &mut out,
            "', expected one of [\"ubl/wa\", \"ubl/transition\", \"ubl/wf\", \"ubl/attestation\"]",
        );
        assert(out@ =~= type_error(rc.t@));
        return Err(RuntimeError::Validation(string_from_chars(&out)));
    }
    let cid_chars = chars_of(rc.body_cid.as_str());
    let prefix = chars_of("b3:");
    if cid_chars.len() == 0 || !starts_with(&cid_chars, &prefix) {
        return Err(
            RuntimeError::Validation("body_cid must be non-empty and start with 'b3:'".to_owned()),
        );
    }
    let sig = chars_of(rc.proof.signature.as_str());
    if sig.len() == 0 {
        return Err(RuntimeError::Validation("proof.signature must not be empty".to_owned()));
    }
    let kid = chars_of(rc.proof.kid.as_str());
    if kid.len() == 0 {
        return Err(RuntimeError::Validation("proof.kid must not be empty".to_owned()));
    }
    let body_bytes = canonical_bytes(&rc.body)?;
    let expected_cid = cid_b3(body_bytes.as_slice());
    if !str_eq(expected_cid.as_str(), rc.body_cid.as_str()) {
        let mut out: Vec<char> = Vec::new();
        append_str(&mut out, "body_cid mismatch: expected ");
        append_str(&mut out, expected_cid.as_str());
        append_str(&mut out, ", got ");
        append_str(&mut out, rc.body_cid.as_str());
        assert(out@ =~= "body_cid mismatch: expected "@ + body_cid_of(rc.body.model()) + ", got "@
            + rc.body_cid@);
        return Err(RuntimeError::Validation(string_from_chars(&out)));
    }
    Ok(())
}

/// The receipt that `build_receipt` makes: body CID and signature over the
/// canonical body bytes, no observability.
pub open spec fn built_receipt(
    t: Seq<char>,
    parents: Seq<Seq<char>>,
    body: Json,
    seed: Seq<u8>,
    kid: Seq<char>,
) -> ReceiptModel {
    ReceiptModel {
        t,
        parents,
        body,
        body_cid: body_cid_of(body),
        proof: spec_sign_detached(spec_canonical_bytes(body), seed, kid),
        observability: None,
    }
}

/// Builds a signed receipt from a type tag, parents and body, and checks it
/// against the schema. It fails exactly on an unknown type tag or an empty
/// key id; everything else the schema asks holds by construction.
pub fn build_receipt(
    t: &str,
    parents: Vec<String>,
    body: JsonValue,
    sign_key: &[u8; 32],
    kid: &str,
) -> (r: Result<Receipt>)
    ensures
        valid_type(t@) && kid@.len() > 0 ==> (r matches Ok(rc) && rc@ == built_receipt(
            t@,
            strings_view(parents@),
            body.model(),
            sign_key@,
            kid@,
        )),
        !valid_type(t@) ==> (r matches Err(e) && e@ == ErrModel::Validation(type_error(t@))),
        valid_type(t@) && kid@.len() == 0 ==> (r matches Err(e) && e@ == ErrModel::Validation(
            "proof.kid must not be empty"@,
        )),
        r matches Ok(rc) ==> receipt_error(rc@) is None,
        r matches Ok(rc) ==> spec_verify_detached(
            rc.proof@,
            spec_canonical_bytes(body.model()),
            spec_ed25519_public(sign_key@),
        ),
{
    let body_bytes = canonical_bytes(&body)?;
    let body_cid = cid_b3(body_bytes.as_slice());
    let proof = sign_detached(body_bytes.as_slice(), sign_key, kid);
    let rc = Receipt {
        t: t.to_owned(),
        parents,
        body,
        body_cid,
        proof,
        observability: None,
    };
    proof {
        assert(rc@ == built_receipt(t@, strings_view(parents@), body.model(), sign_key@, kid@));
        assert(has_prefix(rc.body_cid@, "b3:"@)) by {
            reveal_strlit("b3:");
            assert(rc.body_cid@.subrange(0, 3) =~= "b3:"@);
        }
    }
    validate_receipt(&rc)?;
    Ok(rc)
}

/// Whether a receipt's body CID matches its canonical body bytes.
pub fn verify_body_cid(receipt: &Receipt) -> (r: Result<bool>)
    ensures
        r matches Ok(b) && b == (body_cid_of(receipt.body.model()) == receipt.body_cid@),
{
    let body_bytes = canonical_bytes(&receipt.body)?;
    let expected = cid_b3(body_bytes.as_slice());
    Ok(str_eq(expected.as_str(), receipt.body_cid.as_str()))
}

// ---------------------------------------------------------------------------
// Keys and run options
// ---------------------------------------------------------------------------

/// Signing context: the active Ed25519 key (its 32-byte seed) and key id, and
/// an optional next key for rotation.
#[derive(Debug, Clone)]
pub struct KeyRing {
    pub active: [u8; 32],
    pub active_kid: String,
    pub next: Option<[u8; 32]>,
    pub next_kid: Option<String>,
}

/// The seed of the development key: 32 bytes of 7.
pub open spec fn dev_seed() -> Seq<u8> {
    Seq::new(32, |i: int| 7u8)
}

pub struct KeyRingModel {
    pub active: Seq<u8>,
    pub active_kid: Seq<char>,
    pub next: Option<Seq<u8>>,
    pub next_kid: Option<Seq<char>>,
}

impl View for KeyRing {
    type V = KeyRingModel;

    open spec fn view(&self) -> KeyRingModel {
        KeyRingModel {
            active: self.active@,
            active_kid: self.active_kid@,
            next: match self.next {
                Some(k) => Some(k@),
                None => None,
            },
            next_kid: opt_view(self.next_kid),
        }
    }
}

impl KeyRing {
    /// A copy of this key ring.
    pub fn copy(&self) -> (r: KeyRing)
        ensures
            r@ == self@,
    {
        KeyRing {
            active: self.active,
            active_kid: self.active_kid.clone(),
            next: self.next,
            next_kid: match &self.next_kid {
                Some(k) => Some(k.clone()),
                None => None,
            },
        }
    }

    /// The view of the development key ring.
    pub open spec fn dev_model() -> KeyRingModel {
        KeyRingModel { active: dev_seed(), active_kid: "did:dev#k1"@, next: None, next_kid: None }
    }

    /// The development key ring: seed of 32 sevens under `did:dev#k1`, no next key.
    pub fn dev() -> (r: Self)
        ensures
            r.active@ == dev_seed(),
            r.active_kid@ == "did:dev#k1"@,
            r.next is None,
            r.next_kid is None,
            r@ == Self::dev_model(),
    {
        let active: [u8; 32] = [7u8; 32];
        assert(active@ =~= dev_seed());
        KeyRing { active, active_kid: "did:dev#k1".to_owned(), next: None, next_kid: None }
    }
}

/// Options of one run of the pipeline.
pub struct RunOpts<'a> {
    /// Tip of the chain this run extends
    pub prev_tip: Option<&'a str>,
    /// Ghost mode: the ledger should not persist the run
    pub ghost_mode: bool,
    pub keys: &'a KeyRing,
    /// Idempotency keys already seen (the caller keeps them)
    pub seen: Option<&'a Vec<String>>,
    /// Context for the loglines of the receipts
    pub logline: Option<LoglineContext<'a>>,
}

/// What a run of the pipeline yields.
#[derive(Debug)]
pub struct RunResult {
    pub wa: Receipt,
    pub transition: Option<Receipt>,
    pub wf: Receipt,
    /// CID of the WF receipt body, the tip of the chain
    pub tip_cid: String,
    /// Whether this run was in ghost mode (the ledger should not persist it)
    pub ghost_mode: bool,
}

// ---------------------------------------------------------------------------
// Stage bodies
// ---------------------------------------------------------------------------

/// The body of the write-ahead receipt, keys in order.
pub open spec fn wa_body(prev_tip: Option<Seq<char>>, raw_cid: Seq<char>, pipeline: Seq<char>) -> Json {
    Json::Obj(
        seq![
            ("inputs_raw_cid"@, Json::Str(raw_cid)),
            (
                "intention"@,
                Json::Obj(
                    seq![("op"@, Json::Str("execute"@)), ("pipeline"@, Json::Str(pipeline))],
                ),
            ),
            (
                "prev_tip"@,
                match prev_tip {
                    Some(t) => Json::Str(t),
                    None => Json::Null,
                },
            ),
            ("type"@, Json::Str("ubl/wa"@)),
        ],
    )
}

/// The body of the transition receipt (-1 → 0, `rho.normalize`), keys in order.
pub open spec fn transition_body(raw_cid: Seq<char>, rho_cid: Seq<char>) -> Json {
    Json::Obj(
        seq![
            ("from_layer"@, Json::Str("-1:rb"@)),
            ("op"@, Json::Str("rho.normalize@ai-nrf1/v1"@)),
            ("preimage_raw_cid"@, Json::Str(raw_cid)),
            ("rho_cid"@, Json::Str(rho_cid)),
            ("t"@, Json::Str("ubl/transition"@)),
            ("to_layer"@, Json::Str("0:rho"@)),
            ("witness"@, Json::Obj(seq![("vm"@, Json::Str("ubl-runtime@0.1.0"@))])),
        ],
    )
}

/// One policy trace entry as JSON; an absent reason is left out.
pub open spec fn trace_json(e: TraceModel) -> Json {
    Json::Obj(
        seq![("level"@, Json::Str(e.level))] + (match e.reason {
            Some(r) => seq![("reason"@, Json::Str(r))],
            None => Seq::empty(),
        }) + seq![("result"@, Json::Str(e.result)), ("rule"@, Json::Str(e.rule))],
    )
}

/// The body of the write-final receipt after a successful execution: ALLOW
/// when the policy stage was passed.
pub open spec fn wf_body(
    rho_cid: Seq<char>,
    outputs_cid: Seq<char>,
    stack: Seq<Seq<char>>,
    trace: Seq<TraceModel>,
) -> Json {
    Json::Obj(
        seq![
            (
                "decision"@,
                Json::Str(
                    if stack.contains("policy"@) {
                        "ALLOW"@
                    } else {
                        "DENY"@
                    },
                ),
            ),
            ("dimension_stack"@, strings_json(stack)),
            ("outputs_cid"@, Json::Str(outputs_cid)),
            ("policy_trace"@, Json::Arr(trace.map_values(|e: TraceModel| trace_json(e)))),
            ("rho_cid"@, Json::Str(rho_cid)),
            ("type"@, Json::Str("ubl/wf"@)),
        ],
    )
}

/// The body of the write-final receipt when execution failed: DENY, with the
/// error's text as reason and no outputs.
pub open spec fn wf_deny_body(rho_cid: Seq<char>, reason: Seq<char>) -> Json {
    Json::Obj(
        seq![
            ("decision"@, Json::Str("DENY"@)),
            ("dimension_stack"@, Json::Arr(Seq::empty())),
            ("outputs_cid"@, Json::Null),
            ("reason"@, Json::Str(reason)),
            ("rho_cid"@, Json::Str(rho_cid)),
            ("type"@, Json::Str("ubl/wf"@)),
        ],
    )
}

pub open spec fn obj_entries(j: Json) -> Seq<(Seq<char>, Json)> {
    match j {
        Json::Obj(es) => es,
        _ => Seq::empty(),
    }
}

fn str_entry(key: &str, val: &str) -> (r: (String, JsonValue))
    ensures
        r.0@ == key@,
        r.1.model() == Json::Str(val@),
{
    (key.to_owned(), JsonValue::from_str(val))
}

fn wa_body_value(prev_tip: Option<&str>, raw_cid: &String, pipeline: &String) -> (r: JsonValue)
    ensures
        r.model() == wa_body(opt_str_view(prev_tip), raw_cid@, pipeline@),
{
    let mut intention: Vec<(String, JsonValue)> = Vec::new();
    intention.push(str_entry("op", "execute"));
    intention.push(str_entry("pipeline", pipeline.as_str()));
    let tip = match prev_tip {
        Some(t) => JsonValue::from_str(t),
        None => JsonValue::Null,
    };
    let mut o: Vec<(String, JsonValue)> = Vec::new();
    o.push(str_entry("inputs_raw_cid", raw_cid.as_str()));
    let ghost im = intention@;
    o.push(("intention".to_owned(), JsonValue::Object(intention)));
    o.push(("prev_tip".to_owned(), tip));
    o.push(str_entry("type", "ubl/wa"));
    proof {
        assert(entries_model(im) =~= seq![
            ("op"@, Json::Str("execute"@)),
            ("pipeline"@, Json::Str(pipeline@)),
        ]);
        assert(entries_model(o@) =~= obj_entries(
            wa_body(opt_str_view(prev_tip), raw_cid@, pipeline@),
        ));
    }
    JsonValue::Object(o)
}

fn transition_body_value(raw_cid: &String, rho_cid: &String) -> (r: JsonValue)
    ensures
        r.model() == transition_body(raw_cid@, rho_cid@),
{
    let mut witness: Vec<(String, JsonValue)> = Vec::new();
    witness.push(str_entry("vm", "ubl-runtime@0.1.0"));
    let ghost wm = witness@;
    let mut o: Vec<(String, JsonValue)> = Vec::new();
    o.push(str_entry("from_layer", "-1:rb"));
    o.push(str_entry("op", "rho.normalize@ai-nrf1/v1"));
    o.push(str_entry("preimage_raw_cid", raw_cid.as_str()));
    o.push(str_entry("rho_cid", rho_cid.as_str()));
    o.push(str_entry("t", "ubl/transition"));
    o.push(str_entry("to_layer", "0:rho"));
    o.push(("witness".to_owned(), JsonValue::Object(witness)));
    proof {
        assert(entries_model(wm) =~= seq![("vm"@, Json::Str("ubl-runtime@0.1.0"@))]);
        assert(entries_model(o@) =~= obj_entries(transition_body(raw_cid@, rho_cid@)));
    }
    JsonValue::Object(o)
}

fn trace_entry_value(e: &PolicyTraceEntry) -> (r: JsonValue)
    ensures
        r.model() == trace_json(e@),
{
    let mut o: Vec<(String, JsonValue)> = Vec::new();
    o.push(str_entry("level", e.level.as_str()));
    match &e.reason {
        Some(reason) => {
            o.push(str_entry("reason", reason.as_str()));
        },
        None => {},
    }
    o.push(str_entry("result", e.result.as_str()));
    o.push(str_entry("rule", e.rule.as_str()));
    proof {
        assert(entries_model(o@) =~= obj_entries(trace_json(e@)));
    }
    JsonValue::Object(o)
}

fn trace_value(trace: &Vec<PolicyTraceEntry>) -> (r: JsonValue)
    ensures
        r.model() == Json::Arr(traces_view(trace@).map_values(|e: TraceModel| trace_json(e))),
{
    let mut out: Vec<JsonValue> = Vec::new();
    let mut i: usize = 0;
    while i < trace.len()
        invariant
            i <= trace.len(),
            out@.len() == i,
            forall|k: int| 0 <= k < i ==> #[trigger] out@[k].model() == trace_json(trace@[k]@),
        decreases trace.len() - i,
    {
        out.push(trace_entry_value(&trace[i]));
        i = i + 1;
    }
    proof {
        let target = traces_view(trace@).map_values(|e: TraceModel| trace_json(e));
        assert forall|k: int| 0 <= k < out@.len() implies values_model(out@)[k] == target[k] by {
            assert(out@[k].model() == trace_json(trace@[k]@));
            assert(traces_view(trace@)[k] == trace@[k]@);
        }
        assert(values_model(out@) =~= target);
    }
    JsonValue::Array(out)
}

/// The JSON value of a policy result (what `serde_json::to_value` gives:
/// keys in order, absent options left out).
pub open spec fn policy_result_json(r: ResultModel) -> Json {
    Json::Obj(
        (match r.decided_by {
            Some(d) => seq![("decided_by"@, Json::Str(d))],
            None => Seq::empty(),
        }) + seq![
            ("decision"@, Json::Str(r.decision)),
            ("policy_trace"@, Json::Arr(r.trace.map_values(|e: TraceModel| trace_json(e)))),
        ] + (match r.reason {
            Some(m) => seq![("reason"@, Json::Str(m))],
            None => Seq::empty(),
        }),
    )
}

impl PolicyResult {
    /// The JSON value of this result.
    pub fn to_json(&self) -> (r: JsonValue)
        ensures
            r.model() == policy_result_json(self@),
    {
        let mut o: Vec<(String, JsonValue)> = Vec::new();
        match &self.decided_by {
            Some(d) => {
                o.push(str_entry("decided_by", d.as_str()));
            },
            None => {},
        }
        o.push(str_entry("decision", self.decision.as_str()));
        o.push(("policy_trace".to_owned(), trace_value(&self.policy_trace)));
        match &self.reason {
            Some(m) => {
                o.push(str_entry("reason", m.as_str()));
            },
            None => {},
        }
        proof {
            assert(entries_model(o@) =~= obj_entries(policy_result_json(self@)));
        }
        JsonValue::Object(o)
    }
}

pub proof fn lemma_contains_str(items: Seq<String>, s: Seq<char>)
    ensures
        contains_str(items, s) == strings_view(items).contains(s),
{
    if contains_str(items, s) {
        let i = choose|i: int| 0 <= i < items.len() && items[i]@ == s;
        assert(strings_view(items)[i] == s);
    }
    if strings_view(items).contains(s) {
        let i = choose|i: int| 0 <= i < strings_view(items).len() && strings_view(items)[i] == s;
        assert(items[i]@ == s);
    }
}

fn wf_value(rho_cid: &String, res: &ExecuteResult) -> (r: JsonValue)
    ensures
        r.model() == wf_body(
            rho_cid@,
            res.cid@,
            strings_view(res.dimension_stack@),
            traces_view(res.policy_trace@),
        ),
{
    let allow = has_str(&res.dimension_stack, "policy");
    proof {
        lemma_contains_str(res.dimension_stack@, "policy"@);
    }
    let decision = if allow {
        "ALLOW"
    } else {
        "DENY"
    };
    let mut o: Vec<(String, JsonValue)> = Vec::new();
    o.push(str_entry("decision", decision));
    o.push(("dimension_stack".to_owned(), strings_value(&res.dimension_stack)));
    o.push(str_entry("outputs_cid", res.cid.as_str()));
    o.push(("policy_trace".to_owned(), trace_value(&res.policy_trace)));
    o.push(str_entry("rho_cid", rho_cid.as_str()));
    o.push(str_entry("type", "ubl/wf"));
    proof {
        assert(entries_model(o@) =~= obj_entries(
            wf_body(
                rho_cid@,
                res.cid@,
                strings_view(res.dimension_stack@),
                traces_view(res.policy_trace@),
            ),
        ));
    }
    JsonValue::Object(o)
}

fn wf_deny_value(rho_cid: &String, reason: &String) -> (r: JsonValue)
    ensures
        r.model() == wf_deny_body(rho_cid@, reason@),
{
    let mut o: Vec<(String, JsonValue)> = Vec::new();
    o.push(str_entry("decision", "DENY"));
    let empty: Vec<JsonValue> = Vec::new();
    o.push(("dimension_stack".to_owned(), JsonValue::Array(empty)));
    o.push(("outputs_cid".to_owned(), JsonValue::Null));
    o.push(str_entry("reason", reason.as_str()));
    o.push(str_entry("rho_cid", rho_cid.as_str()));
    o.push(str_entry("type", "ubl/wf"));
    proof {
        assert(values_model(empty@) =~= Seq::<Json>::empty());
        assert(entries_model(o@) =~= obj_entries(wf_deny_body(rho_cid@, reason@)));
    }
    JsonValue::Object(o)
}

pub open spec fn opt_str_view<'a>(o: Option<&'a str>) -> Option<Seq<char>> {
    match o {
        Some(s) => Some(s@),
        None => None,
    }
}

// ---------------------------------------------------------------------------
// The receipt-first pipeline
// ---------------------------------------------------------------------------

/// CID of the inputs as sent: the compact JSON text of the variables.
pub open spec fn inputs_raw_cid(vars: Seq<(Seq<char>, Json)>) -> Seq<char> {
    spec_cid(encode_utf8(text(Json::Obj(vars))))
}

/// CID of the inputs in canonical form.
pub open spec fn inputs_rho_cid(vars: Seq<(Seq<char>, Json)>) -> Seq<char> {
    body_cid_of(Json::Obj(vars))
}

/// The idempotency key of a run: `pipeline:inputs_raw_cid`.
pub open spec fn idempotency_key(pipeline: Seq<char>, raw_cid: Seq<char>) -> Seq<char> {
    pipeline + ":"@ + raw_cid
}

pub open spec fn replay_message(pipeline: Seq<char>, raw_cid: Seq<char>) -> Seq<char> {
    "duplicate request (replay): pipeline="@ + pipeline + " inputs_cid="@ + raw_cid
}

/// The parents of the write-ahead receipt: the previous tip, if any.
pub open spec fn tip_parents(prev_tip: Option<Seq<char>>) -> Seq<Seq<char>> {
    match prev_tip {
        Some(t) => seq![t],
        None => Seq::empty(),
    }
}

/// The three receipts of a run, without their observability, and what the
/// write-final logline says was done.
pub struct RunModel {
    pub wa: ReceiptModel,
    pub transition: ReceiptModel,
    pub wf: ReceiptModel,
    pub wf_what: Seq<char>,
}

/// A run of the pipeline: WA, then the -1 → 0 transition, then execution and
/// WF. A replayed idempotency key and an empty key id are refused; a failed
/// execution gives a DENY write-final receipt, not an error.
pub open spec fn spec_run(
    m: Manifest,
    vars: Seq<(Seq<char>, Json)>,
    prev_tip: Option<Seq<char>>,
    seen: Option<Seq<Seq<char>>>,
    seed: Seq<u8>,
    kid: Seq<char>,
) -> core::result::Result<RunModel, ErrModel> {
    let raw_cid = inputs_raw_cid(vars);
    let rho_cid = inputs_rho_cid(vars);
    if seen matches Some(s) && s.contains(idempotency_key(m.pipeline@, raw_cid)) {
        Err(ErrModel::Validation(replay_message(m.pipeline@, raw_cid)))
    } else if kid.len() == 0 {
        Err(ErrModel::Validation("proof.kid must not be empty"@))
    } else {
        let wa = built_receipt(
            "ubl/wa"@,
            tip_parents(prev_tip),
            wa_body(prev_tip, raw_cid, m.pipeline@),
            seed,
            kid,
        );
        let tr = built_receipt(
            "ubl/transition"@,
            seq![wa.body_cid],
            transition_body(raw_cid, rho_cid),
            seed,
            kid,
        );
        let wf_b = match spec_execute(m, vars) {
            Ok(x) => wf_body(rho_cid, x.cid, dimension_stack_spec(), x.trace),
            Err(e) => wf_deny_body(rho_cid, err_text(e)),
        };
        let what = match spec_execute(m, vars) {
            Ok(x) => "wf:write-final"@,
            Err(e) => "wf:deny"@,
        };
        let wf = built_receipt("ubl/wf"@, seq![wa.body_cid, tr.body_cid], wf_b, seed, kid);
        Ok(RunModel { wa, transition: tr, wf, wf_what: what })
    }
}

/// `r` is the receipt `m` with an observability object stamped at some time
/// in the clock's range.
pub open spec fn stamped(
    r: ReceiptModel,
    m: ReceiptModel,
    ghost_mode: bool,
    ctx: Option<ContextModel>,
    what: Seq<char>,
) -> bool {
    &&& r.t == m.t
    &&& r.parents == m.parents
    &&& r.body == m.body
    &&& r.body_cid == m.body_cid
    &&& r.proof == m.proof
    &&& exists|secs: nat|
        #![trigger iso_text(secs)]
        secs <= u64::MAX && r.observability == observability_json(ghost_mode, ctx, what, iso_text(secs))
}

/// Whether `r` is the outcome `s` describes.
pub open spec fn run_matches(
    r: Result<RunResult>,
    s: core::result::Result<RunModel, ErrModel>,
    ghost_mode: bool,
    ctx: Option<ContextModel>,
) -> bool {
    match s {
        Err(e) => r matches Err(x) && x@ == e,
        Ok(m) => r matches Ok(res) && {
            &&& stamped(res.wa@, m.wa, ghost_mode, ctx, "wa:write-ahead"@)
            &&& res.transition matches Some(tr) && stamped(
                tr@,
                m.transition,
                ghost_mode,
                ctx,
                "transition:normalize"@,
            )
            &&& stamped(res.wf@, m.wf, ghost_mode, ctx, m.wf_what)
            &&& res.tip_cid@ == m.wf.body_cid
            &&& res.ghost_mode == ghost_mode
        },
    }
}

pub open spec fn seen_view<'a>(seen: Option<&'a Vec<String>>) -> Option<Seq<Seq<char>>> {
    match seen {
        Some(s) => Some(strings_view(s@)),
        None => None,
    }
}

fn join3(a: &str, sep: &str, b: &str) -> (r: String)
    ensures
        r@ == a@ + sep@ + b@,
{
    let mut out: Vec<char> = Vec::new();
    append_str(&mut out, a);
    append_str(&mut out, sep);
    append_str(&mut out, b);
    string_from_chars(&out)
}

/// A receipt built and signed as `build_receipt` does, stamped with the
/// observability of the run.
/// The receipt's detached JWS verifies over its canonical body under the
/// public key of `seed`.
pub open spec fn signed_by(rc: ReceiptModel, seed: Seq<u8>) -> bool {
    spec_verify_detached(rc.proof, spec_canonical_bytes(rc.body), spec_ed25519_public(seed))
}

fn build_stamped(
    t: &str,
    parents: Vec<String>,
    body: JsonValue,
    sign_key: &[u8; 32],
    kid: &str,
    ghost_mode: bool,
    ctx: &Option<LoglineContext>,
    what: &str,
) -> (r: Result<Receipt>)
    requires
        valid_type(t@),
    ensures
        kid@.len() > 0 ==> (r matches Ok(rc) && receipt_error(rc@) is None && stamped(
            rc@,
            built_receipt(t@, strings_view(parents@), body.model(), sign_key@, kid@),
            ghost_mode,
            context_view(*ctx),
            what@,
        ) && signed_by(rc@, sign_key@)),
        kid@.len() == 0 ==> (r matches Err(e) && e@ == ErrModel::Validation(
            "proof.kid must not be empty"@,
        )),
{
    let mut rc = build_receipt(t, parents, body, sign_key, kid)?;
    rc.observability = make_observability(ghost_mode, ctx, what);
    Ok(rc)
}

/// Runs the full receipt-first pipeline: WA → transition (-1 → 0) → execute
/// → WF. Every run that is not refused yields three receipts chained by parent
/// CIDs; the tip is the WF body CID. A failed execution yields a DENY WF.
#[verifier::spinoff_prover]
#[verifier::rlimit(40)]
pub fn run_with_receipts(manifest: &Manifest, vars: &JsonMap, cfg: &ExecuteConfig, opts: &RunOpts) -> (r:
    Result<RunResult>)
    ensures
        run_matches(
            r,
            spec_run(
                *manifest,
                entries_model(vars@),
                opt_str_view(opts.prev_tip),
                seen_view(opts.seen),
                opts.keys.active@,
                opts.keys.active_kid@,
            ),
            opts.ghost_mode,
            context_view(opts.logline),
        ),
        r matches Ok(res) ==> receipt_error(res.wa@) is None && receipt_error(res.wf@) is None
            && (res.transition matches Some(tr) && receipt_error(tr@) is None),
        r matches Ok(res) ==> signed_by(res.wa@, opts.keys.active@) && signed_by(
            res.wf@,
            opts.keys.active@,
        ) && (res.transition matches Some(tr) && signed_by(tr@, opts.keys.active@)),
{
    let sign_key = &opts.keys.active;
    let kid = opts.keys.active_kid.as_str();
    let ghost_mode = opts.ghost_mode;
    let ghost vm = entries_model(vars@);
    let ghost target = spec_run(
        *manifest,
        vm,
        opt_str_view(opts.prev_tip),
        seen_view(opts.seen),
        sign_key@,
        kid@,
    );

    // (1) WA: write-ahead
    let mut wa_parents: Vec<String> = Vec::new();
    match opts.prev_tip {
        Some(tip) => {
            wa_parents.push(tip.to_owned());
        },
        None => {},
    }
    assert(strings_view(wa_parents@) =~= tip_parents(opt_str_view(opts.prev_tip)));
    let vars_value = JsonValue::Object(copy_entries(vars));
    assert(vars_value.model() == Json::Obj(vm));
    let raw_bytes = to_bytes(&vars_value);
    let inputs_raw_cid = cid_b3(raw_bytes.as_slice());
    let wa_body = wa_body_value(opts.prev_tip, &inputs_raw_cid, &manifest.pipeline);
    let key = join3(manifest.pipeline.as_str(), ":", inputs_raw_cid.as_str());
    match opts.seen {
        Some(seen) => {
            proof {
                lemma_contains_str(seen@, key@);
            }
            if has_str(seen, key.as_str()) {
                let mut msg: Vec<char> = Vec::new();
                append_str(&mut msg, "duplicate request (replay): pipeline=");
                append_str(&mut msg, manifest.pipeline.as_str());
                append_str(&mut msg, " inputs_cid=");
                append_str(&mut msg, inputs_raw_cid.as_str());
                assert(msg@ =~= replay_message(manifest.pipeline@, inputs_raw_cid@));
                return Err(RuntimeError::Validation(string_from_chars(&msg)));
            }
        },
        None => {},
    }
    let wa = build_stamped(
        "ubl/wa",
        wa_parents,
        wa_body,
        sign_key,
        kid,
        ghost_mode,
        &opts.logline,
        "wa:write-ahead",
    )?;

    // (2) transition -1 → 0 (rho.normalize)
    let rho_bytes = canonical_bytes(&vars_value)?;
    let rho_cid = cid_b3(rho_bytes.as_slice());
    let tr_body = transition_body_value(&inputs_raw_cid, &rho_cid);
    let mut tr_parents: Vec<String> = Vec::new();
    tr_parents.push(wa.body_cid.clone());
    assert(strings_view(tr_parents@) =~= seq![wa.body_cid@]);
    let transition = build_stamped(
        "ubl/transition",
        tr_parents,
        tr_body,
        sign_key,
        kid,
        ghost_mode,
        &opts.logline,
        "transition:normalize",
    )?;

    // (3) execute; a failure becomes a DENY write-final receipt
    let executed = execute(manifest, vars, cfg);
    let mut wf_parents: Vec<String> = Vec::new();
    wf_parents.push(wa.body_cid.clone());
    wf_parents.push(transition.body_cid.clone());
    assert(strings_view(wf_parents@) =~= seq![wa.body_cid@, transition.body_cid@]);
    let (wf_body, what) = match executed {
        Ok(res) => (wf_value(&rho_cid, &res), "wf:write-final"),
        Err(e) => {
            let reason = e.message();
            (wf_deny_value(&rho_cid, &reason), "wf:deny")
        },
    };

    // (4) WF: write-final
    let wf = build_stamped(
        "ubl/wf",
        wf_parents,
        wf_body,
        sign_key,
        kid,
        ghost_mode,
        &opts.logline,
        what,
    )?;
    let tip_cid = wf.body_cid.clone();
    Ok(RunResult { wa, transition: Some(transition), wf, tip_cid, ghost_mode })
}

/// The pipeline with the development keys, no ghost mode, no logline and no
/// idempotency set, extending `prev_tip` when given.
pub fn run_with_receipts_simple(
    manifest: &Manifest,
    vars: &JsonMap,
    cfg: &ExecuteConfig,
    prev_tip: Option<&str>,
) -> (r: Result<RunResult>)
    ensures
        run_matches(
            r,
            spec_run(
                *manifest,
                entries_model(vars@),
                opt_str_view(prev_tip),
                None,
                dev_seed(),
                "did:dev#k1"@,
            ),
            false,
            None,
        ),
{
    let keys = KeyRing::dev();
    let opts = RunOpts { prev_tip, ghost_mode: false, keys: &keys, seen: None, logline: None };
    run_with_receipts(manifest, vars, cfg, &opts)
}

// ---------------------------------------------------------------------------
// Laws
// ---------------------------------------------------------------------------

/// A run is refused exactly when its idempotency key (`pipeline:inputs_raw_cid`)
/// was already seen, with the replay message, or else when the signing key id
/// is empty; any other run yields its three receipts, whatever execution does.
pub proof fn lemma_run_refusals(
    m: Manifest,
    vars: Seq<(Seq<char>, Json)>,
    prev_tip: Option<Seq<char>>,
    seen: Option<Seq<Seq<char>>>,
    seed: Seq<u8>,
    kid: Seq<char>,
)
    ensures
        ({
            let replay = seen matches Some(s) && s.contains(
                idempotency_key(m.pipeline@, inputs_raw_cid(vars)),
            );
            &&& replay ==> spec_run(m, vars, prev_tip, seen, seed, kid) == Err::<RunModel, ErrModel>(
                ErrModel::Validation(replay_message(m.pipeline@, inputs_raw_cid(vars))),
            )
            &&& !replay && kid.len() == 0 ==> spec_run(m, vars, prev_tip, seen, seed, kid) == Err::<
                RunModel,
                ErrModel,
            >(ErrModel::Validation("proof.kid must not be empty"@))
            &&& !replay && kid.len() > 0 ==> spec_run(m, vars, prev_tip, seen, seed, kid) is Ok
        }),
{
}

/// The receipts of a run form a chain: the write-ahead receipt's parents are
/// the previous tip (if any), the transition's parent is the write-ahead
/// receipt, the write-final receipt's parents are both, in that order; each
/// receipt has its stage's type tag, the CID of its canonical body, and a
/// signature over that body under the run's key id.
pub proof fn lemma_run_chain(
    m: Manifest,
    vars: Seq<(Seq<char>, Json)>,
    prev_tip: Option<Seq<char>>,
    seen: Option<Seq<Seq<char>>>,
    seed: Seq<u8>,
    kid: Seq<char>,
)
    requires
        spec_run(m, vars, prev_tip, seen, seed, kid) is Ok,
    ensures
        ({
            let run = spec_run(m, vars, prev_tip, seen, seed, kid)->Ok_0;
            &&& run.wa.t == "ubl/wa"@ && run.transition.t == "ubl/transition"@ && run.wf.t
                == "ubl/wf"@
            &&& run.wa.parents == tip_parents(prev_tip)
            &&& run.transition.parents == seq![run.wa.body_cid]
            &&& run.wf.parents == seq![run.wa.body_cid, run.transition.body_cid]
            &&& run.wa.body_cid == body_cid_of(run.wa.body)
            &&& run.transition.body_cid == body_cid_of(run.transition.body)
            &&& run.wf.body_cid == body_cid_of(run.wf.body)
            &&& run.wa.proof == spec_sign_detached(spec_canonical_bytes(run.wa.body), seed, kid)
            &&& run.transition.proof == spec_sign_detached(
                spec_canonical_bytes(run.transition.body),
                seed,
                kid,
            )
            &&& run.wf.proof == spec_sign_detached(spec_canonical_bytes(run.wf.body), seed, kid)
            &&& run.wa.proof.kid == kid && run.transition.proof.kid == kid && run.wf.proof.kid == kid
        }),
{
}

/// A failed execution is answered with a DENY write-final receipt whose reason
/// is the error's text and whose outputs CID is null, never with an error; a
/// successful one with ALLOW and the CID of the output.
pub proof fn lemma_run_decision(
    m: Manifest,
    vars: Seq<(Seq<char>, Json)>,
    prev_tip: Option<Seq<char>>,
    seen: Option<Seq<Seq<char>>>,
    seed: Seq<u8>,
    kid: Seq<char>,
)
    requires
        spec_run(m, vars, prev_tip, seen, seed, kid) is Ok,
    ensures
        ({
            let run = spec_run(m, vars, prev_tip, seen, seed, kid)->Ok_0;
            match spec_execute(m, vars) {
                Err(e) => run.wf.body == wf_deny_body(inputs_rho_cid(vars), err_text(e))
                    && run.wf_what == "wf:deny"@,
                Ok(x) => run.wf.body == wf_body(
                    inputs_rho_cid(vars),
                    x.cid,
                    dimension_stack_spec(),
                    x.trace,
                ) && dimension_stack_spec().contains("policy"@) && run.wf_what
                    == "wf:write-final"@,
            }
        }),
{
    assert(dimension_stack_spec()[1] == "policy"@);
}

/// What the write-final body records, read off the JSON: its `rho_cid` is
/// the CID of the canonical inputs; on a successful execution its
/// `outputs_cid` is the CID of the executed output (the CID of the output's
/// canonical bytes) and its decision ALLOW; on a failed one its
/// `outputs_cid` is `null` and its decision DENY.
pub proof fn lemma_run_wf_cids(
    m: Manifest,
    vars: Seq<(Seq<char>, Json)>,
    prev_tip: Option<Seq<char>>,
    seen: Option<Seq<Seq<char>>>,
    seed: Seq<u8>,
    kid: Seq<char>,
)
    requires
        spec_run(m, vars, prev_tip, seen, seed, kid) is Ok,
    ensures
        ({
            let body = spec_run(m, vars, prev_tip, seen, seed, kid)->Ok_0.wf.body;
            &&& crate::json::json_get(body, "rho_cid"@) == Some(
                Json::Str(spec_cid(spec_canonical_bytes(Json::Obj(vars)))),
            )
            &&& match spec_execute(m, vars) {
                Ok(x) => crate::json::json_get(body, "outputs_cid"@) == Some(Json::Str(x.cid))
                    && x.cid == spec_cid(spec_canonical_bytes(x.output)) && crate::json::json_get(
                    body,
                    "decision"@,
                ) == Some(Json::Str("ALLOW"@)),
                Err(e) => crate::json::json_get(body, "outputs_cid"@) == Some(Json::Null)
                    && crate::json::json_get(body, "decision"@) == Some(Json::Str("DENY"@)),
            }
        }),
{
    reveal_strlit("decision");
    reveal_strlit("dimension_stack");
    reveal_strlit("outputs_cid");
    reveal_strlit("policy_trace");
    reveal_strlit("reason");
    reveal_strlit("rho_cid");
    reveal_strlit("type");
    lemma_run_decision(m, vars, prev_tip, seen, seed, kid);
    let run = spec_run(m, vars, prev_tip, seen, seed, kid)->Ok_0;
    let es = match run.wf.body {
        Json::Obj(es) => es,
        _ => Seq::empty(),
    };
    assert(es.len() == 6);
    assert(es[0].0.len() == 8 && es[1].0.len() == 15 && es[2].0.len() == 11 && es[3].0.len()
        != 7);
    assert(es[2].0 == "outputs_cid"@ && es[4].0 == "rho_cid"@);
    crate::json::lemma_map_get_skip(es, "outputs_cid"@, 2);
    crate::json::lemma_map_get_skip(es, "rho_cid"@, 4);
    crate::json::lemma_map_get_skip(es, "decision"@, 0);
    crate::engine::lemma_execute_cid(
        m,
        vars,
        crate::policy::spec_resolve(m.policy.allow, Seq::empty(), vars, None),
    );
}

/// The observability object holds `ghost: true` exactly in ghost mode and the
/// logline exactly when there is a logline context; with neither there is no
/// object at all.
pub proof fn lemma_observability_contents(
    ghost_mode: bool,
    ctx: Option<ContextModel>,
    what: Seq<char>,
    when: Seq<char>,
)
    ensures
        observability_json(ghost_mode, ctx, what, when) is Some <==> (ghost_mode || ctx is Some),
        observability_json(ghost_mode, ctx, what, when) matches Some(Json::Obj(es)) ==> {
            &&& crate::json::map_get(es, "ghost"@) == if ghost_mode {
                Some(Json::Bool(true))
            } else {
                None
            }
            &&& crate::json::map_get(es, "logline"@) == match ctx {
                Some(c) => Some(
                    logline_json(
                        LoglineModel {
                            who: c.who,
                            actor_did: c.actor_did,
                            what,
                            where_: c.where_,
                            when_iso: when,
                            why: c.why,
                            context_id: c.context_id,
                            version: "0.1.0"@,
                        },
                    ),
                ),
                None => None,
            }
        },
{
    reveal_strlit("ghost");
    reveal_strlit("logline");
    if let Some(Json::Obj(es)) = observability_json(ghost_mode, ctx, what, when) {
        reveal_with_fuel(crate::json::map_get, 3);
        if ghost_mode {
            assert(es[0].0 == "ghost"@);
            assert(es.drop_first().len() == 0 || es.drop_first()[0].0 == "logline"@);
            if es.len() > 1 {
                assert(es.drop_first().drop_first().len() == 0);
            }
        } else {
            assert(es.len() == 1);
            assert(es[0].0 == "logline"@);
            assert(es[0].0 != "ghost"@);
            assert(es.drop_first().len() == 0);
        }
    }
}

/// Two runs on the same inputs, keys and options agree in everything but the
/// time stamped in their loglines: the same outcome, the same bodies, body
/// CIDs and signatures, and the same tip.
pub proof fn lemma_run_deterministic(
    r1: Result<RunResult>,
    r2: Result<RunResult>,
    s: core::result::Result<RunModel, ErrModel>,
    ghost_mode: bool,
    ctx: Option<ContextModel>,
)
    requires
        run_matches(r1, s, ghost_mode, ctx),
        run_matches(r2, s, ghost_mode, ctx),
    ensures
        r1 is Ok <==> r2 is Ok,
        r1 matches Err(e1) ==> (r2 matches Err(e2) && e1@ == e2@),
        r1 matches Ok(a) ==> (r2 matches Ok(b) && {
            &&& a.tip_cid@ == b.tip_cid@
            &&& a.wa@.body == b.wa@.body && a.wa@.body_cid == b.wa@.body_cid && a.wa@.proof
                == b.wa@.proof
            &&& a.wf@.body == b.wf@.body && a.wf@.body_cid == b.wf@.body_cid && a.wf@.proof
                == b.wf@.proof
            &&& (a.transition matches Some(ta) && b.transition matches Some(tb) && ta@.body
                == tb@.body && ta@.body_cid == tb@.body_cid && ta@.proof == tb@.proof)
        }),
{
}


// ---------------------------------------------------------------------------
// JSON form
// ---------------------------------------------------------------------------

/// The JSON form of a detached JWS, keys in order.
pub open spec fn jws_json(p: JwsModel) -> Json {
    Json::Obj(
        seq![
            ("kid"@, Json::Str(p.kid)),
            ("protected"@, Json::Str(p.protected)),
            ("signature"@, Json::Str(p.signature)),
        ],
    )
}

/// The JSON form of a receipt, keys in order; absent observability is left out.
pub open spec fn receipt_json(r: ReceiptModel) -> Json {
    Json::Obj(
        seq![("body"@, r.body), ("body_cid"@, Json::Str(r.body_cid))] + (match r.observability {
            Some(o) => seq![("observability"@, o)],
            None => Seq::empty(),
        }) + seq![
            ("parents"@, strings_json(r.parents)),
            ("proof"@, jws_json(r.proof)),
            ("t"@, Json::Str(r.t)),
        ],
    )
}

impl Receipt {
    /// The JSON form of this receipt.
    pub fn to_json(&self) -> (r: JsonValue)
        ensures
            r.model() == receipt_json(self@),
    {
        let mut proof_o: Vec<(String, JsonValue)> = Vec::new();
        proof_o.push(str_entry("kid", self.proof.kid.as_str()));
        proof_o.push(str_entry("protected", self.proof.protected.as_str()));
        proof_o.push(str_entry("signature", self.proof.signature.as_str()));
        let ghost pm = proof_o@;
        let mut o: Vec<(String, JsonValue)> = Vec::new();
        o.push(("body".to_owned(), self.body.duplicate()));
        o.push(str_entry("body_cid", self.body_cid.as_str()));
        match &self.observability {
            Some(obs) => {
                o.push(("observability".to_owned(), obs.duplicate()));
            },
            None => {},
        }
        o.push(("parents".to_owned(), strings_value(&self.parents)));
        o.push(("proof".to_owned(), JsonValue::Object(proof_o)));
        o.push(str_entry("t", self.t.as_str()));
        proof {
            assert(entries_model(pm) =~= obj_entries(jws_json(self.proof@)));
            assert(entries_model(o@) =~= obj_entries(receipt_json(self@)));
        }
        JsonValue::Object(o)
    }
}

/// Without a logline context the observability does not depend on the time:
/// `ghost: true` in ghost mode, nothing otherwise.
pub open spec fn ghost_observability(ghost_mode: bool) -> Option<Json> {
    if ghost_mode {
        Some(Json::Obj(seq![("ghost"@, Json::Bool(true))]))
    } else {
        None
    }
}

/// `m` with the observability of a run without loglines.
pub open spec fn with_ghost(m: ReceiptModel, ghost_mode: bool) -> ReceiptModel {
    ReceiptModel {
        t: m.t,
        parents: m.parents,
        body: m.body,
        body_cid: m.body_cid,
        proof: m.proof,
        observability: ghost_observability(ghost_mode),
    }
}

/// A receipt stamped without a logline context is determined: its
/// observability is the ghost flag alone.
pub proof fn lemma_stamped_without_logline(
    r: ReceiptModel,
    m: ReceiptModel,
    ghost_mode: bool,
    what: Seq<char>,
)
    requires
        stamped(r, m, ghost_mode, None, what),
    ensures
        r == with_ghost(m, ghost_mode),
{
    let secs = choose|secs: nat|
        #![trigger iso_text(secs)]
        secs <= u64::MAX && r.observability == observability_json(
            ghost_mode,
            None,
            what,
            iso_text(secs),
        );
    if ghost_mode {
        assert(seq![("ghost"@, Json::Bool(true))] + Seq::<(Seq<char>, Json)>::empty() =~= seq![
            ("ghost"@, Json::Bool(true)),
        ]);
    }
}

} // verus!
