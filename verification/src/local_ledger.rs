//! The local ledger tool: content identifiers of blobs, attestations and
//! events with their required fields, the story of a CID, and the checks
//! made when verifying a CID or a receipt file.
use vstd::prelude::*;
use vstd::string::StringSliceAdditionalSpecFns;
use vstd::string::StrSliceExecFns;
use vstd::utf8::encode_utf8;
use crate::digest::{
    base32_nopad_encode, rfc3339_or_epoch_text, sha256_hash, spec_base32_nopad, spec_sha256,
    utc_now_rfc3339,
};
use crate::json::{entries_model, json_get, Json, JsonValue};
use crate::receipt::opt_str_view;
use crate::text::{append_str, chars_of, has_prefix, has_suffix, starts_with, ends_with, str_eq, string_from_chars};

verus! {

// ---------------------------------------------------------------------------
// Content identifiers
// ---------------------------------------------------------------------------

/// ASCII lower case of one character.
pub open spec fn lower_char(c: char) -> char {
    if 'A' <= c <= 'Z' {
        ((c as u32) + 32) as char
    } else {
        c
    }
}

/// ASCII lower case of a text.
pub open spec fn ascii_lower(s: Seq<char>) -> Seq<char> {
    s.map_values(|c: char| lower_char(c))
}

/// The local ledger's content identifier: `cidv1-raw-sha2-256:` and the
/// lower-case base32 (no padding) of the SHA-256 digest.
pub open spec fn spec_cidv1(bytes: Seq<u8>) -> Seq<char> {
    "cidv1-raw-sha2-256:"@ + ascii_lower(spec_base32_nopad(spec_sha256(bytes)))
}

/// Lower case of a text whose letters are ASCII (`str::to_lowercase` on such
/// text).
pub fn to_lower_ascii(s: &str) -> (r: String)
    ensures
        r@ == ascii_lower(s@),
{
    let mut out: Vec<char> = Vec::new();
    for c in it: s.chars()
        invariant
            it.seq() == s@,
            out@ == ascii_lower(s@.take(it.index() as int)),
    {
        proof {
            let k = it.index() as int;
            assert(ascii_lower(s@.take(k + 1)) =~= ascii_lower(s@.take(k)).push(lower_char(s@[k])));
        }
        if 'A' <= c && c <= 'Z' {
            let b: u8 = ((c as u32) + 32) as u8;
            let lc: char = b as char;
            out.push(lc);
        } else {
            out.push(c);
        }
    }
    assert(s@.take(s@.len() as int) =~= s@);
    string_from_chars(&out)
}

/// The content identifier under which the local ledger stores `bytes`.
pub fn cidv1_raw_sha256_base32(bytes: &[u8]) -> (r: String)
    ensures
        r@ == spec_cidv1(bytes@),
{
    let digest = sha256_hash(bytes);
    let b32 = base32_nopad_encode(&digest);
    let lower = to_lower_ascii(b32.as_str());
    let mut out: Vec<char> = Vec::new();
    append_str(&mut out, "cidv1-raw-sha2-256:");
    append_str(&mut out, lower.as_str());
    string_from_chars(&out)
}


// ---------------------------------------------------------------------------
// Attestations and events
// ---------------------------------------------------------------------------

/// The first of `required` that `obj` lacks.
pub open spec fn first_missing(obj: Json, required: Seq<Seq<char>>) -> Option<Seq<char>>
    decreases required.len(),
{
    if required.len() == 0 {
        None
    } else if json_get(obj, required[0]) is None {
        Some(required[0])
    } else {
        first_missing(obj, required.drop_first())
    }
}

pub open spec fn strs_view(v: Seq<&str>) -> Seq<Seq<char>> {
    v.map_values(|k: &str| k@)
}

/// Checks that `obj` has every required field; the error names the first
/// missing one.
pub fn validate_required(obj: &JsonValue, required: &[&str]) -> (r: Result<(), String>)
    ensures
        match first_missing(obj.model(), strs_view(required@)) {
            None => r is Ok,
            Some(k) => r matches Err(m) && m@ == "missing field: "@ + k,
        },
{
    let ghost req = strs_view(required@);
    let mut i: usize = 0;
    assert(req.skip(0) =~= req);
    while i < required.len()
        invariant
            i <= required.len(),
            req == strs_view(required@),
            first_missing(obj.model(), req) == first_missing(obj.model(), req.skip(i as int)),
        decreases required.len() - i,
    {
        let k: &str = required[i];
        assert(req.skip(i as int)[0] == k@);
        if obj.get(k).is_none() {
            let mut out: Vec<char> = Vec::new();
            append_str(&mut out, "missing field: ");
            append_str(&mut out, k);
            return Err(string_from_chars(&out));
        }
        assert(req.skip(i as int).drop_first() =~= req.skip(i + 1));
        i = i + 1;
    }
    Ok(())
}

/// The creation time of a record, the epoch when it has none.
pub open spec fn created_at_of(v: Json) -> Seq<char> {
    match crate::audit::json_str(json_get(v, "created_at"@)) {
        Some(s) => s,
        None => "1970-01-01T00:00:00Z"@,
    }
}

/// The creation time of a record, the epoch when it has none.
pub fn parse_created_at(v: &JsonValue) -> (r: String)
    ensures
        r@ == created_at_of(v.model()),
{
    match v.get("created_at") {
        Some(x) => match x.as_str() {
            Some(s) => s.clone(),
            None => "1970-01-01T00:00:00Z".to_owned(),
        },
        None => "1970-01-01T00:00:00Z".to_owned(),
    }
}

/// An attestation that `signer` makes `claim` about `target_cid`, keys in order.
pub open spec fn attestation_json(
    target_cid: Seq<char>,
    claim: Seq<char>,
    signer: Seq<char>,
    created_at: Seq<char>,
) -> Json {
    Json::Obj(
        seq![
            ("claim"@, Json::Str(claim)),
            ("created_at"@, Json::Str(created_at)),
            ("evidence"@, Json::Arr(Seq::empty())),
            ("signature"@, Json::Str("base64:TODO"@)),
            ("signer"@, Json::Str(signer)),
            ("target_cid"@, Json::Str(target_cid)),
            ("type"@, Json::Str("attestation"@)),
        ],
    )
}

/// An event of `kind` about `subject`, with an optional title, keys in order.
pub open spec fn event_json(
    kind: Seq<char>,
    subject: Seq<char>,
    title: Option<Seq<char>>,
    created_at: Seq<char>,
) -> Json {
    Json::Obj(
        seq![
            ("author"@, Json::Str("@local/user"@)),
            ("created_at"@, Json::Str(created_at)),
            ("kind"@, Json::Str(kind)),
            (
                "metadata"@,
                Json::Obj(
                    match title {
                        Some(t) => seq![("title"@, Json::Str(t))],
                        None => Seq::empty(),
                    },
                ),
            ),
            ("signature"@, Json::Str("base64:TODO"@)),
            ("subjects"@, Json::Arr(seq![Json::Str(subject)])),
            ("type"@, Json::Str("event"@)),
        ],
    )
}

/// `s` with each `:` written `_` (for file names).
pub open spec fn colons_to_underscores(s: Seq<char>) -> Seq<char> {
    s.map_values(|c: char| if c == ':' { '_' } else { c })
}

/// The file name of a record: `<prefix>-<name>-<time, ':' as '_'>.json`.
pub open spec fn record_file_name(prefix: Seq<char>, name: Seq<char>, now: Seq<char>) -> Seq<char> {
    prefix + "-"@ + name + "-"@ + colons_to_underscores(now) + ".json"@
}

fn file_name(prefix: &str, name: &str, now: &str) -> (r: String)
    ensures
        r@ == record_file_name(prefix@, name@, now@),
{
    let mut out: Vec<char> = Vec::new();
    append_str(&mut out, prefix);
    append_str(&mut out, "-");
    append_str(&mut out, name);
    append_str(&mut out, "-");
    let ghost start = out@;
    for c in it: now.chars()
        invariant
            it.seq() == now@,
            out@ == start + colons_to_underscores(now@.take(it.index() as int)),
    {
        proof {
            let k = it.index() as int;
            assert(colons_to_underscores(now@.take(k + 1)) =~= colons_to_underscores(
                now@.take(k),
            ).push(if now@[k] == ':' { '_' } else { now@[k] }));
        }
        if c == ':' {
            out.push('_');
        } else {
            out.push(c);
        }
    }
    assert(now@.take(now@.len() as int) =~= now@);
    append_str(&mut out, ".json");
    assert(out@ =~= record_file_name(prefix@, name@, now@));
    string_from_chars(&out)
}

fn str_entry(key: &str, val: &str) -> (r: (String, JsonValue))
    ensures
        r.0@ == key@,
        r.1.model() == Json::Str(val@),
{
    (key.to_owned(), JsonValue::from_str(val))
}

/// The fields an attestation must have.
pub open spec fn attestation_fields() -> Seq<Seq<char>> {
    seq!["type"@, "target_cid"@, "claim"@, "signer"@, "created_at"@, "signature"@]
}

/// The fields an event must have.
pub open spec fn event_fields() -> Seq<Seq<char>> {
    seq!["type"@, "kind"@, "subjects"@, "author"@, "created_at"@, "signature"@]
}

/// An attestation made at `now`, checked for its required fields, and the
/// name of the file it is kept in.
pub fn attestation_at(target_cid: &str, claim: &str, signer: &str, now: &str) -> (r: Result<
    (String, JsonValue),
    String,
>)
    ensures
        r matches Ok((name, doc)) && doc.model() == attestation_json(
            target_cid@,
            claim@,
            signer@,
            now@,
        ) && name@ == record_file_name("attest"@, claim@, now@),
{
    let mut o: Vec<(String, JsonValue)> = Vec::new();
    o.push(str_entry("claim", claim));
    o.push(str_entry("created_at", now));
    let evidence: Vec<JsonValue> = Vec::new();
    let ghost em = evidence@;
    o.push(("evidence".to_owned(), JsonValue::Array(evidence)));
    o.push(str_entry("signature", "base64:TODO"));
    o.push(str_entry("signer", signer));
    o.push(str_entry("target_cid", target_cid));
    o.push(str_entry("type", "attestation"));
    let doc = JsonValue::Object(o);
    proof {
        assert(crate::json::values_model(em) =~= Seq::<Json>::empty());
        assert(entries_model(o@) =~= match attestation_json(target_cid@, claim@, signer@, now@) {
            Json::Obj(es) => es,
            _ => Seq::empty(),
        });
        lemma_attestation_complete(target_cid@, claim@, signer@, now@);
    }
    let required: [&str; 6] = ["type", "target_cid", "claim", "signer", "created_at", "signature"];
    assert(strs_view(required@) =~= attestation_fields());
    validate_required(&doc, &required)?;
    Ok((file_name("attest", claim, now), doc))
}

/// An event made at `now`, checked for its required fields, and the name of
/// the file it is kept in.
pub fn event_at(kind: &str, subject: &str, title: Option<&str>, now: &str) -> (r: Result<
    (String, JsonValue),
    String,
>)
    ensures
        r matches Ok((name, doc)) && doc.model() == event_json(
            kind@,
            subject@,
            opt_str_view(title),
            now@,
        ) && name@ == record_file_name("event"@, kind@, now@),
{
    let ghost tv = opt_str_view(title);
    let mut meta: Vec<(String, JsonValue)> = Vec::new();
    match title {
        Some(t) => {
            meta.push(str_entry("title", t));
        },
        None => {},
    }
    let ghost mm = meta@;
    let mut subjects: Vec<JsonValue> = Vec::new();
    subjects.push(JsonValue::from_str(subject));
    let ghost sm = subjects@;
    let mut o: Vec<(String, JsonValue)> = Vec::new();
    o.push(str_entry("author", "@local/user"));
    o.push(str_entry("created_at", now));
    o.push(str_entry("kind", kind));
    o.push(("metadata".to_owned(), JsonValue::Object(meta)));
    o.push(str_entry("signature", "base64:TODO"));
    o.push(("subjects".to_owned(), JsonValue::Array(subjects)));
    o.push(str_entry("type", "event"));
    let doc = JsonValue::Object(o);
    proof {
        assert(entries_model(mm) =~= match tv {
            Some(t) => seq![("title"@, Json::Str(t))],
            None => Seq::empty(),
        });
        assert(crate::json::values_model(sm) =~= seq![Json::Str(subject@)]);
        assert(entries_model(o@) =~= match event_json(kind@, subject@, tv, now@) {
            Json::Obj(es) => es,
            _ => Seq::empty(),
        });
        lemma_event_complete(kind@, subject@, tv, now@);
    }
    let required: [&str; 6] = ["type", "kind", "subjects", "author", "created_at", "signature"];
    assert(strs_view(required@) =~= event_fields());
    validate_required(&doc, &required)?;
    Ok((file_name("event", kind, now), doc))
}

/// An attestation as made here has every field an attestation must have.
pub proof fn lemma_attestation_complete(
    target_cid: Seq<char>,
    claim: Seq<char>,
    signer: Seq<char>,
    now: Seq<char>,
)
    ensures
        first_missing(attestation_json(target_cid, claim, signer, now), attestation_fields()) is None,
{
    let j = attestation_json(target_cid, claim, signer, now);
    reveal_with_fuel(crate::json::map_get, 8);
    reveal_with_fuel(first_missing, 7);
    reveal_strlit("type");
    reveal_strlit("target_cid");
    reveal_strlit("claim");
    reveal_strlit("signer");
    reveal_strlit("created_at");
    reveal_strlit("signature");
    reveal_strlit("evidence");
}

/// An event as made here has every field an event must have.
pub proof fn lemma_event_complete(
    kind: Seq<char>,
    subject: Seq<char>,
    title: Option<Seq<char>>,
    now: Seq<char>,
)
    ensures
        first_missing(event_json(kind, subject, title, now), event_fields()) is None,
{
    reveal_with_fuel(crate::json::map_get, 8);
    reveal_with_fuel(first_missing, 7);
    reveal_strlit("type");
    reveal_strlit("kind");
    reveal_strlit("subjects");
    reveal_strlit("author");
    reveal_strlit("created_at");
    reveal_strlit("signature");
    reveal_strlit("metadata");
}


/// An attestation stamped with the current time (RFC 3339, UTC).
pub fn new_attestation(target_cid: &str, claim: &str, signer: &str) -> (r: Result<
    (String, JsonValue),
    String,
>)
    ensures
        exists|secs: u64, nanos: u32|
            #![trigger rfc3339_or_epoch_text(secs, nanos)]
            nanos < 1_000_000_000 && (r matches Ok((name, doc)) && doc.model() == attestation_json(
                target_cid@,
                claim@,
                signer@,
                rfc3339_or_epoch_text(secs, nanos),
            ) && name@ == record_file_name("attest"@, claim@, rfc3339_or_epoch_text(secs, nanos))),
{
    let now = utc_now_rfc3339();
    attestation_at(target_cid, claim, signer, now.as_str())
}

/// An event stamped with the current time (RFC 3339, UTC).
pub fn new_event(kind: &str, subject: &str, title: Option<&str>) -> (r: Result<
    (String, JsonValue),
    String,
>)
    ensures
        exists|secs: u64, nanos: u32|
            #![trigger rfc3339_or_epoch_text(secs, nanos)]
            nanos < 1_000_000_000 && (r matches Ok((name, doc)) && doc.model() == event_json(
                kind@,
                subject@,
                opt_str_view(title),
                rfc3339_or_epoch_text(secs, nanos),
            ) && name@ == record_file_name("event"@, kind@, rfc3339_or_epoch_text(secs, nanos))),
{
    let now = utc_now_rfc3339();
    event_at(kind, subject, title, now.as_str())
}

/// The shard directory of a blob: the last two bytes of its CID text (all
/// of it when shorter). The directory name is text whenever those bytes
/// begin at a character.
pub fn shard_of(cid: &str) -> (r: Vec<u8>)
    ensures
        r@ == cid.spec_bytes().skip(
            if cid.spec_bytes().len() >= 2 {
                cid.spec_bytes().len() - 2
            } else {
                0
            },
        ),
{
    let b = cid.as_bytes();
    let start: usize = if b.len() >= 2 {
        b.len() - 2
    } else {
        0
    };
    let mut out: Vec<u8> = Vec::new();
    let mut i: usize = start;
    while i < b.len()
        invariant
            start <= i <= b.len(),
            out@ == b@.subrange(start as int, i as int),
        decreases b.len() - i,
    {
        out.push(b[i]);
        i = i + 1;
        assert(out@ =~= b@.subrange(start as int, i as int));
    }
    assert(b@.skip(start as int) =~= b@.subrange(start as int, b@.len() as int));
    out
}

// ---------------------------------------------------------------------------
// Verifying
// ---------------------------------------------------------------------------

/// What `verify` is asked to check.
#[derive(Debug, Clone, Copy, PartialEq, Eq, Structural)]
pub enum VerifyTarget {
    /// A receipt file (the argument ends in `.json`).
    ReceiptFile,
    /// A content identifier of the ledger.
    Cid,
}

pub open spec fn spec_verify_target(arg: Seq<char>) -> core::result::Result<VerifyTarget, Seq<char>> {
    if has_suffix(arg, ".json"@) {
        Ok(VerifyTarget::ReceiptFile)
    } else if !has_prefix(arg, "cidv1-raw-sha2-256:"@) && !has_prefix(arg, "b3:"@) {
        Err("invalid CID form (expected cidv1-raw-sha2-256:... or b3:...)"@)
    } else {
        Ok(VerifyTarget::Cid)
    }
}

/// Whether `verify <arg>` checks a receipt file or a CID; anything else is refused.
pub fn verify_target(arg: &str) -> (r: Result<VerifyTarget, String>)
    ensures
        match spec_verify_target(arg@) {
            Ok(t) => r == Ok::<VerifyTarget, String>(t),
            Err(m) => r matches Err(e) && e@ == m,
        },
{
    let a = chars_of(arg);
    if ends_with(&a, &chars_of(".json")) {
        return Ok(VerifyTarget::ReceiptFile);
    }
    if !starts_with(&a, &chars_of("cidv1-raw-sha2-256:")) && !starts_with(&a, &chars_of("b3:")) {
        return Err("invalid CID form (expected cidv1-raw-sha2-256:... or b3:...)".to_owned());
    }
    Ok(VerifyTarget::Cid)
}

/// What checking a receipt file finds.
#[derive(Debug, Clone)]
pub struct ReceiptInspection {
    /// The type tag (empty when there is none)
    pub t: String,
    pub body_cid: String,
    /// Whether the body CID has the `b3:` + 64 hex form (by its length in bytes)
    pub cid_format_ok: bool,
    /// For a transition receipt: the preimage CID and the rho CID ("?" when absent)
    pub transition: Option<(String, String)>,
    /// The number of parents, when they are an array
    pub parents: Option<usize>,
}

pub open spec fn str_or(v: Option<Json>, default: Seq<char>) -> Seq<char> {
    match crate::audit::json_str(v) {
        Some(s) => s,
        None => default,
    }
}

fn get_str_or(v: &JsonValue, key: &str, default: &str) -> (r: String)
    ensures
        r@ == str_or(json_get(v.model(), key@), default@),
{
    match v.get(key) {
        Some(x) => match x.as_str() {
            Some(s) => s.clone(),
            None => default.to_owned(),
        },
        None => default.to_owned(),
    }
}

/// Checks a receipt read from a file: it must have a string `body_cid`, a
/// `body` and a `proof`.
pub fn inspect_receipt(rc: &JsonValue) -> (r: Result<ReceiptInspection, String>)
    ensures
        match crate::audit::json_str(json_get(rc.model(), "body_cid"@)) {
            None => r matches Err(m) && m@ == "missing body_cid"@,
            Some(cid) => if json_get(rc.model(), "body"@) is None {
                r matches Err(m) && m@ == "missing body"@
            } else if json_get(rc.model(), "proof"@) is None {
                r matches Err(m) && m@ == "missing proof"@
            } else {
                r matches Ok(x) && {
                    let t = str_or(json_get(rc.model(), "t"@), ""@);
                    let body = json_get(rc.model(), "body"@)->Some_0;
                    &&& x.t@ == t
                    &&& x.body_cid@ == cid
                    &&& x.cid_format_ok == (has_prefix(cid, "b3:"@) && encode_utf8(cid).len() == 67)
                    &&& (t == "ubl/transition"@) == (x.transition is Some)
                    &&& (x.transition matches Some((from, to)) ==> from@ == str_or(
                        json_get(body, "preimage_raw_cid"@),
                        "?"@,
                    ) && to@ == str_or(json_get(body, "rho_cid"@), "?"@))
                    &&& x.parents == match json_get(rc.model(), "parents"@) {
                        Some(Json::Arr(xs)) => Some(xs.len() as usize),
                        _ => None,
                    }
                }
            },
        },
{
    let t = get_str_or(rc, "t", "");
    let body_cid = match rc.get("body_cid") {
        Some(x) => match x.as_str() {
            Some(s) => s.clone(),
            None => {
                return Err("missing body_cid".to_owned());
            },
        },
        None => {
            return Err("missing body_cid".to_owned());
        },
    };
    let body = match rc.get("body") {
        Some(b) => b,
        None => {
            return Err("missing body".to_owned());
        },
    };
    if rc.get("proof").is_none() {
        return Err("missing proof".to_owned());
    }
    let cid_chars = chars_of(body_cid.as_str());
    let cid_format_ok = starts_with(&cid_chars, &chars_of("b3:")) && body_cid.as_str().as_bytes_vec().len()
        == 67;
    let transition = if str_eq(t.as_str(), "ubl/transition") {
        Some((get_str_or(body, "preimage_raw_cid", "?"), get_str_or(body, "rho_cid", "?")))
    } else {
        None
    };
    let parents = match rc.get("parents") {
        Some(JsonValue::Array(xs)) => {
            proof {
                crate::json::lemma_array_model(*xs);
            }
            Some(xs.len())
        },
        _ => None,
    };
    Ok(ReceiptInspection { t, body_cid, cid_format_ok, transition, parents })
}


// ---------------------------------------------------------------------------
// The story of a CID
// ---------------------------------------------------------------------------

/// An attestation about `target`.
pub open spec fn attests(v: Json, target: Seq<char>) -> bool {
    crate::audit::json_str(json_get(v, "target_cid"@)) == Some(target)
}

/// An event that has `target` among its subjects.
pub open spec fn mentions(v: Json, target: Seq<char>) -> bool {
    match json_get(v, "subjects"@) {
        Some(Json::Arr(xs)) => exists|i: int| #![trigger xs[i]] 0 <= i < xs.len() && xs[i] == Json::Str(target),
        _ => false,
    }
}

/// The records about `target`, in order: attestations when `events` is
/// false, events otherwise.
pub open spec fn about(xs: Seq<Json>, target: Seq<char>, events: bool) -> Seq<Json>
    decreases xs.len(),
{
    if xs.len() == 0 {
        Seq::empty()
    } else {
        let rest = about(xs.drop_last(), target, events);
        if (events && mentions(xs.last(), target)) || (!events && attests(xs.last(), target)) {
            rest.push(xs.last())
        } else {
            rest
        }
    }
}

/// Where a record goes among records sorted by creation time: after every
/// record created at the same time or earlier.
pub open spec fn created_pos(sorted: Seq<Json>, key: Seq<char>) -> int
    decreases sorted.len(),
{
    if sorted.len() == 0 || crate::text::seq_lt(key, created_at_of(sorted[0])) {
        0
    } else {
        created_pos(sorted.drop_first(), key) + 1
    }
}

/// The records sorted by creation time, records created at the same time in
/// their original order (a stable sort).
pub open spec fn sort_by_created(xs: Seq<Json>) -> Seq<Json>
    decreases xs.len(),
{
    if xs.len() == 0 {
        Seq::empty()
    } else {
        let s = sort_by_created(xs.drop_last());
        s.insert(created_pos(s, created_at_of(xs.last())), xs.last())
    }
}

pub open spec fn event_line(ev: Json) -> Seq<char> {
    "- ["@ + created_at_of(ev) + "] "@ + str_or(json_get(ev, "kind"@), "?"@) + " "@ + match json_get(
        ev,
        "metadata"@,
    ) {
        Some(m) => str_or(json_get(m, "title"@), ""@),
        None => ""@,
    }
}

pub open spec fn attestation_line(at: Json) -> Seq<char> {
    "- ["@ + created_at_of(at) + "] "@ + str_or(json_get(at, "claim"@), "?"@) + " (by "@ + str_or(
        json_get(at, "signer"@),
        "?"@,
    ) + ")"@
}

/// The lines of the story of `target`: its events, then its attestations,
/// each sorted by creation time.
pub open spec fn story_lines(atts: Seq<Json>, events: Seq<Json>, target: Seq<char>) -> Seq<Seq<char>> {
    let evs = sort_by_created(about(events, target, true));
    let ats = sort_by_created(about(atts, target, false));
    seq!["# Story for "@ + target, ""@] + (if evs.len() > 0 {
        seq!["## Events"@] + evs.map_values(|e: Json| event_line(e)) + seq![""@]
    } else {
        Seq::empty()
    }) + (if ats.len() > 0 {
        seq!["## Attestations"@] + ats.map_values(|a: Json| attestation_line(a)) + seq![""@]
    } else {
        Seq::empty()
    }) + (if evs.len() == 0 && ats.len() == 0 {
        seq!["_No events or attestations found for this CID._"@]
    } else {
        Seq::empty()
    })
}

fn is_about(v: &JsonValue, target: &str, events: bool) -> (r: bool)
    ensures
        r == ((events && mentions(v.model(), target@)) || (!events && attests(v.model(), target@))),
{
    if events {
        match v.get("subjects") {
            Some(JsonValue::Array(xs)) => {
                proof {
                    crate::json::lemma_array_model(*xs);
                }
                let ghost xm = crate::json::values_model(xs@);
                assert(json_get(v.model(), "subjects"@) == Some(Json::Arr(xm)));
                let mut i: usize = 0;
                while i < xs.len()
                    invariant
                        i <= xs.len(),
                        xm == crate::json::values_model(xs@),
                        json_get(v.model(), "subjects"@) == Some(Json::Arr(xm)),
                        events,
                        forall|k: int| 0 <= k < i ==> xm[k] != Json::Str(target@),
                    decreases xs.len() - i,
                {
                    assert(xm[i as int] == xs@[i as int].model());
                    match xs[i].as_str() {
                        Some(s) => {
                            if str_eq(s.as_str(), target) {
                                assert(xm[i as int] == Json::Str(target@));
                                assert(mentions(v.model(), target@));
                                return true;
                            }
                        },
                        None => {},
                    }
                    i = i + 1;
                }
                false
            },
            _ => false,
        }
    } else {
        match v.get("target_cid") {
            Some(x) => match x.as_str() {
                Some(s) => str_eq(s.as_str(), target),
                None => false,
            },
            None => false,
        }
    }
}

/// The records about `target`, in order.
fn select_about(xs: &Vec<JsonValue>, target: &str, events: bool) -> (r: Vec<JsonValue>)
    ensures
        crate::json::values_model(r@) == about(crate::json::values_model(xs@), target@, events),
{
    let ghost xm = crate::json::values_model(xs@);
    let mut out: Vec<JsonValue> = Vec::new();
    let mut i: usize = 0;
    assert(xm.take(0) =~= Seq::<Json>::empty());
    assert(crate::json::values_model(out@) =~= Seq::<Json>::empty());
    while i < xs.len()
        invariant
            i <= xs.len(),
            xm == crate::json::values_model(xs@),
            crate::json::values_model(out@) == about(xm.take(i as int), target@, events),
        decreases xs.len() - i,
    {
        proof {
            assert(xm.take(i + 1).drop_last() =~= xm.take(i as int));
            assert(xm.take(i + 1).last() == xs@[i as int].model());
        }
        if is_about(&xs[i], target, events) {
            let ghost prev = out@;
            out.push(xs[i].duplicate());
            assert(crate::json::values_model(out@) =~= crate::json::values_model(prev).push(
                xs@[i as int].model(),
            ));
        }
        i = i + 1;
    }
    assert(xm.take(xs.len() as int) =~= xm);
    out
}

/// The records sorted by creation time, stably.
fn sort_records(xs: &Vec<JsonValue>) -> (r: Vec<JsonValue>)
    ensures
        crate::json::values_model(r@) == sort_by_created(crate::json::values_model(xs@)),
{
    let ghost xm = crate::json::values_model(xs@);
    let mut out: Vec<JsonValue> = Vec::new();
    let mut i: usize = 0;
    assert(xm.take(0) =~= Seq::<Json>::empty());
    assert(crate::json::values_model(out@) =~= Seq::<Json>::empty());
    while i < xs.len()
        invariant
            i <= xs.len(),
            xm == crate::json::values_model(xs@),
            crate::json::values_model(out@) == sort_by_created(xm.take(i as int)),
        decreases xs.len() - i,
    {
        proof {
            assert(xm.take(i + 1).drop_last() =~= xm.take(i as int));
            assert(xm.take(i + 1).last() == xs@[i as int].model());
        }
        let key = chars_of(parse_created_at(&xs[i]).as_str());
        let ghost om = crate::json::values_model(out@);
        let mut p: usize = 0;
        assert(om.skip(0) =~= om);
        while p < out.len()
            invariant
                p <= out.len(),
                om == crate::json::values_model(out@),
                key@ == created_at_of(xs@[i as int].model()),
                created_pos(om, key@) == p + created_pos(om.skip(p as int), key@),
            ensures
                p <= out.len(),
                created_pos(om, key@) == p + created_pos(om.skip(p as int), key@),
                p < out.len() ==> crate::text::seq_lt(key@, created_at_of(om[p as int])),
            decreases out.len() - p,
        {
            let other = chars_of(parse_created_at(&out[p]).as_str());
            assert(om.skip(p as int)[0] == om[p as int]);
            assert(om[p as int] == out@[p as int].model());
            if crate::text::chars_lt(&key, &other) {
                break;
            }
            assert(om.skip(p as int).drop_first() =~= om.skip(p + 1));
            p = p + 1;
        }
        proof {
            if p == out.len() {
                assert(om.skip(p as int).len() == 0);
            } else {
                assert(om.skip(p as int)[0] == om[p as int]);
            }
            assert(created_pos(om, key@) == p);
        }
        let ghost prev = out@;
        out.insert(p, xs[i].duplicate());
        proof {
            assert(crate::json::values_model(out@) =~= om.insert(p as int, xs@[i as int].model()));
        }
        i = i + 1;
    }
    assert(xm.take(xs.len() as int) =~= xm);
    out
}

/// The line of an event, or of an attestation.
pub open spec fn section_line(e: Json, events: bool) -> Seq<char> {
    if events {
        event_line(e)
    } else {
        attestation_line(e)
    }
}

fn line_of(v: &JsonValue, events: bool) -> (r: String)
    ensures
        r@ == section_line(v.model(), events),
{
    let mut out: Vec<char> = Vec::new();
    append_str(&mut out, "- [");
    append_str(&mut out, parse_created_at(v).as_str());
    append_str(&mut out, "] ");
    if events {
        append_str(&mut out, get_str_or(v, "kind", "?").as_str());
        append_str(&mut out, " ");
        let title = match v.get("metadata") {
            Some(m) => get_str_or(m, "title", ""),
            None => "".to_owned(),
        };
        append_str(&mut out, title.as_str());
        assert(out@ =~= event_line(v.model()));
    } else {
        append_str(&mut out, get_str_or(v, "claim", "?").as_str());
        append_str(&mut out, " (by ");
        append_str(&mut out, get_str_or(v, "signer", "?").as_str());
        append_str(&mut out, ")");
        assert(out@ =~= attestation_line(v.model()));
    }
    string_from_chars(&out)
}

fn push_section(lines: &mut Vec<String>, title: &str, recs: &Vec<JsonValue>, events: bool)
    requires
        recs@.len() > 0,
    ensures
        strings_view_of(final(lines)@) == strings_view_of(old(lines)@) + seq![title@]
            + crate::json::values_model(recs@).map_values(|e: Json| section_line(e, events)) + seq![
            ""@,
        ],
{
    let ghost start = strings_view_of(lines@);
    let ghost rm = crate::json::values_model(recs@);
    lines.push(title.to_owned());
    let mut i: usize = 0;
    assert(strings_view_of(lines@) =~= start + seq![title@] + rm.map_values(|e: Json| section_line(e, events)).take(0));
    while i < recs.len()
        invariant
            i <= recs.len(),
            rm == crate::json::values_model(recs@),
            strings_view_of(lines@) == start + seq![title@] + rm.map_values(|e: Json| section_line(e, events)).take(i as int),
        decreases recs.len() - i,
    {
        let l = line_of(&recs[i], events);
        let ghost prev = lines@;
        lines.push(l);
        proof {
            assert(rm[i as int] == recs@[i as int].model());
            assert(rm.map_values(|e: Json| section_line(e, events))[i as int] == section_line(
                rm[i as int],
                events,
            ));
            assert(l@ == section_line(rm[i as int], events));
            assert(rm.map_values(|e: Json| section_line(e, events)).take(i + 1) =~= rm.map_values(|e: Json| section_line(e, events)).take(i as int).push(
                section_line(recs@[i as int].model(), events),
            ));
            assert(strings_view_of(lines@) =~= strings_view_of(prev).push(l@));
        }
        i = i + 1;
    }
    lines.push("".to_owned());
    assert(rm.map_values(|e: Json| section_line(e, events)).take(recs.len() as int) =~= rm.map_values(|e: Json| section_line(e, events)));
    assert(strings_view_of(lines@) =~= start + seq![title@] + rm.map_values(|e: Json| section_line(e, events)) + seq![""@]);
}

pub open spec fn strings_view_of(v: Seq<String>) -> Seq<Seq<char>> {
    v.map_values(|s: String| s@)
}

/// The story of `target`, line by line: the events that name it and the
/// attestations about it, each sorted by creation time.
pub fn story_lines_for(atts: &Vec<JsonValue>, events: &Vec<JsonValue>, target: &str) -> (r: Vec<
    String,
>)
    ensures
        strings_view_of(r@) == story_lines(
            crate::json::values_model(atts@),
            crate::json::values_model(events@),
            target@,
        ),
{
    let evs = sort_records(&select_about(events, target, true));
    let ats = sort_records(&select_about(atts, target, false));
    let mut lines: Vec<String> = Vec::new();
    let mut head: Vec<char> = Vec::new();
    append_str(&mut head, "# Story for ");
    append_str(&mut head, target);
    lines.push(string_from_chars(&head));
    lines.push("".to_owned());
    let ghost after_head = strings_view_of(lines@);
    assert(after_head =~= seq!["# Story for "@ + target@, ""@]);
    if evs.len() > 0 {
        push_section(&mut lines, "## Events", &evs, true);
    }
    let ghost after_events = strings_view_of(lines@);
    if ats.len() > 0 {
        push_section(&mut lines, "## Attestations", &ats, false);
    }
    let ghost after_atts = strings_view_of(lines@);
    if evs.len() == 0 && ats.len() == 0 {
        lines.push("_No events or attestations found for this CID._".to_owned());
    }
    proof {
        let evm = crate::json::values_model(evs@);
        let atm = crate::json::values_model(ats@);
        let target_lines = story_lines(
            crate::json::values_model(atts@),
            crate::json::values_model(events@),
            target@,
        );
        if evs.len() > 0 {
            assert(evm.map_values(|e: Json| section_line(e, true)) =~= evm.map_values(
                |e: Json| event_line(e),
            ));
        }
        if ats.len() > 0 {
            assert(atm.map_values(|e: Json| section_line(e, false)) =~= atm.map_values(
                |a: Json| attestation_line(a),
            ));
        }
        assert(strings_view_of(lines@) =~= target_lines);
    }
    lines
}

} // verus!
