//! JWS detached signatures (RFC 7797, `b64=false`): the payload is signed but
//! not embedded, so the CID of a receipt body never depends on its signature.
use vstd::prelude::*;
use vstd::string::StrSliceExecFns;
use vstd::utf8::encode_utf8;
use crate::digest::{
    base64url_decode, base64url_encode, ed25519_public, ed25519_sign, ed25519_verify,
    spec_base64url_decode,
    spec_base64url_encode, spec_ed25519_public, spec_ed25519_sign, spec_ed25519_verify,
};
use crate::json::{entries_model, text, to_bytes, Json, JsonValue};

verus! {

/// A detached JWS: protected header, signature, and the key id.
#[derive(Debug, Clone, PartialEq, Eq)]
pub struct JwsDetached {
    pub protected: String,
    pub signature: String,
    pub kid: String,
}

pub struct JwsModel {
    pub protected: Seq<char>,
    pub signature: Seq<char>,
    pub kid: Seq<char>,
}

impl View for JwsDetached {
    type V = JwsModel;

    open spec fn view(&self) -> JwsModel {
        JwsModel { protected: self.protected@, signature: self.signature@, kid: self.kid@ }
    }
}

/// The protected header: `{"alg":"EdDSA","b64":false,"crit":["b64"],"kid":kid,"typ":"ubl/rc+json"}`.
pub open spec fn header_json(kid: Seq<char>) -> Json {
    Json::Obj(
        seq![
            ("alg"@, Json::Str("EdDSA"@)),
            ("b64"@, Json::Bool(false)),
            ("crit"@, Json::Arr(seq![Json::Str("b64"@)])),
            ("kid"@, Json::Str(kid)),
            ("typ"@, Json::Str("ubl/rc+json"@)),
        ],
    )
}

/// The base64url text of the protected header.
pub open spec fn spec_protected(kid: Seq<char>) -> Seq<char> {
    spec_base64url_encode(encode_utf8(text(header_json(kid))))
}

/// RFC 7797 signing input: `ASCII(protected) || '.' || payload`.
pub open spec fn signing_input(protected: Seq<char>, payload: Seq<u8>) -> Seq<u8> {
    encode_utf8(protected) + seq![46u8] + payload
}

/// The JWS that `sign_detached` gives.
pub open spec fn spec_sign_detached(payload: Seq<u8>, seed: Seq<u8>, kid: Seq<char>) -> JwsModel {
    JwsModel {
        protected: spec_protected(kid),
        signature: spec_base64url_encode(
            spec_ed25519_sign(seed, signing_input(spec_protected(kid), payload)),
        ),
        kid,
    }
}

/// Whether `verify_detached` accepts.
pub open spec fn spec_verify_detached(jws: JwsModel, payload: Seq<u8>, public: Seq<u8>) -> bool {
    match spec_base64url_decode(jws.signature) {
        Some(sig) => spec_ed25519_verify(public, signing_input(jws.protected, payload), sig),
        None => false,
    }
}

fn header_value(kid: &str) -> (r: JsonValue)
    ensures
        r.model() == header_json(kid@),
{
    let mut crit: Vec<JsonValue> = Vec::new();
    crit.push(JsonValue::from_str("b64"));
    let mut o: Vec<(String, JsonValue)> = Vec::new();
    o.push(("alg".to_owned(), JsonValue::from_str("EdDSA")));
    o.push(("b64".to_owned(), JsonValue::Bool(false)));
    o.push(("crit".to_owned(), JsonValue::Array(crit)));
    o.push(("kid".to_owned(), JsonValue::from_str(kid)));
    o.push(("typ".to_owned(), JsonValue::from_str("ubl/rc+json")));
    let r = JsonValue::Object(o);
    proof {
        assert(crate::json::values_model(crit@) =~= seq![Json::Str("b64"@)]);
        assert(entries_model(o@) =~= seq![
            ("alg"@, Json::Str("EdDSA"@)),
            ("b64"@, Json::Bool(false)),
            ("crit"@, Json::Arr(seq![Json::Str("b64"@)])),
            ("kid"@, Json::Str(kid@)),
            ("typ"@, Json::Str("ubl/rc+json"@)),
        ]);
    }
    r
}

/// Appends `src` to `dst`.
pub fn append_bytes(dst: &mut Vec<u8>, src: &[u8])
    ensures
        final(dst)@ == old(dst)@ + src@,
{
    let mut i: usize = 0;
    while i < src.len()
        invariant
            i <= src.len(),
            dst@ == old(dst)@ + src@.take(i as int),
        decreases src.len() - i,
    {
        dst.push(src[i]);
        i = i + 1;
        assert(src@.take(i as int) =~= src@.take(i - 1).push(src@[i - 1]));
    }
    assert(src@.take(src.len() as int) =~= src@);
}

fn build_signing_input(protected: &str, payload: &[u8]) -> (r: Vec<u8>)
    ensures
        r@ == signing_input(protected@, payload@),
{
    let mut input = protected.as_bytes_vec();
    input.push(46u8);
    append_bytes(&mut input, payload);
    assert(input@ =~= signing_input(protected@, payload@));
    input
}

/// Signs `payload` (canonical body bytes) with the Ed25519 key made from
/// `key`, giving a detached JWS under `kid`; it verifies against the same
/// payload under the key's public key.
pub fn sign_detached(payload: &[u8], key: &[u8; 32], kid: &str) -> (r: JwsDetached)
    ensures
        r@ == spec_sign_detached(payload@, key@, kid@),
        r.signature@.len() > 0,
        spec_base64url_decode(r.protected@) == Some(encode_utf8(text(header_json(kid@)))),
        spec_verify_detached(r@, payload@, spec_ed25519_public(key@)),
{
    let header = header_value(kid);
    let header_bytes = to_bytes(&header);
    let protected = base64url_encode(header_bytes.as_slice());
    let input = build_signing_input(protected.as_str(), payload);
    let sig = ed25519_sign(key, input.as_slice());
    let signature = base64url_encode(sig.as_slice());
    JwsDetached { protected, signature, kid: kid.to_owned() }
}

/// The Ed25519 public (verifying) key, as bytes, of the signing key made from
/// `seed`: the key under which `sign_detached` with that seed verifies.
pub fn verifying_key(seed: &[u8; 32]) -> (r: [u8; 32])
    ensures
        r@ == spec_ed25519_public(seed@),
{
    ed25519_public(seed)
}

/// Verifies a detached JWS against the original payload bytes.
pub fn verify_detached(jws: &JwsDetached, payload: &[u8], verifying_key: &[u8; 32]) -> (r: bool)
    ensures
        r == spec_verify_detached(jws@, payload@, verifying_key@),
{
    let sig_bytes = match base64url_decode(jws.signature.as_str()) {
        Some(b) => b,
        None => {
            return false;
        },
    };
    let input = build_signing_input(jws.protected.as_str(), payload);
    ed25519_verify(verifying_key, input.as_slice(), sig_bytes.as_slice())
}

} // verus!
