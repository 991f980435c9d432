//! HTTP adapter: the IO boundary that freezes external responses by CID. The
//! deterministic runtime only sees CIDs; the policy decides which requests may
//! leave, and pinned responses are checked against their CID.
use vstd::prelude::*;
use vstd::string::StrSliceExecFns;
use vstd::utf8::{decode_utf8, encode_utf8, valid_utf8};
use crate::cid::{cid_b3, spec_cid};
use crate::digest::{spec_to_uppercase, spec_utf8_lossy, to_uppercase, utf8_lossy};
use crate::json::{
    entries_model, lemma_map_insert_members, map_insert, obj_insert, quote, text, to_bytes, Json,
    JsonMap, JsonValue,
};
use crate::text::{append_str, chars_of, chars_eq, ends_with, has_prefix, has_suffix, starts_with, str_eq, string_from_chars, sub_chars};

verus! {

/// A frozen HTTP request: all parameters are deterministic and content-addressed.
#[derive(Debug, Clone)]
pub struct HttpParams {
    pub url: String,
    /// HTTP method (GET, POST, etc.)
    pub method: String,
    /// Request headers, sorted by key
    pub headers: Vec<(String, String)>,
    /// Optional request body
    pub body: Option<String>,
    /// Timeout in milliseconds
    pub timeout_ms: u64,
}

/// Default method of a request.
pub fn default_method() -> (r: String)
    ensures
        r@ == "GET"@,
{
    "GET".to_owned()
}

/// Default timeout of a request, in milliseconds.
pub fn default_timeout() -> (r: u64)
    ensures
        r == 10_000,
{
    10_000
}

/// A content-addressed blob (response body pinned by CID).
#[derive(Debug, Clone)]
pub struct PinnedBlob {
    /// BLAKE3 CID of the response bytes
    pub cid: String,
    /// The response bytes as text
    pub data: String,
    /// HTTP status code
    pub status: u16,
    /// Response headers (subset, for audit)
    pub headers: Vec<(String, String)>,
}

/// Policy constraints on adapter execution.
#[derive(Debug, Clone)]
pub struct AdapterPolicy {
    /// Allowed URL patterns ("*", a prefix ending in "*", or an exact URL). Empty = allow all.
    pub allowed_urls: Vec<String>,
    /// Max response size in bytes. 0 = no limit.
    pub max_response_bytes: usize,
    /// Max timeout in ms. 0 = no cap.
    pub max_timeout_ms: u64,
}

impl Default for AdapterPolicy {
    fn default() -> (r: AdapterPolicy)
        ensures
            r.allowed_urls@.len() == 0,
            r.max_response_bytes == 0,
            r.max_timeout_ms == 0,
    {
        AdapterPolicy { allowed_urls: Vec::new(), max_response_bytes: 0, max_timeout_ms: 0 }
    }
}

/// Generic adapter response.
#[derive(Debug, Clone)]
pub struct AdapterResponse {
    /// Adapter kind that produced this response
    pub kind: String,
    /// CID of the request parameters
    pub params_cid: String,
    /// The pinned response blob
    pub pinned: PinnedBlob,
}

/// Generic adapter request (kind-tagged).
#[derive(Debug)]
pub struct AdapterRequest {
    /// Adapter kind: "http", "llm", etc.
    pub kind: String,
    /// CID of the frozen parameters
    pub params_cid: String,
    /// The frozen parameters
    pub params: JsonValue,
    /// Policy constraints for this adapter call
    pub policy: AdapterPolicy,
}

/// Why an adapter call was refused or failed.
#[derive(Debug, Clone)]
pub enum AdapterError {
    General(String),
    Http(String),
    PolicyDeny { adapter: String },
    Timeout { adapter: String, timeout_ms: u64 },
    CidMismatch { expected: String, actual: String },
    Serde(String),
}

/// Whether one allowlist pattern admits `url`.
pub open spec fn pattern_admits(pattern: Seq<char>, url: Seq<char>) -> bool {
    if pattern == seq!['*'] {
        true
    } else if pattern.len() > 0 && pattern.last() == '*' {
        has_prefix(url, pattern.drop_last())
    } else {
        url == pattern
    }
}

/// Whether the allowlist admits `url` (an empty list admits every URL).
pub open spec fn url_allowed(patterns: Seq<String>, url: Seq<char>) -> bool {
    patterns.len() == 0 || exists|i: int| 0 <= i < patterns.len() && pattern_admits(patterns[i]@, url)
}

/// What `check_policy` decides: `None` when the request may go.
pub enum PolicyRefusal {
    Url,
    Timeout,
}

pub open spec fn spec_check_policy(params: HttpParams, policy: AdapterPolicy) -> Option<PolicyRefusal> {
    if !url_allowed(policy.allowed_urls@, params.url@) {
        Some(PolicyRefusal::Url)
    } else if policy.max_timeout_ms > 0 && params.timeout_ms > policy.max_timeout_ms {
        Some(PolicyRefusal::Timeout)
    } else {
        None
    }
}

fn admits(pattern: &String, url: &Vec<char>) -> (r: bool)
    ensures
        r == pattern_admits(pattern@, url@),
{
    let p = chars_of(pattern.as_str());
    if p.len() == 1 && p[0] == '*' {
        assert(p@ =~= seq!['*']);
        return true;
    }
    assert(p@.len() == 1 && p@[0] == '*' ==> p@ =~= seq!['*']);
    if p.len() > 0 && p[p.len() - 1] == '*' {
        let prefix = sub_chars(&p, 0, p.len() - 1);
        assert(prefix@ =~= p@.drop_last());
        starts_with(url, &prefix)
    } else {
        chars_eq(url, &p)
    }
}

/// Checks that the HTTP request is allowed by the adapter policy: the URL is
/// on the allowlist (when there is one) and the timeout is within the cap.
pub fn check_policy(params: &HttpParams, policy: &AdapterPolicy) -> (r: Result<(), AdapterError>)
    ensures
        match spec_check_policy(*params, *policy) {
            None => r is Ok,
            Some(PolicyRefusal::Url) => r matches Err(AdapterError::PolicyDeny { adapter })
                && adapter@ == "http: URL '"@ + params.url@ + "' not in allowlist"@,
            Some(PolicyRefusal::Timeout) => r matches Err(AdapterError::Timeout { adapter, timeout_ms })
                && adapter@ == "http"@ && timeout_ms == policy.max_timeout_ms,
        },
{
    if policy.allowed_urls.len() > 0 {
        let url = chars_of(params.url.as_str());
        let mut allowed = false;
        let mut i: usize = 0;
        while i < policy.allowed_urls.len()
            invariant
                i <= policy.allowed_urls.len(),
                url@ == params.url@,
                allowed == exists|k: int| 0 <= k < i && pattern_admits(policy.allowed_urls@[k]@, url@),
            decreases policy.allowed_urls.len() - i,
        {
            if admits(&policy.allowed_urls[i], &url) {
                allowed = true;
            }
            i = i + 1;
        }
        if !allowed {
            let mut msg: Vec<char> = Vec::new();
            append_str(&mut msg, "http: URL '");
            append_str(&mut msg, params.url.as_str());
            append_str(&mut msg, "' not in allowlist");
            assert(msg@ =~= "http: URL '"@ + params.url@ + "' not in allowlist"@);
            return Err(AdapterError::PolicyDeny { adapter: string_from_chars(&msg) });
        }
    }
    if policy.max_timeout_ms > 0 && params.timeout_ms > policy.max_timeout_ms {
        return Err(AdapterError::Timeout { adapter: "http".to_owned(), timeout_ms: policy.max_timeout_ms });
    }
    Ok(())
}

/// The JSON text of request parameters, fields in declaration order (what
/// `serde_json::to_vec` gives for the struct).
pub open spec fn params_json(p: HttpParams) -> Json {
    Json::Obj(
        seq![
            ("url"@, Json::Str(p.url@)),
            ("method"@, Json::Str(p.method@)),
            ("headers"@, Json::Obj(p.headers@.map_values(|h: (String, String)| (h.0@, Json::Str(h.1@))))),
            ("body"@, match p.body {
                Some(b) => Json::Str(b@),
                None => Json::Null,
            }),
            ("timeout_ms"@, Json::Num(p.timeout_ms as int)),
        ],
    )
}

impl HttpParams {
    /// The JSON form of these parameters.
    pub fn to_json(&self) -> (r: JsonValue)
        ensures
            r.model() == params_json(*self),
    {
        let mut headers: Vec<(String, JsonValue)> = Vec::new();
        let mut i: usize = 0;
        while i < self.headers.len()
            invariant
                i <= self.headers.len(),
                headers@.len() == i,
                forall|k: int| 0 <= k < i ==> headers@[k].0@ == self.headers@[k].0@ && headers@[k].1.model() == Json::Str(self.headers@[k].1@),
            decreases self.headers.len() - i,
        {
            headers.push((self.headers[i].0.clone(), JsonValue::from_str(self.headers[i].1.as_str())));
            i = i + 1;
        }
        assert(crate::json::entries_model(headers@) =~= self.headers@.map_values(|h: (String, String)| (h.0@, Json::Str(h.1@))));
        let body = match &self.body {
            Some(b) => JsonValue::from_str(b.as_str()),
            None => JsonValue::Null,
        };
        let mut o: Vec<(String, JsonValue)> = Vec::new();
        o.push(("url".to_owned(), JsonValue::from_str(self.url.as_str())));
        o.push(("method".to_owned(), JsonValue::from_str(self.method.as_str())));
        o.push(("headers".to_owned(), JsonValue::Object(headers)));
        o.push(("body".to_owned(), body));
        o.push(("timeout_ms".to_owned(), JsonValue::Number(self.timeout_ms as i128)));
        proof {
            assert(crate::json::entries_model(o@) =~= match params_json(*self) {
                Json::Obj(es) => es,
                _ => Seq::empty(),
            });
        }
        JsonValue::Object(o)
    }

    /// The CID of the frozen request parameters.
    pub fn params_cid(&self) -> (r: String)
        ensures
            r@ == spec_cid(encode_utf8(text(params_json(*self)))),
    {
        let bytes = to_bytes(&self.to_json());
        cid_b3(bytes.as_slice())
    }
}

/// Whether a blob's text still has the CID it claims.
pub open spec fn pinned_verifies(b: PinnedBlob) -> bool {
    spec_cid(encode_utf8(b.data@)) == b.cid@
}

impl PinnedBlob {
    /// A blob for `data`: its CID, and its text (invalid UTF-8 replaced by U+FFFD).
    /// A blob made from valid UTF-8 verifies.
    pub fn from_bytes(data: &[u8], status: u16, headers: Vec<(String, String)>) -> (r: PinnedBlob)
        ensures
            r.cid@ == spec_cid(data@),
            r.data@ == spec_utf8_lossy(data@),
            valid_utf8(data@) ==> r.data@ == decode_utf8(data@),
            r.status == status,
            r.headers == headers,
            valid_utf8(data@) ==> pinned_verifies(r),
    {
        let cid = cid_b3(data);
        let text = utf8_lossy(data);
        proof {
            if valid_utf8(data@) {
                vstd::utf8::decode_utf8_encode_utf8(data@);
            }
        }
        PinnedBlob { cid, data: text, status, headers }
    }

    /// Whether the data matches the claimed CID.
    pub fn verify(&self) -> (r: bool)
        ensures
            r == pinned_verifies(*self),
    {
        let actual = cid_b3(self.data.as_str().as_bytes_vec().as_slice());
        str_eq(actual.as_str(), self.cid.as_str())
    }
}

/// Checks that a previously pinned response still matches its CID.
pub fn verify_pinned(response: &AdapterResponse) -> (r: Result<(), AdapterError>)
    ensures
        pinned_verifies(response.pinned) ==> r is Ok,
        !pinned_verifies(response.pinned) ==> (r matches Err(AdapterError::CidMismatch { expected, actual })
            && expected == response.pinned.cid && actual@ == spec_cid(encode_utf8(response.pinned.data@))),
{
    if !response.pinned.verify() {
        let actual = cid_b3(response.pinned.data.as_str().as_bytes_vec().as_slice());
        return Err(AdapterError::CidMismatch { expected: response.pinned.cid.clone(), actual });
    }
    Ok(())
}

// ---------------------------------------------------------------------------
// Sending and pinning
// ---------------------------------------------------------------------------

/// The HTTP methods the adapter sends.
#[derive(Debug, Clone, Copy, PartialEq, Eq, Structural)]
pub enum HttpMethod {
    Get,
    Post,
    Put,
    Delete,
    Patch,
    Head,
}

/// The method named by an uppercased method name, if the adapter sends it.
pub open spec fn spec_method(upper: Seq<char>) -> Option<HttpMethod> {
    if upper == "GET"@ {
        Some(HttpMethod::Get)
    } else if upper == "POST"@ {
        Some(HttpMethod::Post)
    } else if upper == "PUT"@ {
        Some(HttpMethod::Put)
    } else if upper == "DELETE"@ {
        Some(HttpMethod::Delete)
    } else if upper == "PATCH"@ {
        Some(HttpMethod::Patch)
    } else if upper == "HEAD"@ {
        Some(HttpMethod::Head)
    } else {
        None
    }
}

/// The method a request is sent with: its name uppercased; any other name
/// is refused.
pub fn request_method(params: &HttpParams) -> (r: Result<HttpMethod, AdapterError>)
    ensures
        match spec_method(spec_to_uppercase(params.method@)) {
            Some(m) => r matches Ok(x) && x == m,
            None => r matches Err(AdapterError::Http(msg)) && msg@ == "unsupported method: "@
                + spec_to_uppercase(params.method@),
        },
{
    let upper = to_uppercase(params.method.as_str());
    let u = upper.as_str();
    if str_eq(u, "GET") {
        Ok(HttpMethod::Get)
    } else if str_eq(u, "POST") {
        Ok(HttpMethod::Post)
    } else if str_eq(u, "PUT") {
        Ok(HttpMethod::Put)
    } else if str_eq(u, "DELETE") {
        Ok(HttpMethod::Delete)
    } else if str_eq(u, "PATCH") {
        Ok(HttpMethod::Patch)
    } else if str_eq(u, "HEAD") {
        Ok(HttpMethod::Head)
    } else {
        let mut msg: Vec<char> = Vec::new();
        append_str(&mut msg, "unsupported method: ");
        append_str(&mut msg, u);
        Err(AdapterError::Http(string_from_chars(&msg)))
    }
}

/// The response headers kept, as a sorted map: each header inserted in turn,
/// a later value under the same name replacing an earlier one.
pub open spec fn header_map(raw: Seq<(Seq<char>, Seq<char>)>) -> Seq<(Seq<char>, Json)>
    decreases raw.len(),
{
    if raw.len() == 0 {
        Seq::empty()
    } else {
        map_insert(header_map(raw.drop_last()), raw.last().0, Json::Str(raw.last().1))
    }
}

pub open spec fn pairs_view(hs: Seq<(String, String)>) -> Seq<(Seq<char>, Seq<char>)> {
    hs.map_values(|h: (String, String)| (h.0@, h.1@))
}

/// Headers as a JSON object's entries.
pub open spec fn headers_json(hs: Seq<(String, String)>) -> Seq<(Seq<char>, Json)> {
    hs.map_values(|h: (String, String)| (h.0@, Json::Str(h.1@)))
}

fn collect_headers(raw: &Vec<(String, String)>) -> (r: Vec<(String, String)>)
    ensures
        headers_json(r@) == header_map(pairs_view(raw@)),
{
    let ghost rv = pairs_view(raw@);
    let mut m: JsonMap = Vec::new();
    let mut i: usize = 0;
    while i < raw.len()
        invariant
            i <= raw.len(),
            rv == pairs_view(raw@),
            entries_model(m@) == header_map(rv.take(i as int)),
            forall|k: int| 0 <= k < m@.len() ==> (#[trigger] entries_model(m@)[k]).1 is Str,
        decreases raw.len() - i,
    {
        assert(rv.take(i + 1).drop_last() =~= rv.take(i as int));
        let ghost before = entries_model(m@);
        obj_insert(&mut m, raw[i].0.clone(), JsonValue::from_str(raw[i].1.as_str()));
        proof {
            lemma_map_insert_members(before, raw@[i as int].0@, Json::Str(raw@[i as int].1@));
            assert forall|k: int| 0 <= k < m@.len() implies (#[trigger] entries_model(m@)[k]).1 is Str by {
                let e = entries_model(m@)[k];
                if e != (raw@[i as int].0@, Json::Str(raw@[i as int].1@)) {
                    let j = choose|j: int| 0 <= j < before.len() && e == before[j];
                }
            }
        }
        i = i + 1;
    }
    assert(rv.take(raw@.len() as int) =~= rv);
    let mut out: Vec<(String, String)> = Vec::new();
    let mut k: usize = 0;
    while k < m.len()
        invariant
            k <= m.len(),
            out@.len() == k,
            forall|n: int| 0 <= n < m@.len() ==> (#[trigger] entries_model(m@)[n]).1 is Str,
            forall|n: int| 0 <= n < k ==> #[trigger] headers_json(out@)[n] == entries_model(m@)[n],
        decreases m.len() - k,
    {
        assert(entries_model(m@)[k as int].1 is Str);
        let v = m[k].1.as_str().unwrap().clone();
        let name = m[k].0.clone();
        assert(Json::Str(v@) == m@[k as int].1.model());
        assert(name@ == m@[k as int].0@);
        let ghost before = out@;
        out.push((name, v));
        proof {
            assert forall|n: int| 0 <= n < k + 1 implies #[trigger] headers_json(out@)[n] == entries_model(m@)[n] by {
                assert(headers_json(out@)[n] == (out@[n].0@, Json::Str(out@[n].1@)));
                if n < k {
                    assert(out@[n] == before[n]);
                    assert(headers_json(before)[n] == (before[n].0@, Json::Str(before[n].1@)));
                }
            }
        }
        k = k + 1;
    }
    assert(headers_json(out@) =~= entries_model(m@));
    out
}

/// The size refusal of a response body.
pub open spec fn too_large_text(len: nat, max: nat) -> Seq<char> {
    "response too large: "@ + crate::json::nat_text(len) + " bytes (max "@ + crate::json::nat_text(max)
        + ")"@
}

/// A response pinned by CID: refused when the body exceeds the policy's
/// size limit; otherwise the body with its CID, its status and the headers
/// kept, and the CID of the request parameters.
pub fn pin_response(
    params: &HttpParams,
    policy: &AdapterPolicy,
    status: u16,
    headers: &Vec<(String, String)>,
    body: &[u8],
) -> (r: Result<AdapterResponse, AdapterError>)
    ensures
        if policy.max_response_bytes > 0 && body@.len() > policy.max_response_bytes {
            r matches Err(AdapterError::Http(m)) && m@ == too_large_text(
                body@.len(),
                policy.max_response_bytes as nat,
            )
        } else {
            r matches Ok(resp) && resp.kind@ == "http"@ && resp.params_cid@ == spec_cid(
                encode_utf8(text(params_json(*params))),
            ) && resp.pinned.cid@ == spec_cid(body@) && resp.pinned.data@ == spec_utf8_lossy(body@)
                && resp.pinned.status == status && headers_json(resp.pinned.headers@) == header_map(
                pairs_view(headers@),
            )
        },
{
    if policy.max_response_bytes > 0 && body.len() > policy.max_response_bytes {
        let mut msg: Vec<char> = Vec::new();
        append_str(&mut msg, "response too large: ");
        crate::json::write_nat(body.len() as u128, &mut msg);
        append_str(&mut msg, " bytes (max ");
        crate::json::write_nat(policy.max_response_bytes as u128, &mut msg);
        append_str(&mut msg, ")");
        assert(msg@ =~= too_large_text(body@.len(), policy.max_response_bytes as nat));
        return Err(AdapterError::Http(string_from_chars(&msg)));
    }
    let kept = collect_headers(headers);
    let pinned = PinnedBlob::from_bytes(body, status, kept);
    let params_cid = params.params_cid();
    Ok(AdapterResponse { kind: "http".to_owned(), params_cid, pinned })
}

/// The text an adapter error displays.
pub open spec fn adapter_error_text(e: AdapterError) -> Seq<char> {
    match e {
        AdapterError::General(m) => "adapter: "@ + m@,
        AdapterError::Http(m) => "http: "@ + m@,
        AdapterError::PolicyDeny { adapter } => "policy: adapter '"@ + adapter@ + "' not allowed by policy"@,
        AdapterError::Timeout { adapter, timeout_ms } => "timeout: adapter '"@ + adapter@ + "' exceeded "@
            + crate::json::nat_text(timeout_ms as nat) + "ms"@,
        AdapterError::CidMismatch { expected, actual } => "cid mismatch: expected "@ + expected@ + ", got "@ + actual@,
        AdapterError::Serde(m) => "serde: "@ + m@,
    }
}

impl AdapterError {
    /// The text this error displays.
    pub fn message(&self) -> (r: String)
        ensures
            r@ == adapter_error_text(*self),
    {
        let mut out: Vec<char> = Vec::new();
        match self {
            AdapterError::General(m) => {
                append_str(&mut out, "adapter: ");
                append_str(&mut out, m.as_str());
            },
            AdapterError::Http(m) => {
                append_str(&mut out, "http: ");
                append_str(&mut out, m.as_str());
            },
            AdapterError::PolicyDeny { adapter } => {
                append_str(&mut out, "policy: adapter '");
                append_str(&mut out, adapter.as_str());
                append_str(&mut out, "' not allowed by policy");
            },
            AdapterError::Timeout { adapter, timeout_ms } => {
                append_str(&mut out, "timeout: adapter '");
                append_str(&mut out, adapter.as_str());
                append_str(&mut out, "' exceeded ");
                crate::json::write_int(*timeout_ms as i128, &mut out);
                append_str(&mut out, "ms");
            },
            AdapterError::CidMismatch { expected, actual } => {
                append_str(&mut out, "cid mismatch: expected ");
                append_str(&mut out, expected.as_str());
                append_str(&mut out, ", got ");
                append_str(&mut out, actual.as_str());
            },
            AdapterError::Serde(m) => {
                append_str(&mut out, "serde: ");
                append_str(&mut out, m.as_str());
            },
        }
        assert(out@ =~= adapter_error_text(*self));
        string_from_chars(&out)
    }
}

} // verus!
