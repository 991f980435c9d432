//! The API's error responses: every 4xx/5xx answer is a JSON body
//! `{"code": ..., "message": ..., "request_id"?: ..., "retry_after_secs"?: ...}`
//! with its HTTP status and extra headers.
use vstd::prelude::*;
use crate::json::{entries_model, nat_text, write_nat, Json, JsonValue};
use crate::text::{append_str, string_from_chars};

verus! {

/// The JSON body of an error response.
#[derive(Debug, Clone)]
pub struct ApiErrorBody {
    pub code: &'static str,
    pub message: String,
    pub request_id: Option<String>,
    pub retry_after_secs: Option<u64>,
}

/// An error answered by the API: status code, machine code, message, and the
/// headers that go with it (such as `allow` or `retry-after`).
#[derive(Debug, Clone)]
pub struct AppError {
    pub status: u16,
    pub code: &'static str,
    pub message: String,
    pub retry_after_secs: Option<u64>,
    /// Extra headers to include (e.g. Allow, Retry-After).
    pub extra_headers: Vec<(String, String)>,
}

/// The JSON of an error body; absent options are left out.
pub open spec fn error_body_json(
    code: Seq<char>,
    message: Seq<char>,
    request_id: Option<Seq<char>>,
    retry_after_secs: Option<u64>,
) -> Json {
    Json::Obj(
        seq![("code"@, Json::Str(code)), ("message"@, Json::Str(message))] + (match request_id {
            Some(r) => seq![("request_id"@, Json::Str(r))],
            None => Seq::empty(),
        }) + (match retry_after_secs {
            Some(n) => seq![("retry_after_secs"@, Json::Num(n as int))],
            None => Seq::empty(),
        }),
    )
}

impl ApiErrorBody {
    /// The JSON of this body.
    pub fn to_json(&self) -> (r: JsonValue)
        ensures
            r.model() == error_body_json(
                self.code@,
                self.message@,
                crate::policy::opt_view(self.request_id),
                self.retry_after_secs,
            ),
    {
        let mut o: Vec<(String, JsonValue)> = Vec::new();
        o.push(("code".to_owned(), JsonValue::from_str(self.code)));
        o.push(("message".to_owned(), JsonValue::from_str(self.message.as_str())));
        match &self.request_id {
            Some(r) => {
                o.push(("request_id".to_owned(), JsonValue::from_str(r.as_str())));
            },
            None => {},
        }
        match self.retry_after_secs {
            Some(n) => {
                o.push(("retry_after_secs".to_owned(), JsonValue::Number(n as i128)));
            },
            None => {},
        }
        proof {
            let target = error_body_json(
                self.code@,
                self.message@,
                crate::policy::opt_view(self.request_id),
                self.retry_after_secs,
            );
            assert(entries_model(o@) =~= match target {
                Json::Obj(es) => es,
                _ => Seq::empty(),
            });
        }
        JsonValue::Object(o)
    }
}

/// The decimal text of a number.
pub fn u64_text(n: u64) -> (r: String)
    ensures
        r@ == nat_text(n as nat),
{
    let mut out: Vec<char> = Vec::new();
    write_nat(n as u128, &mut out);
    assert(out@ =~= nat_text(n as nat));
    string_from_chars(&out)
}

impl AppError {
    fn plain(status: u16, code: &'static str, message: String) -> (r: Self)
        ensures
            r.status == status,
            r.code == code,
            r.message@ == message@,
            r.retry_after_secs is None,
            r.extra_headers@.len() == 0,
    {
        AppError { status, code, message, retry_after_secs: None, extra_headers: Vec::new() }
    }

    /// 400 `bad_request`.
    pub fn bad_request(msg: &str) -> (r: Self)
        ensures
            r.status == 400 && r.code == "bad_request" && r.message@ == msg@,
            r.retry_after_secs is None && r.extra_headers@.len() == 0,
    {
        Self::plain(400, "bad_request", msg.to_owned())
    }

    /// 401 `unauthorized`.
    pub fn unauthorized(msg: &str) -> (r: Self)
        ensures
            r.status == 401 && r.code == "unauthorized" && r.message@ == msg@,
            r.retry_after_secs is None && r.extra_headers@.len() == 0,
    {
        Self::plain(401, "unauthorized", msg.to_owned())
    }

    /// 403 `forbidden`.
    pub fn forbidden(msg: &str) -> (r: Self)
        ensures
            r.status == 403 && r.code == "forbidden" && r.message@ == msg@,
            r.retry_after_secs is None && r.extra_headers@.len() == 0,
    {
        Self::plain(403, "forbidden", msg.to_owned())
    }

    /// 404 `not_found`: "<resource> not found".
    pub fn not_found(resource: &str) -> (r: Self)
        ensures
            r.status == 404 && r.code == "not_found" && r.message@ == resource@ + " not found"@,
            r.retry_after_secs is None && r.extra_headers@.len() == 0,
    {
        let mut out: Vec<char> = Vec::new();
        append_str(&mut out, resource);
        append_str(&mut out, " not found");
        Self::plain(404, "not_found", string_from_chars(&out))
    }

    /// 405 `method_not_allowed`, with an `allow` header.
    pub fn method_not_allowed(allowed: &str) -> (r: Self)
        ensures
            r.status == 405 && r.code == "method_not_allowed" && r.message@
                == "method not allowed"@,
            r.retry_after_secs is None,
            r.extra_headers@.len() == 1,
            r.extra_headers@[0].0@ == "allow"@ && r.extra_headers@[0].1@ == allowed@,
    {
        let mut headers: Vec<(String, String)> = Vec::new();
        headers.push(("allow".to_owned(), allowed.to_owned()));
        AppError {
            status: 405,
            code: "method_not_allowed",
            message: "method not allowed".to_owned(),
            retry_after_secs: None,
            extra_headers: headers,
        }
    }

    /// 409 `conflict`.
    pub fn conflict(msg: &str) -> (r: Self)
        ensures
            r.status == 409 && r.code == "conflict" && r.message@ == msg@,
            r.retry_after_secs is None && r.extra_headers@.len() == 0,
    {
        Self::plain(409, "conflict", msg.to_owned())
    }

    /// 415 `unsupported_media_type`.
    pub fn unsupported_media_type() -> (r: Self)
        ensures
            r.status == 415 && r.code == "unsupported_media_type" && r.message@
                == "content-type must be application/json"@,
            r.retry_after_secs is None && r.extra_headers@.len() == 0,
    {
        Self::plain(415, "unsupported_media_type", "content-type must be application/json".to_owned())
    }

    /// 429 `rate_limited`, with the delay in the body and a `retry-after` header.
    pub fn too_many_requests(msg: &str, retry_after: u64) -> (r: Self)
        ensures
            r.status == 429 && r.code == "rate_limited" && r.message@ == msg@,
            r.retry_after_secs == Some(retry_after),
            r.extra_headers@.len() == 1,
            r.extra_headers@[0].0@ == "retry-after"@,
            r.extra_headers@[0].1@ == nat_text(retry_after as nat),
    {
        let mut headers: Vec<(String, String)> = Vec::new();
        headers.push(("retry-after".to_owned(), u64_text(retry_after)));
        AppError {
            status: 429,
            code: "rate_limited",
            message: msg.to_owned(),
            retry_after_secs: Some(retry_after),
            extra_headers: headers,
        }
    }

    /// 500 `internal_error`.
    pub fn internal(msg: &str) -> (r: Self)
        ensures
            r.status == 500 && r.code == "internal_error" && r.message@ == msg@,
            r.retry_after_secs is None && r.extra_headers@.len() == 0,
    {
        Self::plain(500, "internal_error", msg.to_owned())
    }

    /// 422 `unprocessable_entity`.
    pub fn unprocessable(msg: &str) -> (r: Self)
        ensures
            r.status == 422 && r.code == "unprocessable_entity" && r.message@ == msg@,
            r.retry_after_secs is None && r.extra_headers@.len() == 0,
    {
        Self::plain(422, "unprocessable_entity", msg.to_owned())
    }

    /// The body answered for this error (no request id is known here).
    pub fn body(&self) -> (r: ApiErrorBody)
        ensures
            r.code == self.code,
            r.message@ == self.message@,
            r.request_id is None,
            r.retry_after_secs == self.retry_after_secs,
    {
        ApiErrorBody {
            code: self.code,
            message: self.message.clone(),
            request_id: None,
            retry_after_secs: self.retry_after_secs,
        }
    }

    /// `[status] code: message`.
    pub fn to_string(&self) -> (r: String)
        ensures
            r@ == seq!['['] + nat_text(self.status as nat) + "] "@ + self.code@ + ": "@
                + self.message@,
    {
        let mut out: Vec<char> = Vec::new();
        out.push('[');
        write_nat(self.status as u128, &mut out);
        append_str(&mut out, "] ");
        append_str(&mut out, self.code);
        append_str(&mut out, ": ");
        append_str(&mut out, self.message.as_str());
        assert(out@ =~= seq!['['] + nat_text(self.status as nat) + "] "@ + self.code@ + ": "@
            + self.message@);
        string_from_chars(&out)
    }
}

} // verus!
