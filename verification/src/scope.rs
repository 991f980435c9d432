//! Request scope: the (app, tenant) namespace for data isolation, CORS, rate
//! limiting and key management. Routes `/a/<app>/t/<tenant>/v1/*` carry it in
//! the path; legacy `/v1/*` routes use (default, default).
use vstd::prelude::*;
use crate::assoc::{contains_str, has_str};
use crate::text::{append_str, string_from_chars};

verus! {

#[derive(Debug, Clone, PartialEq, Eq, Hash)]
pub struct Scope {
    pub app: String,
    pub tenant: String,
}

impl Scope {
    pub fn new(app: &str, tenant: &str) -> (r: Scope)
        ensures
            r.app@ == app@,
            r.tenant@ == tenant@,
    {
        Scope { app: app.to_owned(), tenant: tenant.to_owned() }
    }

    /// Default scope for legacy `/v1/*` routes.
    pub fn legacy() -> (r: Scope)
        ensures
            r.app@ == "default"@,
            r.tenant@ == "default"@,
    {
        Scope { app: "default".to_owned(), tenant: "default".to_owned() }
    }

    /// Storage key prefix for data isolation: `app:tenant`.
    pub fn key_prefix(&self) -> (r: String)
        ensures
            r@ == self.app@ + ":"@ + self.tenant@,
    {
        let mut out: Vec<char> = Vec::new();
        append_str(&mut out, self.app.as_str());
        append_str(&mut out, ":");
        append_str(&mut out, self.tenant.as_str());
        string_from_chars(&out)
    }

    /// Scoped storage key for a CID: `app:tenant:cid`.
    pub fn scoped_cid(&self, cid: &str) -> (r: String)
        ensures
            r@ == self.app@ + ":"@ + self.tenant@ + ":"@ + cid@,
    {
        let mut out: Vec<char> = Vec::new();
        append_str(&mut out, self.app.as_str());
        append_str(&mut out, ":");
        append_str(&mut out, self.tenant.as_str());
        append_str(&mut out, ":");
        append_str(&mut out, cid);
        string_from_chars(&out)
    }

    /// How the scope is displayed: `app=<app> tenant=<tenant>`.
    pub fn to_string(&self) -> (r: String)
        ensures
            r@ == "app="@ + self.app@ + " tenant="@ + self.tenant@,
    {
        let mut out: Vec<char> = Vec::new();
        append_str(&mut out, "app=");
        append_str(&mut out, self.app.as_str());
        append_str(&mut out, " tenant=");
        append_str(&mut out, self.tenant.as_str());
        string_from_chars(&out)
    }
}

impl Default for Scope {
    fn default() -> (r: Scope)
        ensures
            r.app@ == "default"@,
            r.tenant@ == "default"@,
    {
        Scope::legacy()
    }
}

/// Whether a client with this kid list may use `kid` (an empty list allows all).
pub open spec fn kid_permitted(allowed_kids: Seq<String>, kid: Seq<char>) -> bool {
    allowed_kids.len() == 0 || contains_str(allowed_kids, kid)
}

/// Authenticated client context, enriched with scope.
#[derive(Debug, Clone)]
pub struct AuthCtx {
    /// The (app, tenant) namespace.
    pub scope: Scope,
    /// Client identifier (from token).
    pub client_id: String,
    /// Which key IDs this client is allowed to use. Empty = all.
    pub allowed_kids: Vec<String>,
}

impl AuthCtx {
    /// Whether this client is allowed to use the given kid.
    pub fn kid_allowed(&self, kid: &str) -> (r: bool)
        ensures
            r == kid_permitted(self.allowed_kids@, kid@),
    {
        self.allowed_kids.len() == 0 || has_str(&self.allowed_kids, kid)
    }
}

} // verus!
