//! Who may call the HTTP service, and from where: bearer tokens, CORS origins scoped
//! by (app, tenant), and the scope carried in a request path.
use vstd::prelude::*;
use crate::assoc::{
    assoc_get, assoc_index, assoc_keys_distinct, assoc_put, assoc_put_spec, contains_str, find_key, has_str,
    lemma_assoc_index, lemma_assoc_put,
};
use crate::error::strings_view;
use crate::scope::{kid_permitted, Scope};
use crate::json::{entries_model, Json, JsonValue};
use crate::text::{chars_of, split_by, split_on, string_from_chars, str_eq};

verus! {

/// The bearer token that `TokenStore::with_dev_token` knows.
pub const DEV_TOKEN: &'static str = "ubl-dev-token-001";

/// Client identity resolved from a bearer token.
#[derive(Debug, Clone)]
pub struct ClientInfo {
    pub client_id: String,
    /// Tenant namespace for data isolation.
    pub tenant_id: String,
    /// Which key IDs this client is allowed to use. Empty = all.
    pub allowed_kids: Vec<String>,
}

pub struct ClientModel {
    pub client_id: Seq<char>,
    pub tenant_id: Seq<char>,
    pub allowed_kids: Seq<Seq<char>>,
}

impl View for ClientInfo {
    type V = ClientModel;

    open spec fn view(&self) -> ClientModel {
        ClientModel {
            client_id: self.client_id@,
            tenant_id: self.tenant_id@,
            allowed_kids: strings_view(self.allowed_kids@),
        }
    }
}

/// A copy of a list of strings.
pub fn copy_strings(v: &Vec<String>) -> (r: Vec<String>)
    ensures
        strings_view(r@) == strings_view(v@),
{
    let mut out: Vec<String> = Vec::new();
    let mut i: usize = 0;
    while i < v.len()
        invariant
            i <= v.len(),
            out@.len() == i,
            forall|k: int| 0 <= k < i ==> out@[k]@ == v@[k]@,
        decreases v.len() - i,
    {
        out.push(v[i].clone());
        i = i + 1;
    }
    assert(strings_view(out@) =~= strings_view(v@));
    out
}

impl ClientInfo {
    /// A copy of this client info.
    pub fn copy(&self) -> (r: ClientInfo)
        ensures
            r@ == self@,
    {
        ClientInfo {
            client_id: self.client_id.clone(),
            tenant_id: self.tenant_id.clone(),
            allowed_kids: copy_strings(&self.allowed_kids),
        }
    }

    /// Whether this client is allowed to use the given kid (an empty list allows all).
    pub fn kid_allowed(&self, kid: &str) -> (r: bool)
        ensures
            r == kid_permitted(self.allowed_kids@, kid@),
    {
        self.allowed_kids.len() == 0 || has_str(&self.allowed_kids, kid)
    }
}

/// Token store mapping bearer tokens to client info.
#[derive(Debug, Clone)]
pub struct TokenStore {
    tokens: Vec<(String, ClientInfo)>,
}

impl TokenStore {
    /// The registered tokens, in order of first registration.
    pub closed spec fn entries(&self) -> Seq<(String, ClientInfo)> {
        self.tokens@
    }

    /// An empty store.
    pub fn new() -> (r: TokenStore)
        ensures
            r.entries().len() == 0,
    {
        TokenStore { tokens: Vec::new() }
    }

    /// A store that knows the dev token, for an unrestricted client of the default tenant.
    pub fn with_dev_token() -> (r: TokenStore)
        ensures
            r.entries().len() == 1,
            r.entries()[0].0@ == DEV_TOKEN@,
            r.entries()[0].1.client_id@ == "dev-client"@,
            r.entries()[0].1.tenant_id@ == "default"@,
            r.entries()[0].1.allowed_kids@.len() == 0,
    {
        let mut tokens: Vec<(String, ClientInfo)> = Vec::new();
        tokens.push(
            (
                DEV_TOKEN.to_owned(),
                ClientInfo {
                    client_id: "dev-client".to_owned(),
                    tenant_id: "default".to_owned(),
                    allowed_kids: Vec::new(),
                },
            ),
        );
        TokenStore { tokens }
    }

    /// Registers `token` for `info`, replacing an earlier registration.
    pub fn register(&mut self, token: &str, info: ClientInfo)
        ensures
            assoc_put_spec(old(self).entries(), final(self).entries(), token@, info),
    {
        assoc_put(&mut self.tokens, token, info);
    }

    /// The client registered under `token`, if any.
    pub fn lookup(&self, token: &str) -> (r: Option<ClientInfo>)
        ensures
            match assoc_get(self.entries(), token@) {
                Some(c) => r matches Some(x) && x@ == c@,
                None => r is None,
            },
    {
        match find_key(&self.tokens, token) {
            Some(i) => Some(self.tokens[i].1.copy()),
            None => None,
        }
    }
}

impl Default for TokenStore {
    fn default() -> (r: TokenStore)
        ensures
            r.entries().len() == 0,
    {
        TokenStore::new()
    }
}

/// A registered token is found again, and other tokens are unaffected.
pub proof fn lemma_register_then_lookup(
    before: Seq<(String, ClientInfo)>,
    after: Seq<(String, ClientInfo)>,
    token: Seq<char>,
    info: ClientInfo,
    other: Seq<char>,
)
    requires
        assoc_put_spec(before, after, token, info),
        other != token,
    ensures
        assoc_get(after, token) == Some(info),
        assoc_get(after, other) == assoc_get(before, other),
{
    lemma_assoc_put(before, after, token, info, other);
}

// ---------------------------------------------------------------------------
// CORS
// ---------------------------------------------------------------------------

/// CORS configuration with hierarchical origin allowlists: for a request in
/// scope (app, tenant), the origins of `app:tenant`, then those of `app`,
/// then the global ones.
#[derive(Debug, Clone)]
pub struct CorsConfig {
    /// Origins allowed for all apps and tenants.
    pub global_origins: Vec<String>,
    /// Per-app origins. Key = app id.
    pub app_origins: Vec<(String, Vec<String>)>,
    /// Per-(app, tenant) origins. Key = "app:tenant".
    pub scoped_origins: Vec<(String, Vec<String>)>,
}

impl CorsConfig {
    /// The configuration's invariant: each origin table is a map (no key twice).
    pub open spec fn wf(self) -> bool {
        assoc_keys_distinct(self.app_origins@) && assoc_keys_distinct(self.scoped_origins@)
    }
}

/// The key of a scope in `scoped_origins`.
pub open spec fn scope_key(s: Scope) -> Seq<char> {
    s.app@ + ":"@ + s.tenant@
}

/// Whether the origins listed under `key` include `origin`.
pub open spec fn listed_under(table: Seq<(String, Vec<String>)>, key: Seq<char>, origin: Seq<char>) -> bool {
    match assoc_get(table, key) {
        Some(os) => contains_str(os@, origin),
        None => false,
    }
}

/// Whether `origin` may call in `scope`.
pub open spec fn origin_allowed(cfg: CorsConfig, origin: Seq<char>, scope: Option<Scope>) -> bool {
    (match scope {
        Some(s) => listed_under(cfg.scoped_origins@, scope_key(s), origin) || listed_under(
            cfg.app_origins@,
            s.app@,
            origin,
        ),
        None => false,
    }) || contains_str(cfg.global_origins@, origin)
}

/// The origins listed under `key`, or none.
pub open spec fn origins_under(table: Seq<(String, Vec<String>)>, key: Seq<char>) -> Seq<Seq<char>> {
    match assoc_get(table, key) {
        Some(os) => strings_view(os@),
        None => Seq::empty(),
    }
}

/// All origins for a scope: global, then app-level, then scoped.
pub open spec fn origins_for(cfg: CorsConfig, s: Scope) -> Seq<Seq<char>> {
    strings_view(cfg.global_origins@) + origins_under(cfg.app_origins@, s.app@) + origins_under(
        cfg.scoped_origins@,
        scope_key(s),
    )
}

fn scope_key_string(s: &Scope) -> (r: String)
    ensures
        r@ == scope_key(*s),
{
    s.key_prefix()
}

fn listed(table: &Vec<(String, Vec<String>)>, key: &str, origin: &str) -> (r: bool)
    ensures
        r == listed_under(table@, key@, origin@),
{
    match find_key(table, key) {
        Some(i) => {
            assert(assoc_index(table@, key@) == Some(i as int));
            assert(assoc_get(table@, key@) == Some(table@[i as int].1));
            has_str(&table[i].1, origin)
        },
        None => {
            assert(assoc_index(table@, key@) is None);
            false
        },
    }
}

fn extend_strings(dst: &mut Vec<String>, src: &Vec<String>)
    ensures
        strings_view(final(dst)@) == strings_view(old(dst)@) + strings_view(src@),
{
    let mut i: usize = 0;
    while i < src.len()
        invariant
            i <= src.len(),
            dst@.len() == old(dst)@.len() + i,
            strings_view(dst@) =~= strings_view(old(dst)@) + strings_view(src@).take(i as int),
        decreases src.len() - i,
    {
        let ghost before = dst@;
        dst.push(src[i].clone());
        assert(strings_view(dst@) =~= strings_view(before).push(src@[i as int]@));
        i = i + 1;
    }
    assert(strings_view(src@).take(src.len() as int) =~= strings_view(src@));
}

impl CorsConfig {
    /// Whether `origin` is allowed for `scope`: (app, tenant), then app, then global.
    pub fn is_origin_allowed(&self, origin: &str, scope: Option<&Scope>) -> (r: bool)
        ensures
            r == origin_allowed(*self, origin@, match scope {
                Some(s) => Some(*s),
                None => None,
            }),
    {
        match scope {
            Some(s) => {
                let key = scope_key_string(s);
                if listed(&self.scoped_origins, key.as_str(), origin) {
                    return true;
                }
                if listed(&self.app_origins, s.app.as_str(), origin) {
                    return true;
                }
            },
            None => {},
        }
        has_str(&self.global_origins, origin)
    }

    /// All allowed origins for a scope, merged: global, then app, then scoped.
    pub fn allowed_origins_for(&self, scope: &Scope) -> (r: Vec<String>)
        ensures
            strings_view(r@) == origins_for(*self, *scope),
    {
        let mut origins = self.global_origins.clone();
        assert(strings_view(origins@) == strings_view(self.global_origins@));
        match find_key(&self.app_origins, scope.app.as_str()) {
            Some(i) => extend_strings(&mut origins, &self.app_origins[i].1),
            None => {},
        }
        let key = scope_key_string(scope);
        match find_key(&self.scoped_origins, key.as_str()) {
            Some(i) => extend_strings(&mut origins, &self.scoped_origins[i].1),
            None => {},
        }
        assert(strings_view(origins@) =~= origins_for(*self, *scope));
        origins
    }
}

/// An origin is allowed for a scope exactly when it is among the origins
/// listed for that scope.
pub proof fn lemma_allowed_iff_listed(cfg: CorsConfig, s: Scope, origin: Seq<char>)
    ensures
        origin_allowed(cfg, origin, Some(s)) == origins_for(cfg, s).contains(origin),
{
    let g = strings_view(cfg.global_origins@);
    let a = origins_under(cfg.app_origins@, s.app@);
    let c = origins_under(cfg.scoped_origins@, scope_key(s));
    let all = g + a + c;
    if origin_allowed(cfg, origin, Some(s)) {
        if contains_str(cfg.global_origins@, origin) {
            let i = choose|i: int| 0 <= i < cfg.global_origins@.len() && cfg.global_origins@[i]@ == origin;
            assert(all[i] == origin);
        } else if listed_under(cfg.scoped_origins@, scope_key(s), origin) {
            let os = assoc_get(cfg.scoped_origins@, scope_key(s)).unwrap();
            let i = choose|i: int| 0 <= i < os@.len() && os@[i]@ == origin;
            assert(all[g.len() + a.len() + i] == origin);
        } else {
            let os = assoc_get(cfg.app_origins@, s.app@).unwrap();
            let i = choose|i: int| 0 <= i < os@.len() && os@[i]@ == origin;
            assert(all[g.len() + i] == origin);
        }
    }
    if all.contains(origin) {
        let j = choose|j: int| 0 <= j < all.len() && all[j] == origin;
        if j < g.len() {
            assert(cfg.global_origins@[j]@ == origin);
        } else if j < g.len() + a.len() {
            let os = assoc_get(cfg.app_origins@, s.app@).unwrap();
            assert(os@[j - g.len()]@ == origin);
        } else {
            let os = assoc_get(cfg.scoped_origins@, scope_key(s)).unwrap();
            assert(os@[j - g.len() - a.len()]@ == origin);
        }
    }
}

// ---------------------------------------------------------------------------
// Paths
// ---------------------------------------------------------------------------

/// `str::split('/')`: the pieces between slashes (one piece more than slashes).
pub open spec fn split_slash(s: Seq<char>) -> Seq<Seq<char>> {
    split_on(s, '/')
}

/// The pieces of `path` between slashes.
pub fn split_path(path: &str) -> (r: Vec<String>)
    ensures
        strings_view(r@) == split_slash(path@),
{
    split_by(path, '/')
}

/// The scope that a path `/a/<app>/t/<tenant>/v1/...` names.
pub open spec fn path_scope(path: Seq<char>) -> Option<(Seq<char>, Seq<char>)> {
    let parts = split_slash(path);
    if parts.len() >= 6 && parts[1] == "a"@ && parts[3] == "t"@ && parts[5] == "v1"@ {
        Some((parts[2], parts[4]))
    } else {
        None
    }
}

/// Parses (app, tenant) from a path like `/a/<app>/t/<tenant>/v1/...`.
pub fn parse_scope_from_path(path: &str) -> (r: Option<Scope>)
    ensures
        match path_scope(path@) {
            Some((app, tenant)) => r matches Some(s) && s.app@ == app && s.tenant@ == tenant,
            None => r is None,
        },
{
    let parts = split_path(path);
    assert(parts@.len() == split_slash(path@).len());
    if parts.len() >= 6 && str_eq(parts[1].as_str(), "a") && str_eq(parts[3].as_str(), "t")
        && str_eq(parts[5].as_str(), "v1") {
        assert(parts@[2]@ == split_slash(path@)[2]);
        assert(parts@[4]@ == split_slash(path@)[4]);
        Some(Scope::new(parts[2].as_str(), parts[4].as_str()))
    } else {
        proof {
            if parts@.len() >= 6 {
                assert(parts@[1]@ == split_slash(path@)[1]);
                assert(parts@[3]@ == split_slash(path@)[3]);
                assert(parts@[5]@ == split_slash(path@)[5]);
            }
        }
        None
    }
}

/// Paths that need no authentication.
pub open spec fn public_path(path: Seq<char>) -> bool {
    path == "/healthz"@ || path == "/.well-known/did.json"@ || path == "/metrics"@
}

/// Whether `path` needs no authentication (and is not rate limited).
pub fn is_public_path(path: &str) -> (r: bool)
    ensures
        r == public_path(path@),
{
    str_eq(path, "/healthz") || str_eq(path, "/.well-known/did.json") || str_eq(path, "/metrics")
}

/// The token of an `Authorization: Bearer <token>` header value.
pub fn bearer_token(header: &str) -> (r: Option<String>)
    ensures
        crate::text::has_prefix(header@, "Bearer "@) ==> (r matches Some(t) && t@ == header@.skip(
            "Bearer "@.len() as int,
        )),
        !crate::text::has_prefix(header@, "Bearer "@) ==> r is None,
{
    let h = chars_of(header);
    let p = chars_of("Bearer ");
    if crate::text::starts_with(&h, &p) {
        let rest = crate::text::sub_chars(&h, p.len(), h.len());
        assert(rest@ =~= header@.skip("Bearer "@.len() as int));
        Some(string_from_chars(&rest))
    } else {
        None
    }
}

/// Whether a request with this method and content type passes the JSON check:
/// POST, PUT and PATCH need a content type beginning `application/json`.
pub open spec fn content_type_ok(method: Seq<char>, content_type: Option<Seq<char>>) -> bool {
    if method == "POST"@ || method == "PUT"@ || method == "PATCH"@ {
        match content_type {
            Some(ct) => crate::text::has_prefix(ct, "application/json"@),
            None => false,
        }
    } else {
        true
    }
}

/// The content-type check of the API.
pub fn json_content_type_ok(method: &str, content_type: Option<&str>) -> (r: bool)
    ensures
        r == content_type_ok(method@, match content_type {
            Some(c) => Some(c@),
            None => None,
        }),
{
    if str_eq(method, "POST") || str_eq(method, "PUT") || str_eq(method, "PATCH") {
        match content_type {
            Some(ct) => {
                let c = chars_of(ct);
                let p = chars_of("application/json");
                crate::text::starts_with(&c, &p)
            },
            None => false,
        }
    } else {
        true
    }
}


/// What the authentication step decides for a request.
#[derive(Debug)]
pub enum AuthOutcome {
    /// No token needed: authentication disabled, a CORS preflight, or a public path.
    Pass,
    /// A known bearer token: the request goes on as this client.
    Client(ClientInfo),
    /// A bearer token nobody registered (401).
    InvalidToken,
    /// No `Authorization: Bearer <token>` header (401).
    MissingToken,
}

/// The decision of the authentication step, with the client as its model.
pub enum AuthModel {
    Pass,
    Client(ClientModel),
    InvalidToken,
    MissingToken,
}

/// How a request is authenticated: nothing is asked when authentication is
/// disabled, of a CORS preflight (`OPTIONS`) or on a public path; otherwise
/// the bearer token must be one the store knows.
pub open spec fn spec_authenticate(
    tokens: Seq<(String, ClientInfo)>,
    auth_disabled: bool,
    method: Seq<char>,
    path: Seq<char>,
    authorization: Option<Seq<char>>,
) -> AuthModel {
    if auth_disabled || method == "OPTIONS"@ || public_path(path) {
        AuthModel::Pass
    } else {
        match authorization {
            Some(h) => if crate::text::has_prefix(h, "Bearer "@) {
                match assoc_get(tokens, h.skip("Bearer "@.len() as int)) {
                    Some(c) => AuthModel::Client(c@),
                    None => AuthModel::InvalidToken,
                }
            } else {
                AuthModel::MissingToken
            },
            None => AuthModel::MissingToken,
        }
    }
}

pub open spec fn auth_view(o: AuthOutcome) -> AuthModel {
    match o {
        AuthOutcome::Pass => AuthModel::Pass,
        AuthOutcome::Client(c) => AuthModel::Client(c@),
        AuthOutcome::InvalidToken => AuthModel::InvalidToken,
        AuthOutcome::MissingToken => AuthModel::MissingToken,
    }
}

impl AuthOutcome {
    /// The error body's message for a refused request.
    pub fn error_message(&self) -> (r: Option<&'static str>)
        ensures
            match auth_view(*self) {
                AuthModel::InvalidToken => r matches Some(m) && m@ == "invalid bearer token"@,
                AuthModel::MissingToken => r matches Some(m) && m@
                    == "missing Authorization: Bearer <token> header"@,
                _ => r is None,
            },
    {
        match self {
            AuthOutcome::InvalidToken => Some("invalid bearer token"),
            AuthOutcome::MissingToken => Some("missing Authorization: Bearer <token> header"),
            _ => None,
        }
    }
}

impl TokenStore {
    /// The authentication step of the API for a request with this method,
    /// path and `Authorization` header.
    pub fn authenticate(
        &self,
        auth_disabled: bool,
        method: &str,
        path: &str,
        authorization: Option<&str>,
    ) -> (r: AuthOutcome)
        ensures
            auth_view(r) == spec_authenticate(
                self.entries(),
                auth_disabled,
                method@,
                path@,
                match authorization {
                    Some(h) => Some(h@),
                    None => None,
                },
            ),
    {
        if auth_disabled || str_eq(method, "OPTIONS") || is_public_path(path) {
            return AuthOutcome::Pass;
        }
        match authorization {
            Some(h) => match bearer_token(h) {
                Some(t) => match self.lookup(t.as_str()) {
                    Some(c) => AuthOutcome::Client(c),
                    None => AuthOutcome::InvalidToken,
                },
                None => AuthOutcome::MissingToken,
            },
            None => AuthOutcome::MissingToken,
        }
    }
}

/// The body of a 429 answer: the error, who exceeded which rate, and a DENY
/// receipt telling when to retry.
pub open spec fn rate_limit_json(client_id: Seq<char>, rpm: u32, retry_after_secs: u64) -> Json {
    Json::Obj(
        seq![
            (
                "detail"@,
                Json::Str(
                    "client '"@ + client_id + "' exceeded "@ + crate::json::nat_text(rpm as nat)
                        + " rpm"@,
                ),
            ),
            ("error"@, Json::Str("rate_limit_exceeded"@)),
            (
                "receipt"@,
                Json::Obj(
                    seq![
                        (
                            "body"@,
                            Json::Obj(
                                seq![
                                    ("decision"@, Json::Str("DENY"@)),
                                    ("reason"@, Json::Str("RATE_LIMIT"@)),
                                    ("recommended_action"@, Json::Str("retry_after"@)),
                                    ("retry_after_secs"@, Json::Num(retry_after_secs as int)),
                                ],
                            ),
                        ),
                        ("t"@, Json::Str("ubl/wf"@)),
                    ],
                ),
            ),
        ],
    )
}

/// The body of a 429 answer for `client_id`.
pub fn rate_limit_body(client_id: &str, rpm: u32, retry_after_secs: u64) -> (r: JsonValue)
    ensures
        r.model() == rate_limit_json(client_id@, rpm, retry_after_secs),
{
    let mut detail: Vec<char> = Vec::new();
    crate::text::append_str(&mut detail, "client '");
    crate::text::append_str(&mut detail, client_id);
    crate::text::append_str(&mut detail, "' exceeded ");
    crate::json::write_nat(rpm as u128, &mut detail);
    crate::text::append_str(&mut detail, " rpm");
    let detail = string_from_chars(&detail);
    let mut body: Vec<(String, JsonValue)> = Vec::new();
    body.push(("decision".to_owned(), JsonValue::from_str("DENY")));
    body.push(("reason".to_owned(), JsonValue::from_str("RATE_LIMIT")));
    body.push(("recommended_action".to_owned(), JsonValue::from_str("retry_after")));
    body.push(("retry_after_secs".to_owned(), JsonValue::Number(retry_after_secs as i128)));
    let ghost bm = body@;
    let mut receipt: Vec<(String, JsonValue)> = Vec::new();
    receipt.push(("body".to_owned(), JsonValue::Object(body)));
    receipt.push(("t".to_owned(), JsonValue::from_str("ubl/wf")));
    let ghost rm = receipt@;
    let mut o: Vec<(String, JsonValue)> = Vec::new();
    o.push(("detail".to_owned(), JsonValue::from_str(detail.as_str())));
    o.push(("error".to_owned(), JsonValue::from_str("rate_limit_exceeded")));
    o.push(("receipt".to_owned(), JsonValue::Object(receipt)));
    proof {
        let target = rate_limit_json(client_id@, rpm, retry_after_secs);
        assert(detail@ =~= "client '"@ + client_id@ + "' exceeded "@ + crate::json::nat_text(
            rpm as nat,
        ) + " rpm"@);
        assert(entries_model(bm) =~= seq![
            ("decision"@, Json::Str("DENY"@)),
            ("reason"@, Json::Str("RATE_LIMIT"@)),
            ("recommended_action"@, Json::Str("retry_after"@)),
            ("retry_after_secs"@, Json::Num(retry_after_secs as int)),
        ]);
        assert(entries_model(rm) =~= seq![
            ("body"@, Json::Obj(entries_model(bm))),
            ("t"@, Json::Str("ubl/wf"@)),
        ]);
        assert(entries_model(o@) =~= match target {
            Json::Obj(es) => es,
            _ => Seq::empty(),
        });
    }
    JsonValue::Object(o)
}

} // verus!
