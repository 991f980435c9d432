//! The service's settings, made from the values of environment variables
//! (read by the caller): rate-limit and idempotency-cache sizes, whether
//! authentication is off, and the CORS origins, globally, per app and per
//! (app, tenant).
use vstd::prelude::*;
use crate::access::CorsConfig;
use crate::assoc::{assoc_get, assoc_keys_distinct, assoc_put, lemma_assoc_put, lemma_assoc_put_distinct};
use crate::digest::{spec_to_lowercase, to_lowercase};
use crate::error::strings_view;
use crate::receipt::opt_str_view;
use crate::text::{
    chars_of, ends_with, has_prefix, has_suffix, parse_bounded, parse_unsigned, split_by,
    split_on, split_once, split_once_chars, starts_with, str_eq, string_from_chars, sub_chars,
    trim_chars, trimmed,
};

verus! {

// ---------------------------------------------------------------------------
// Numbers and flags
// ---------------------------------------------------------------------------

/// A numeric setting: the value parsed as an unsigned number of a type whose
/// largest value is `max`, or `default` when it is missing or does not parse.
pub open spec fn setting(v: Option<Seq<char>>, max: nat, default: nat) -> nat {
    match v {
        Some(s) => match parse_unsigned(s, max) {
            Some(n) => n,
            None => default,
        },
        None => default,
    }
}

fn setting_value(v: Option<&str>, max: u64, default: u64) -> (r: u64)
    requires
        default <= max,
    ensures
        r == setting(opt_str_view(v), max as nat, default as nat),
        r <= max,
{
    match v {
        Some(s) => match parse_bounded(s, max) {
            Some(n) => n,
            None => default,
        },
        None => default,
    }
}

/// Requests per minute and burst of the rate limiter (`RATE_LIMIT_RPM_DEFAULT`,
/// default 100; `RATE_LIMIT_BURST`, default 50).
pub fn rate_limit_settings(rpm: Option<&str>, burst: Option<&str>) -> (r: (u32, u32))
    ensures
        r.0 == setting(opt_str_view(rpm), u32::MAX as nat, 100),
        r.1 == setting(opt_str_view(burst), u32::MAX as nat, 50),
{
    let a = setting_value(rpm, 0xffff_ffffu64, 100);
    let b = setting_value(burst, 0xffff_ffffu64, 50);
    (a as u32, b as u32)
}

/// Capacity and TTL in seconds of the idempotency cache (`IDEMP_MAX_ENTRIES`,
/// default 10000; `IDEMP_TTL_SECS`, default 86400).
pub fn idempotency_settings(cap: Option<&str>, ttl_secs: Option<&str>) -> (r: (usize, u64))
    ensures
        r.0 == setting(opt_str_view(cap), usize::MAX as nat, 10_000),
        r.1 == setting(opt_str_view(ttl_secs), u64::MAX as nat, 86_400),
{
    assert(10_000 <= usize::MAX);
    let a = setting_value(cap, usize::MAX as u64, 10_000);
    let b = setting_value(ttl_secs, u64::MAX, 86_400);
    (a as usize, b)
}

/// Authentication is off exactly when `UBL_AUTH_DISABLED` is `1`.
pub fn auth_disabled(v: Option<&str>) -> (r: bool)
    ensures
        r == (opt_str_view(v) == Some("1"@)),
{
    match v {
        Some(s) => str_eq(s, "1"),
        None => false,
    }
}

// ---------------------------------------------------------------------------
// CORS origins
// ---------------------------------------------------------------------------

/// The global origins when `CORS_GLOBAL_ORIGINS` is not set.
pub open spec fn default_global_origins() -> Seq<char> {
    "https://api.ubl.agency,https://ui.ubl.agency,https://tunnel.ubl.agency,https://ubl.agency,http://localhost:3000,http://localhost:3001,http://localhost:5173"@
}

/// The pieces, trimmed, without the empty ones.
pub open spec fn trimmed_nonempty(pieces: Seq<Seq<char>>) -> Seq<Seq<char>>
    decreases pieces.len(),
{
    if pieces.len() == 0 {
        Seq::empty()
    } else {
        let prev = trimmed_nonempty(pieces.drop_last());
        let t = trimmed(pieces.last(), false);
        if t.len() > 0 {
            prev.push(t)
        } else {
            prev
        }
    }
}

/// The origins of a comma-separated list: each trimmed, empty ones dropped.
pub open spec fn origins_of(val: Seq<char>) -> Seq<Seq<char>> {
    trimmed_nonempty(split_on(val, ','))
}

/// What a variable contributes, if anything: `(true, app:tenant, origins)` for
/// `CORS_APP_<APP>_TENANT_<TENANT>_ORIGINS` and the legacy
/// `CORS_TENANT_<TENANT>_ORIGINS` (app `default`), `(false, app, origins)` for
/// `CORS_APP_<APP>_ORIGINS`; names lowercased. A variable with no origins
/// contributes nothing.
pub open spec fn cors_entry(key: Seq<char>, val: Seq<char>) -> Option<
    (bool, Seq<char>, Seq<Seq<char>>),
> {
    let origins = origins_of(val);
    if origins.len() == 0 {
        None
    } else if has_prefix(key, "CORS_APP_"@) {
        let rest = key.skip(9);
        if has_suffix(rest, "_ORIGINS"@) {
            let inner = rest.take(rest.len() - 8);
            match split_once(inner, "_TENANT_"@) {
                Some((app, tenant)) => Some(
                    (true, spec_to_lowercase(app) + ":"@ + spec_to_lowercase(tenant), origins),
                ),
                None => Some((false, spec_to_lowercase(inner), origins)),
            }
        } else {
            None
        }
    } else if has_prefix(key, "CORS_TENANT_"@) && has_suffix(key.skip(12), "_ORIGINS"@) {
        let rest = key.skip(12);
        Some((true, "default:"@ + spec_to_lowercase(rest.take(rest.len() - 8)), origins))
    } else {
        None
    }
}

/// The origins that the variables leave under `k` in the scoped (or the
/// app) table: those of the last variable that contributes to that key.
pub open spec fn cors_lookup(vars: Seq<(Seq<char>, Seq<char>)>, scoped: bool, k: Seq<char>) -> Option<
    Seq<Seq<char>>,
>
    decreases vars.len(),
{
    if vars.len() == 0 {
        None
    } else {
        match cors_entry(vars.last().0, vars.last().1) {
            Some((s, kk, o)) if s == scoped && kk == k => Some(o),
            _ => cors_lookup(vars.drop_last(), scoped, k),
        }
    }
}

/// The origins a table holds under `k`.
pub open spec fn table_lookup(t: Seq<(String, Vec<String>)>, k: Seq<char>) -> Option<Seq<Seq<char>>> {
    match assoc_get(t, k) {
        Some(v) => Some(strings_view(v@)),
        None => None,
    }
}

pub open spec fn vars_view(vars: Seq<(String, String)>) -> Seq<(Seq<char>, Seq<char>)> {
    vars.map_values(|p: (String, String)| (p.0@, p.1@))
}

/// The origins of a comma-separated list.
pub fn origins_from(val: &str) -> (r: Vec<String>)
    ensures
        strings_view(r@) == origins_of(val@),
{
    let pieces = split_by(val, ',');
    let ghost ps = strings_view(pieces@);
    let mut out: Vec<String> = Vec::new();
    let mut i: usize = 0;
    while i < pieces.len()
        invariant
            i <= pieces.len(),
            ps == strings_view(pieces@),
            strings_view(out@) == trimmed_nonempty(ps.take(i as int)),
        decreases pieces.len() - i,
    {
        assert(ps.take(i + 1).drop_last() =~= ps.take(i as int));
        let t = trim_chars(&chars_of(pieces[i].as_str()), false);
        if t.len() > 0 {
            let ghost before = out@;
            out.push(string_from_chars(&t));
            assert(strings_view(out@) =~= strings_view(before).push(t@));
        }
        i = i + 1;
    }
    assert(ps.take(ps.len() as int) =~= ps);
    out
}

fn lower_of(v: &Vec<char>) -> (r: String)
    ensures
        r@ == spec_to_lowercase(v@),
{
    let s = string_from_chars(v);
    to_lowercase(s.as_str())
}

/// What the variable `key=val` contributes to the tables.
fn cors_entry_of(key: &str, val: &str) -> (r: Option<(bool, String, Vec<String>)>)
    ensures
        match cors_entry(key@, val@) {
            Some((s, k, o)) => r matches Some((s2, k2, o2)) && s2 == s && k2@ == k
                && strings_view(o2@) == o,
            None => r is None,
        },
{
    proof {
        reveal_strlit("CORS_APP_");
        reveal_strlit("CORS_TENANT_");
        reveal_strlit("_ORIGINS");
    }
    let origins = origins_from(val);
    if origins.len() == 0 {
        return None;
    }
    let k = chars_of(key);
    let app_prefix = chars_of("CORS_APP_");
    let tenant_prefix = chars_of("CORS_TENANT_");
    let suffix = chars_of("_ORIGINS");
    if starts_with(&k, &app_prefix) {
        let rest = sub_chars(&k, 9, k.len());
        assert(rest@ =~= k@.skip(9));
        if ends_with(&rest, &suffix) {
            let inner = sub_chars(&rest, 0, rest.len() - 8);
            assert(inner@ =~= rest@.take(rest@.len() - 8));
            let sep = chars_of("_TENANT_");
            match split_once_chars(&inner, &sep) {
                Some((app, tenant)) => {
                    let mut sk: Vec<char> = Vec::new();
                    let a = lower_of(&app);
                    let t = lower_of(&tenant);
                    crate::text::append_str(&mut sk, a.as_str());
                    crate::text::append_str(&mut sk, ":");
                    crate::text::append_str(&mut sk, t.as_str());
                    Some((true, string_from_chars(&sk), origins))
                },
                None => Some((false, lower_of(&inner), origins)),
            }
        } else {
            None
        }
    } else if starts_with(&k, &tenant_prefix) {
        let rest = sub_chars(&k, 12, k.len());
        assert(rest@ =~= k@.skip(12));
        if ends_with(&rest, &suffix) {
            let tenant = sub_chars(&rest, 0, rest.len() - 8);
            assert(tenant@ =~= rest@.take(rest@.len() - 8));
            let mut sk: Vec<char> = Vec::new();
            let t = lower_of(&tenant);
            crate::text::append_str(&mut sk, "default:");
            crate::text::append_str(&mut sk, t.as_str());
            Some((true, string_from_chars(&sk), origins))
        } else {
            None
        }
    } else {
        None
    }
}

impl CorsConfig {
    /// The configuration that `CORS_GLOBAL_ORIGINS` (`global`) and the other
    /// environment variables (`vars`, in the order they are listed) describe:
    /// global origins from `global` or the defaults; per-app and per-(app,
    /// tenant) origins from the `CORS_APP_..._ORIGINS` and
    /// `CORS_TENANT_..._ORIGINS` variables, the last variable for a key winning.
    pub fn from_vars(global: Option<&str>, vars: &Vec<(String, String)>) -> (r: CorsConfig)
        ensures
            r.wf(),
            strings_view(r.global_origins@) == origins_of(
                match global {
                    Some(g) => g@,
                    None => default_global_origins(),
                },
            ),
            forall|k: Seq<char>|
                #[trigger] table_lookup(r.app_origins@, k) == cors_lookup(
                    vars_view(vars@),
                    false,
                    k,
                ),
            forall|k: Seq<char>|
                #[trigger] table_lookup(r.scoped_origins@, k) == cors_lookup(
                    vars_view(vars@),
                    true,
                    k,
                ),
    {
        let global_origins = match global {
            Some(g) => origins_from(g),
            None => origins_from(
                "https://api.ubl.agency,https://ui.ubl.agency,https://tunnel.ubl.agency,https://ubl.agency,http://localhost:3000,http://localhost:3001,http://localhost:5173",
            ),
        };
        let mut app_origins: Vec<(String, Vec<String>)> = Vec::new();
        let mut scoped_origins: Vec<(String, Vec<String>)> = Vec::new();
        let ghost vv = vars_view(vars@);
        let mut i: usize = 0;
        while i < vars.len()
            invariant
                i <= vars.len(),
                vv == vars_view(vars@),
                assoc_keys_distinct(app_origins@),
                assoc_keys_distinct(scoped_origins@),
                forall|k: Seq<char>|
                    #[trigger] table_lookup(app_origins@, k) == cors_lookup(
                        vv.take(i as int),
                        false,
                        k,
                    ),
                forall|k: Seq<char>|
                    #[trigger] table_lookup(scoped_origins@, k) == cors_lookup(
                        vv.take(i as int),
                        true,
                        k,
                    ),
            decreases vars.len() - i,
        {
            let ghost pre = vv.take(i as int);
            let ghost post = vv.take(i + 1);
            assert(post.drop_last() =~= pre);
            assert(post.last() == (vars@[i as int].0@, vars@[i as int].1@));
            let entry = cors_entry_of(vars[i].0.as_str(), vars[i].1.as_str());
            match entry {
                Some((scoped, key, origins)) => {
                    let ghost og = origins;
                    let ghost kv = key@;
                    if scoped {
                        let ghost before = scoped_origins@;
                        assoc_put(&mut scoped_origins, key.as_str(), origins);
                        proof {
                            lemma_assoc_put_distinct(before, scoped_origins@, kv, og);
                        }
                        assert forall|k: Seq<char>|
                            #[trigger] table_lookup(scoped_origins@, k) == cors_lookup(
                                post,
                                true,
                                k,
                            ) by {
                            if k == kv {
                                assert(kv.push('x').len() != kv.len());
                                lemma_assoc_put(before, scoped_origins@, kv, og, kv.push('x'));
                            } else {
                                lemma_assoc_put(before, scoped_origins@, kv, og, k);
                                assert(table_lookup(before, k) == cors_lookup(pre, true, k));
                            }
                        }
                        assert forall|k: Seq<char>|
                            #[trigger] table_lookup(app_origins@, k) == cors_lookup(
                                post,
                                false,
                                k,
                            ) by {
                            assert(table_lookup(app_origins@, k) == cors_lookup(pre, false, k));
                        }
                    } else {
                        let ghost before = app_origins@;
                        assoc_put(&mut app_origins, key.as_str(), origins);
                        proof {
                            lemma_assoc_put_distinct(before, app_origins@, kv, og);
                        }
                        assert forall|k: Seq<char>|
                            #[trigger] table_lookup(app_origins@, k) == cors_lookup(
                                post,
                                false,
                                k,
                            ) by {
                            if k == kv {
                                assert(kv.push('x').len() != kv.len());
                                lemma_assoc_put(before, app_origins@, kv, og, kv.push('x'));
                            } else {
                                lemma_assoc_put(before, app_origins@, kv, og, k);
                                assert(table_lookup(before, k) == cors_lookup(pre, false, k));
                            }
                        }
                        assert forall|k: Seq<char>|
                            #[trigger] table_lookup(scoped_origins@, k) == cors_lookup(
                                post,
                                true,
                                k,
                            ) by {
                            assert(table_lookup(scoped_origins@, k) == cors_lookup(pre, true, k));
                        }
                    }
                },
                None => {
                    assert forall|k: Seq<char>|
                        #[trigger] table_lookup(app_origins@, k) == cors_lookup(post, false, k)
                        by {
                        assert(table_lookup(app_origins@, k) == cors_lookup(pre, false, k));
                    }
                    assert forall|k: Seq<char>|
                        #[trigger] table_lookup(scoped_origins@, k) == cors_lookup(post, true, k)
                        by {
                        assert(table_lookup(scoped_origins@, k) == cors_lookup(pre, true, k));
                    }
                },
            }
            i = i + 1;
        }
        assert(vv.take(vars@.len() as int) =~= vv);
        CorsConfig { global_origins, app_origins, scoped_origins }
    }
}

} // verus!
