//! Per-app key rings with optional tenant overrides.
//!
//! Lookup order: the `(app, tenant)` override, then the app's key ring, then
//! the global fallback.
use vstd::prelude::*;
use std::sync::Arc;
use crate::assoc::{
    assoc_get, assoc_keys_distinct, assoc_put, assoc_put_spec, find_key, lemma_assoc_put,
    lemma_assoc_put_distinct,
};
use crate::receipt::{KeyRing, KeyRingModel};
use crate::scope::Scope;
use crate::text::{append_str, string_from_chars};

verus! {

/// Hierarchical key ring store: app → key ring, with `app:tenant` overrides.
#[derive(Debug, Clone)]
pub struct KeyRingStore {
    /// Global fallback key ring (used when no app-specific one is configured)
    pub global: KeyRing,
    /// Per-app key rings: app id → key ring
    pub app_keyrings: Vec<(String, KeyRing)>,
    /// Per-(app, tenant) overrides: "app:tenant" → key ring
    pub scoped_keyrings: Vec<(String, KeyRing)>,
}

/// The key of a tenant override: `app:tenant`.
pub open spec fn scoped_key(app: Seq<char>, tenant: Seq<char>) -> Seq<char> {
    app + ":"@ + tenant
}

/// The key ring that applies to `(app, tenant)`: the override, else the
/// app's, else the global one.
pub open spec fn spec_resolve(
    global: KeyRing,
    apps: Seq<(String, KeyRing)>,
    scoped: Seq<(String, KeyRing)>,
    app: Seq<char>,
    tenant: Seq<char>,
) -> KeyRingModel {
    match assoc_get(scoped, scoped_key(app, tenant)) {
        Some(k) => k@,
        None => match assoc_get(apps, app) {
            Some(k) => k@,
            None => global@,
        },
    }
}

fn join_scoped(app: &str, tenant: &str) -> (r: String)
    ensures
        r@ == scoped_key(app@, tenant@),
{
    let mut out: Vec<char> = Vec::new();
    append_str(&mut out, app);
    append_str(&mut out, ":");
    append_str(&mut out, tenant);
    string_from_chars(&out)
}

impl KeyRingStore {
    /// The store's invariant: each table is a map (no key twice).
    pub open spec fn wf(self) -> bool {
        assoc_keys_distinct(self.app_keyrings@) && assoc_keys_distinct(self.scoped_keyrings@)
    }

    /// A store with only the global fallback.
    pub fn new(global: KeyRing) -> (r: Self)
        ensures
            r.wf(),
            r.global@ == global@,
            r.app_keyrings@.len() == 0,
            r.scoped_keyrings@.len() == 0,
    {
        KeyRingStore { global, app_keyrings: Vec::new(), scoped_keyrings: Vec::new() }
    }

    /// A store with the development key ring as global fallback.
    pub fn dev() -> (r: Self)
        ensures
            r.wf(),
            r.global@ == KeyRing::dev_model(),
            r.app_keyrings@.len() == 0,
            r.scoped_keyrings@.len() == 0,
    {
        Self::new(KeyRing::dev())
    }

    /// Registers a key ring for an app, replacing an earlier one.
    pub fn set_app(&mut self, app: &str, keyring: KeyRing)
        ensures
            old(self).wf() ==> final(self).wf(),
            assoc_put_spec(old(self).app_keyrings@, final(self).app_keyrings@, app@, keyring),
            final(self).global == old(self).global,
            final(self).scoped_keyrings == old(self).scoped_keyrings,
    {
        let ghost before = self.app_keyrings@;
        assoc_put(&mut self.app_keyrings, app, keyring);
        proof {
            if assoc_keys_distinct(before) {
                lemma_assoc_put_distinct(before, self.app_keyrings@, app@, keyring);
            }
        }
    }

    /// Registers a key ring override for `(app, tenant)`, replacing an earlier one.
    pub fn set_scoped(&mut self, app: &str, tenant: &str, keyring: KeyRing)
        ensures
            old(self).wf() ==> final(self).wf(),
            assoc_put_spec(
                old(self).scoped_keyrings@,
                final(self).scoped_keyrings@,
                scoped_key(app@, tenant@),
                keyring,
            ),
            final(self).global == old(self).global,
            final(self).app_keyrings == old(self).app_keyrings,
    {
        let key = join_scoped(app, tenant);
        let ghost before = self.scoped_keyrings@;
        assoc_put(&mut self.scoped_keyrings, key.as_str(), keyring);
        proof {
            if assoc_keys_distinct(before) {
                lemma_assoc_put_distinct(before, self.scoped_keyrings@, key@, keyring);
            }
        }
    }

    /// The effective key ring for `(app, tenant)`: override, then app, then global.
    pub fn resolve(&self, app: &str, tenant: &str) -> (r: Arc<KeyRing>)
        ensures
            (*r)@ == spec_resolve(
                self.global,
                self.app_keyrings@,
                self.scoped_keyrings@,
                app@,
                tenant@,
            ),
    {
        let scoped_key = join_scoped(app, tenant);
        match find_key(&self.scoped_keyrings, scoped_key.as_str()) {
            Some(i) => {
                return Arc::new(self.scoped_keyrings[i].1.copy());
            },
            None => {},
        }
        match find_key(&self.app_keyrings, app) {
            Some(i) => Arc::new(self.app_keyrings[i].1.copy()),
            None => Arc::new(self.global.copy()),
        }
    }

    /// The effective key ring for a scope.
    pub fn resolve_for_scope(&self, scope: &Scope) -> (r: Arc<KeyRing>)
        ensures
            (*r)@ == spec_resolve(
                self.global,
                self.app_keyrings@,
                self.scoped_keyrings@,
                scope.app@,
                scope.tenant@,
            ),
    {
        self.resolve(scope.app.as_str(), scope.tenant.as_str())
    }
}

/// After an app's key ring is set, that app resolves to it for every tenant
/// without an override, other apps resolve as before, and the global fallback
/// is unchanged.
pub proof fn lemma_set_app_resolves(
    before: KeyRingStore,
    after: KeyRingStore,
    app: Seq<char>,
    keyring: KeyRing,
    other: Seq<char>,
    tenant: Seq<char>,
)
    requires
        assoc_put_spec(before.app_keyrings@, after.app_keyrings@, app, keyring),
        after.global == before.global,
        after.scoped_keyrings == before.scoped_keyrings,
        other != app,
    ensures
        assoc_get(before.scoped_keyrings@, scoped_key(app, tenant)) is None ==> spec_resolve(
            after.global,
            after.app_keyrings@,
            after.scoped_keyrings@,
            app,
            tenant,
        ) == keyring@,
        spec_resolve(after.global, after.app_keyrings@, after.scoped_keyrings@, other, tenant)
            == spec_resolve(
            before.global,
            before.app_keyrings@,
            before.scoped_keyrings@,
            other,
            tenant,
        ),
{
    lemma_assoc_put(before.app_keyrings@, after.app_keyrings@, app, keyring, other);
}

/// After an override is set for `(app, tenant)`, that pair resolves to it,
/// whatever the app's key ring.
pub proof fn lemma_set_scoped_resolves(
    before: KeyRingStore,
    after: KeyRingStore,
    app: Seq<char>,
    tenant: Seq<char>,
    keyring: KeyRing,
)
    requires
        assoc_put_spec(
            before.scoped_keyrings@,
            after.scoped_keyrings@,
            scoped_key(app, tenant),
            keyring,
        ),
    ensures
        spec_resolve(after.global, after.app_keyrings@, after.scoped_keyrings@, app, tenant)
            == keyring@,
{
    let key = scoped_key(app, tenant);
    assert(key.push('x').len() != key.len());
    lemma_assoc_put(
        before.scoped_keyrings@,
        after.scoped_keyrings@,
        scoped_key(app, tenant),
        keyring,
        scoped_key(app, tenant).push('x'),
    );
}

} // verus!
