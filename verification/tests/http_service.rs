use ubl::access::{parse_scope_from_path, CorsConfig};
use ubl::scope::{AuthCtx, Scope};

fn cfg_empty() -> CorsConfig {
    CorsConfig {
        global_origins: vec![],
        app_origins: Vec::new(),
        scoped_origins: Vec::new(),
    }
}

#[test]
fn global_origin_allowed() {
    let cfg = CorsConfig {
        global_origins: vec!["https://ubl.agency".into(), "http://localhost:3000".into()],
        ..cfg_empty()
    };
    assert!(cfg.is_origin_allowed("https://ubl.agency", None));
    assert!(cfg.is_origin_allowed("http://localhost:3000", None));
    assert!(!cfg.is_origin_allowed("https://evil.com", None));
}

#[test]
fn scoped_origin_allowed() {
    let mut scoped = Vec::new();
    scoped.push(("ubl:acme".to_string(), vec!["https://app.acme.com".to_string()]));
    let cfg = CorsConfig {
        global_origins: vec!["https://ubl.agency".into()],
        scoped_origins: scoped,
        ..cfg_empty()
    };
    let acme = Scope::new("ubl", "acme");
    let other = Scope::new("ubl", "other");
    assert!(cfg.is_origin_allowed("https://app.acme.com", Some(&acme)));
    assert!(!cfg.is_origin_allowed("https://app.acme.com", Some(&other)));
    assert!(!cfg.is_origin_allowed("https://app.acme.com", None));
    assert!(cfg.is_origin_allowed("https://ubl.agency", Some(&acme)));
}

#[test]
fn app_level_origin_fallback() {
    let mut app = Vec::new();
    app.push(("ubl".to_string(), vec!["https://app.ubl.com".to_string()]));
    let cfg = CorsConfig {
        global_origins: vec!["https://ubl.agency".into()],
        app_origins: app,
        scoped_origins: Vec::new(),
    };
    let any_tenant = Scope::new("ubl", "whatever");
    assert!(cfg.is_origin_allowed("https://app.ubl.com", Some(&any_tenant)));
    let other_app = Scope::new("other", "whatever");
    assert!(!cfg.is_origin_allowed("https://app.ubl.com", Some(&other_app)));
}

#[test]
fn allowed_origins_for_merges() {
    let mut scoped = Vec::new();
    scoped.push(("ubl:acme".to_string(), vec!["https://app.acme.com".to_string()]));
    let mut app = Vec::new();
    app.push(("ubl".to_string(), vec!["https://app.ubl.com".to_string()]));
    let cfg = CorsConfig {
        global_origins: vec!["https://ubl.agency".into()],
        app_origins: app,
        scoped_origins: scoped,
    };
    let acme = Scope::new("ubl", "acme");
    let origins = cfg.allowed_origins_for(&acme);
    assert_eq!(origins.len(), 3);
    assert!(origins.contains(&"https://ubl.agency".into()));
    assert!(origins.contains(&"https://app.ubl.com".into()));
    assert!(origins.contains(&"https://app.acme.com".into()));

    let unknown = Scope::new("ubl", "unknown");
    let origins = cfg.allowed_origins_for(&unknown);
    assert_eq!(origins.len(), 2);
}

#[test]
fn empty_config() {
    let cfg = cfg_empty();
    assert!(!cfg.is_origin_allowed("https://anything.com", None));
    let s = Scope::legacy();
    assert!(cfg.allowed_origins_for(&s).is_empty());
}

#[test]
fn parse_scope_from_path_works() {
    let s = parse_scope_from_path("/a/myapp/t/acme/v1/execute");
    assert_eq!(s, Some(Scope::new("myapp", "acme")));

    let s = parse_scope_from_path("/v1/execute");
    assert_eq!(s, None);

    let s = parse_scope_from_path("/a/x/t/y/v1/receipt/b3:abc");
    assert_eq!(s, Some(Scope::new("x", "y")));
}

#[test]
fn scope_key_prefix() {
    let s = Scope::new("myapp", "acme");
    assert_eq!(s.key_prefix(), "myapp:acme");
    assert_eq!(s.scoped_cid("b3:abc"), "myapp:acme:b3:abc");
}

#[test]
fn legacy_scope() {
    let s = Scope::legacy();
    assert_eq!(s.app, "default");
    assert_eq!(s.tenant, "default");
}

#[test]
fn scope_display() {
    let s = Scope::new("ubl", "prod");
    assert_eq!(s.to_string(), "app=ubl tenant=prod");
}

#[test]
fn auth_ctx_kid_allowed() {
    let ctx = AuthCtx {
        scope: Scope::legacy(),
        client_id: "test".into(),
        allowed_kids: vec!["did:dev#k1".into()],
    };
    assert!(ctx.kid_allowed("did:dev#k1"));
    assert!(!ctx.kid_allowed("did:other#k9"));

    let unrestricted = AuthCtx {
        scope: Scope::legacy(),
        client_id: "test".into(),
        allowed_kids: vec![],
    };
    assert!(unrestricted.kid_allowed("anything"));
}
