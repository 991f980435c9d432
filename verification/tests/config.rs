use ubl::access::CorsConfig;
use ubl::config::{auth_disabled, idempotency_settings, rate_limit_settings};
use ubl::scope::Scope;

#[test]
fn numeric_settings_fall_back_to_defaults() {
    assert_eq!(rate_limit_settings(None, None), (100, 50));
    assert_eq!(rate_limit_settings(Some("600"), Some("+5")), (600, 5));
    assert_eq!(rate_limit_settings(Some("abc"), Some("")), (100, 50));
    assert_eq!(rate_limit_settings(Some("4294967296"), Some("-1")), (100, 50));
    assert_eq!(rate_limit_settings(Some("4294967295"), Some("+")), (4294967295, 50));
    assert_eq!(idempotency_settings(None, None), (10_000, 86_400));
    assert_eq!(idempotency_settings(Some("3"), Some("60")), (3, 60));
    assert_eq!(idempotency_settings(Some(" 3"), Some("18446744073709551616")), (10_000, 86_400));
    assert_eq!(idempotency_settings(None, Some("18446744073709551615")).1, u64::MAX);
}

#[test]
fn settings_parse_like_std() {
    for v in ["0", "+7", "007", "", "+", "-0", "1_0", " 1", "99999999999"] {
        let ours = rate_limit_settings(Some(v), None).0;
        let std = v.parse::<u32>().ok().unwrap_or(100);
        assert_eq!(ours, std, "{v:?}");
    }
}

#[test]
fn auth_is_disabled_only_by_one() {
    assert!(auth_disabled(Some("1")));
    assert!(!auth_disabled(Some("true")));
    assert!(!auth_disabled(Some("")));
    assert!(!auth_disabled(None));
}

fn vars(pairs: &[(&str, &str)]) -> Vec<(String, String)> {
    pairs.iter().map(|(k, v)| (k.to_string(), v.to_string())).collect()
}

#[test]
fn cors_from_environment() {
    let cfg = CorsConfig::from_vars(
        Some(" https://a.example , ,https://b.example"),
        &vars(&[
            ("CORS_APP_SHOP_ORIGINS", "https://shop.example"),
            ("CORS_APP_SHOP_TENANT_ACME_ORIGINS", "https://acme.example"),
            ("CORS_TENANT_LEGACY_ORIGINS", "https://legacy.example"),
            ("CORS_APP_EMPTY_ORIGINS", " , "),
            ("CORS_APP_NOSUFFIX", "https://x.example"),
            ("PATH", "/usr/bin"),
        ]),
    );
    assert_eq!(cfg.global_origins, vec!["https://a.example", "https://b.example"]);
    assert_eq!(cfg.app_origins.len(), 1);
    assert_eq!(cfg.app_origins[0].0, "shop");
    assert_eq!(cfg.app_origins[0].1, vec!["https://shop.example"]);
    let shop_acme = Scope::new("shop", "acme");
    assert!(cfg.is_origin_allowed("https://acme.example", Some(&shop_acme)));
    assert!(cfg.is_origin_allowed("https://shop.example", Some(&shop_acme)));
    assert!(cfg.is_origin_allowed("https://a.example", None));
    let legacy = Scope::new("default", "legacy");
    assert!(cfg.is_origin_allowed("https://legacy.example", Some(&legacy)));
    assert!(!cfg.is_origin_allowed("https://x.example", None));
}

#[test]
fn cors_defaults_and_last_variable_wins() {
    let cfg = CorsConfig::from_vars(
        None,
        &vars(&[
            ("CORS_TENANT_T_ORIGINS", "https://one.example"),
            ("CORS_APP_DEFAULT_TENANT_T_ORIGINS", "https://two.example"),
        ]),
    );
    assert_eq!(cfg.global_origins.len(), 7);
    assert_eq!(cfg.global_origins[0], "https://api.ubl.agency");
    assert_eq!(cfg.global_origins[6], "http://localhost:5173");
    assert_eq!(cfg.scoped_origins.len(), 1);
    assert_eq!(cfg.scoped_origins[0].0, "default:t");
    assert_eq!(cfg.scoped_origins[0].1, vec!["https://two.example"]);
}
