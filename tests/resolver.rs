use open_mantle_proxy::heuristic::is_final;
use open_mantle_proxy::mode::{
    parse_mode, resolve, resolve_name, select_mode, ConfigError, ProxyMode, Upstream,
};

#[test]
fn resolve_primary() {
    assert_eq!(resolve(ProxyMode::Primary), vec![Upstream::Mantle]);
}

#[test]
fn resolve_prefer_primary() {
    assert_eq!(
        resolve(ProxyMode::PreferPrimaryFallbackSecondary),
        vec![Upstream::Legacy, Upstream::Mantle]
    );
}

#[test]
fn resolve_prefer_secondary() {
    assert_eq!(
        resolve(ProxyMode::PreferSecondaryFallbackPrimary),
        vec![Upstream::Mantle, Upstream::Legacy]
    );
}

#[test]
fn resolve_by_name() {
    assert_eq!(resolve_name("mantle"), vec![Upstream::Mantle]);
    assert_eq!(resolve_name("optimantle"), vec![Upstream::Legacy, Upstream::Mantle]);
    assert_eq!(resolve_name("mantlefine"), vec![Upstream::Mantle, Upstream::Legacy]);
}

#[test]
fn resolve_by_name_ignores_case() {
    assert_eq!(resolve_name("OptiMantle"), vec![Upstream::Legacy, Upstream::Mantle]);
    assert_eq!(resolve_name("MANTLEFINE"), vec![Upstream::Mantle, Upstream::Legacy]);
}

#[test]
fn resolve_unknown_name_is_empty() {
    assert!(resolve_name("optifine").is_empty());
    assert!(resolve_name("").is_empty());
    assert!(resolve_name("mantle ").is_empty());
}

#[test]
fn parse_mode_names() {
    assert_eq!(parse_mode("Mantle"), Ok(ProxyMode::Primary));
    assert_eq!(parse_mode("optimantle"), Ok(ProxyMode::PreferPrimaryFallbackSecondary));
    assert_eq!(parse_mode("mantleFine"), Ok(ProxyMode::PreferSecondaryFallbackPrimary));
    assert_eq!(parse_mode("capes"), Err(ConfigError::UnknownMode));
}

#[test]
fn select_mode_defaults_to_primary() {
    assert_eq!(select_mode(None), Ok(ProxyMode::Primary));
    assert_eq!(select_mode(Some("MantleFine")), Ok(ProxyMode::PreferSecondaryFallbackPrimary));
    assert_eq!(select_mode(Some("nope")), Err(ConfigError::UnknownMode));
}

#[test]
fn upstream_hosts() {
    assert_eq!(Upstream::Mantle.host(), "capes.mantle.gg");
    assert_eq!(Upstream::Legacy.host(), "107.182.233.85");
}

#[test]
fn final_ok_body() {
    assert!(is_final(200, b"ok"));
}

#[test]
fn not_final_404_empty() {
    assert!(!is_final(404, b""));
}

#[test]
fn not_final_json_not_found() {
    assert!(!is_final(200, b"{\"error\":\"Not Found\"}"));
}

#[test]
fn final_server_error() {
    assert!(is_final(500, b"oops"));
}

#[test]
fn phrase_is_case_sensitive() {
    assert!(is_final(200, b"not found"));
    assert!(!is_final(200, b"Not Found"));
    assert!(is_final(200, b"Not Foun"));
    assert!(!is_final(404, b"a cape"));
}
