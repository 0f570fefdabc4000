use jack::config::ConfigError;
use jack::config::OAuthConfig;

fn pairs(of: &[(&str, &str)]) -> Vec<(String, String)> {
    of.iter().map(|(k, v)| (k.to_string(), v.to_string())).collect()
}

#[test]
fn full_block_parses_to_all_fields() {
    let p = pairs(&[
        ("client_id", "cid"),
        ("client_secret", "sec"),
        ("auth_uri", "https://example.test/auth"),
        ("token_uri", "https://example.test/token"),
        ("scope", "read"),
    ]);
    let cfg = OAuthConfig::from_pairs(&p).expect("complete block");
    assert_eq!(cfg.client_id, "cid");
    assert_eq!(cfg.client_secret, Some("sec".to_string()));
    assert_eq!(cfg.auth_endpoint, "https://example.test/auth");
    assert_eq!(cfg.token_endpoint, Some("https://example.test/token".to_string()));
    assert_eq!(cfg.scope, Some("read".to_string()));
}

#[test]
fn minimal_block_leaves_optional_fields_empty() {
    let p = pairs(&[("client_id", "cid"), ("auth_uri", "https://a.test")]);
    let cfg = OAuthConfig::from_pairs(&p).expect("minimal block");
    assert_eq!(cfg.client_secret, None);
    assert_eq!(cfg.token_endpoint, None);
    assert_eq!(cfg.scope, None);
}

#[test]
fn missing_client_id_is_its_own_error() {
    let p = pairs(&[("auth_uri", "https://a.test")]);
    assert!(matches!(OAuthConfig::from_pairs(&p), Err(ConfigError::MissingClientId)));
}

#[test]
fn missing_auth_uri_is_its_own_error() {
    let p = pairs(&[("client_id", "cid")]);
    assert!(matches!(OAuthConfig::from_pairs(&p), Err(ConfigError::MissingAuthEndpoint)));
}

#[test]
fn first_pair_wins_for_a_repeated_field() {
    let p = pairs(&[
        ("client_id", "first"),
        ("client_id", "second"),
        ("auth_uri", "https://a.test"),
    ]);
    let cfg = OAuthConfig::from_pairs(&p).expect("block with a repeated field");
    assert_eq!(cfg.client_id, "first");
}
