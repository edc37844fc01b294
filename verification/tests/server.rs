use rninja::cache::remote::protocol::AuthHeader;
use rninja::server::auth::{AuthResult, TokenValidator};
use rninja::server::config::{default_storage_dir, parse_tokens, AuthConfig, ServerConfig};
use rninja::server::ServerStats;

#[test]
fn test_valid_token() {
    let config = AuthConfig { tokens: vec!["secret123".to_string()], require_auth: true };
    let validator = TokenValidator::new(&config);

    let auth = AuthHeader { token: "secret123".to_string(), client_id: None };
    assert_eq!(validator.validate(&auth), AuthResult::Allowed);
}

#[test]
fn test_invalid_token() {
    let config = AuthConfig { tokens: vec!["secret123".to_string()], require_auth: true };
    let validator = TokenValidator::new(&config);

    let auth = AuthHeader { token: "wrongtoken".to_string(), client_id: None };
    assert_eq!(validator.validate(&auth), AuthResult::InvalidToken);
}

#[test]
fn test_no_token() {
    let config = AuthConfig { tokens: vec!["secret123".to_string()], require_auth: true };
    let validator = TokenValidator::new(&config);

    let auth = AuthHeader { token: String::new(), client_id: None };
    assert_eq!(validator.validate(&auth), AuthResult::NoToken);
}

#[test]
fn test_auth_not_required() {
    let config = AuthConfig { tokens: vec![], require_auth: false };
    let validator = TokenValidator::new(&config);

    let auth = AuthHeader { token: String::new(), client_id: None };
    assert_eq!(validator.validate(&auth), AuthResult::Allowed);
}

#[test]
fn token_validator_counts_distinct_tokens() {
    let config = AuthConfig {
        tokens: vec!["a".to_string(), "b".to_string(), "a".to_string()],
        require_auth: false,
    };
    let v = TokenValidator::new(&config);
    assert_eq!(v.token_count(), 2);
    assert!(!v.is_required());
    let auth = AuthHeader { token: "c".to_string(), client_id: None };
    assert_eq!(v.validate(&auth), AuthResult::InvalidToken);
    assert!(!AuthResult::InvalidToken.is_allowed());
    assert!(AuthResult::Allowed.is_allowed());
}

#[test]
fn config_test_default_config() {
    let config = ServerConfig::default();
    assert_eq!(config.listen_addr, "tcp://0.0.0.0:9999");
    assert!(config.auth.require_auth);

    let config = rninja::config::Config::default();
    assert_eq!(config.build.jobs, 0);
    assert!(config.cache.enabled);
    assert!(!config.output.verbose);
}

#[test]
fn server_config_defaults() {
    let c = ServerConfig::with_storage_dir("/data".to_string());
    assert_eq!(c.storage_dir, "/data");
    assert_eq!(c.max_connections, 100);
    assert!(c.entry_ttl().is_none());
    let mut c = c;
    c.entry_ttl_secs = Some(60);
    assert_eq!(c.entry_ttl(), Some(std::time::Duration::from_secs(60)));
    assert_eq!(default_storage_dir(None, None), "/var/cache/rninja-cached");
    assert_eq!(default_storage_dir(Some("/x"), Some("/h")), "/x/rninja-cached");
    assert_eq!(default_storage_dir(None, Some("/h")), "/h/.local/share/rninja-cached");
}

#[test]
fn server_stats_record() {
    let mut s = ServerStats::default();
    s.record_request(true, 10, 20);
    s.record_request(false, 1, 2);
    assert_eq!(s.requests_total, 2);
    assert_eq!(s.requests_success, 1);
    assert_eq!(s.requests_failed, 1);
    assert_eq!(s.bytes_received, 11);
    assert_eq!(s.bytes_sent, 22);
}

#[test]
fn server_tokens_are_split_and_trimmed() {
    assert_eq!(parse_tokens(" a, b ,c"), vec!["a".to_string(), "b".to_string(), "c".to_string()]);
    assert_eq!(parse_tokens(""), vec!["".to_string()]);
    assert_eq!(parse_tokens("x,,y"), vec!["x".to_string(), "".to_string(), "y".to_string()]);
}

#[test]
fn server_stats_totals_over_calls() {
    let mut s = ServerStats::default();
    let calls = [(true, 10usize, 20usize), (false, 5, 1), (true, 0, 7)];
    for (ok, bin, bout) in calls {
        s.record_request(ok, bin, bout);
    }
    assert_eq!(s.requests_total, 3);
    assert_eq!(s.requests_success + s.requests_failed, 3);
    assert_eq!((s.requests_success, s.requests_failed), (2, 1));
    assert_eq!((s.bytes_received, s.bytes_sent), (15, 28));
    assert_eq!((s.cache_entries, s.cache_blobs, s.cache_size_bytes), (0, 0, 0));
}
