use rninja::cache::config::{CacheConfig, CacheMode, PullPolicy, PushPolicy, RemoteCacheConfig};
use rninja::cache::entry::Timestamp;
use rninja::cache::remote::protocol::{AuthHeader, ErrorCode, Request, RequestEnvelope, Response};
use rninja::server::auth::TokenValidator;
use rninja::server::config::{AuthConfig, ServerConfig};
use rninja::server::handler::{blob_push, check_envelope, check_quota, entry_expired, is_valid_hash, BlobPush};
use rninja::strmap::StrMap;
use rninja::text::split_at_char;

fn vars(pairs: &[(&str, &str)]) -> StrMap<String> {
    let mut m = StrMap::new();
    for (k, v) in pairs {
        m.insert(k.to_string(), v.to_string());
    }
    m
}

#[test]
fn remote_config_from_vars() {
    let c = RemoteCacheConfig::from_vars(&vars(&[
        ("RNINJA_CACHE_REMOTE_SERVER", "tcp://h:1"),
        ("RNINJA_CACHE_TOKEN", "t"),
        ("RNINJA_CACHE_PUSH_POLICY", "NEVER"),
        ("RNINJA_CACHE_PULL_POLICY", "bogus"),
        ("RNINJA_CACHE_MAX_CONCURRENT", "8"),
        ("RNINJA_CACHE_CONNECT_TIMEOUT", "9"),
    ]));
    assert_eq!(c.server_addr, "tcp://h:1");
    assert_eq!(c.token, "t");
    assert_eq!(c.push_policy, PushPolicy::Never);
    assert_eq!(c.pull_policy, PullPolicy::Always);
    assert_eq!(c.max_concurrent, 8);
    assert_eq!(c.connect_timeout, std::time::Duration::from_secs(9));
    assert_eq!(c.request_timeout, std::time::Duration::from_secs(30));
    assert!(c.is_configured());
}

#[test]
fn cache_config_from_vars() {
    let c = CacheConfig::from_vars(&vars(&[
        ("HOME", "/home/u"),
        ("RNINJA_CACHE_ENABLED", "FALSE"),
        ("RNINJA_CACHE_MAX_AGE", "60"),
        ("RNINJA_CACHE_MAX_SIZE", "2K"),
    ]));
    assert_eq!(c.cache_dir, "/home/u/.cache/rninja");
    assert!(!c.enabled);
    assert_eq!(c.max_age, Some(std::time::Duration::from_secs(60)));
    assert_eq!(c.max_size, Some(2048));
    assert_eq!(c.mode, CacheMode::Local);

    let d = CacheConfig::from_vars(&vars(&[
        ("XDG_CACHE_HOME", "/x"),
        ("RNINJA_CACHE_REMOTE_SERVER", "tcp://h:1"),
        ("RNINJA_CACHE_TOKEN", "t"),
        ("RNINJA_CACHE_MAX_SIZE", "lots"),
    ]));
    assert_eq!(d.cache_dir, "/x/rninja");
    assert!(d.enabled);
    assert_eq!(d.max_size, None);
    assert_eq!(d.mode, CacheMode::Auto);

    let e = CacheConfig::from_vars(&vars(&[("RNINJA_CACHE_DIR", "/c"), ("RNINJA_CACHE_MODE", "remote")]));
    assert_eq!(e.cache_dir, "/c");
    assert_eq!(e.mode, CacheMode::Remote);
    assert_eq!(CacheConfig::from_vars(&vars(&[])).cache_dir, ".rninja-cache");
}

#[test]
fn server_config_from_vars() {
    let c = ServerConfig::from_vars(&vars(&[
        ("HOME", "/h"),
        ("RNINJA_SERVER_TOKENS", " a, b ,,c"),
        ("RNINJA_SERVER_ENTRY_TTL", "30"),
        ("RNINJA_SERVER_MAX_SIZE", "1M"),
    ]));
    assert_eq!(c.listen_addr, "tcp://0.0.0.0:9999");
    assert_eq!(c.storage_dir, "/h/.local/share/rninja-cached");
    assert_eq!(c.auth.tokens, vec!["a", "b", "", "c"]);
    assert_eq!(c.entry_ttl_secs, Some(30));
    assert_eq!(c.max_storage_size, Some(1048576));
    let d = ServerConfig::from_vars(&vars(&[("RNINJA_SERVER_LISTEN", "tcp://1.2.3.4:5"), ("RNINJA_SERVER_STORAGE", "/s")]));
    assert_eq!(d.listen_addr, "tcp://1.2.3.4:5");
    assert_eq!(d.storage_dir, "/s");
    assert!(d.auth.tokens.is_empty());
}

#[test]
fn split_at_char_pieces() {
    let c: Vec<char> = "a,,b,".chars().collect();
    let p = split_at_char(&c, ',');
    let s: Vec<String> = p.iter().map(|v| v.iter().collect()).collect();
    assert_eq!(s, vec!["a", "", "b", ""]);
}

fn envelope(version: u32, token: &str) -> RequestEnvelope {
    RequestEnvelope {
        version,
        auth: AuthHeader { token: token.to_string(), client_id: None },
        request: Request::Ping,
    }
}

fn error_of(r: Option<Response>) -> (ErrorCode, String) {
    match r {
        Some(Response::Error { code, message }) => (code, message),
        _ => panic!("expected an error"),
    }
}

#[test]
fn server_envelope_checks() {
    let v = TokenValidator::new(&AuthConfig { tokens: vec!["secret".to_string()], require_auth: true });
    assert!(check_envelope(&envelope(1, "secret"), &v).is_none());
    assert_eq!(
        error_of(check_envelope(&envelope(2, "secret"), &v)),
        (ErrorCode::VersionMismatch, "protocol version mismatch: expected 1, got 2".to_string())
    );
    assert_eq!(
        error_of(check_envelope(&envelope(1, ""), &v)),
        (ErrorCode::AuthRequired, "authentication required".to_string())
    );
    assert_eq!(
        error_of(check_envelope(&envelope(1, "wrong"), &v)),
        (ErrorCode::AuthFailed, "invalid token".to_string())
    );
}

#[test]
fn server_blob_and_quota_decisions() {
    assert!(is_valid_hash("abcDEF0123"));
    assert!(!is_valid_hash(""));
    assert!(!is_valid_hash("../etc"));
    assert_eq!(blob_push("../x", 3, 0, 3), BlobPush::Invalid);
    assert_eq!(blob_push("ab", 3, 0, 3), BlobPush::Store);
    assert_eq!(blob_push("ab", 3, 0, 9), BlobPush::Skip);
    assert!(check_quota(None, 100).is_none());
    assert!(check_quota(Some(200), 100).is_none());
    assert_eq!(
        error_of(check_quota(Some(100), 100)),
        (ErrorCode::StorageFull, "storage quota exceeded".to_string())
    );
    let now = Timestamp { secs: 100, nanos: 0 };
    assert!(!entry_expired(None, Timestamp { secs: 0, nanos: 0 }, now));
    assert!(entry_expired(Some(10), Timestamp { secs: 89, nanos: 999_999_999 }, now));
    assert!(!entry_expired(Some(10), Timestamp { secs: 90, nanos: 0 }, now));
    assert!(!entry_expired(Some(0), Timestamp { secs: 200, nanos: 0 }, now));
}

#[test]
fn cache_pushes_only_to_a_used_remote() {
    let mut c = CacheConfig::default();
    assert!(!c.should_push());
    c.remote.server_addr = "tcp://cache:9999".to_string();
    c.remote.token = "t".to_string();
    assert!(!c.should_push());
    c.mode = CacheMode::Auto;
    assert!(c.should_push());
    c.remote.push_policy = PushPolicy::Never;
    assert!(!c.should_push());
}

#[test]
fn test_parse_sample_config() {
    let sample = rninja::config::Config::sample_config();
    let config: toml::Value = toml::from_str(sample).expect("Failed to parse sample config");
    assert_eq!(config["build"]["jobs"].as_integer(), Some(0));
    assert_eq!(config["cache"]["enabled"].as_bool(), Some(true));
}

#[test]
fn cache_mode_both_is_auto() {
    assert_eq!(CacheMode::from_str("both"), Some(CacheMode::Auto));
    assert_eq!(CacheMode::from_str("BOTH"), Some(CacheMode::Auto));
    let c = CacheConfig::from_vars(&vars(&[
        ("RNINJA_CACHE_DIR", "/tmp/c"),
        ("RNINJA_CACHE_ENABLED", "0"),
        ("RNINJA_CACHE_MODE", "both"),
    ]));
    assert_eq!(c.cache_dir, "/tmp/c");
    assert!(!c.enabled);
    assert_eq!(c.mode, CacheMode::Auto);
}

#[test]
fn remote_url_names_the_server() {
    let c = RemoteCacheConfig::from_vars(&vars(&[("RNINJA_REMOTE_URL", "tcp://cache:9999")]));
    assert_eq!(c.server_addr, "tcp://cache:9999");
    let c = RemoteCacheConfig::from_vars(&vars(&[
        ("RNINJA_REMOTE_URL", "tcp://cache:9999"),
        ("RNINJA_CACHE_REMOTE_SERVER", "tcp://other:1"),
    ]));
    assert_eq!(c.server_addr, "tcp://other:1");
    let c = CacheConfig::from_vars(&vars(&[("RNINJA_REMOTE_URL", "tcp://cache:9999"), ("RNINJA_CACHE_TOKEN", "t")]));
    assert_eq!(c.remote.server_addr, "tcp://cache:9999");
    assert_eq!(c.mode, CacheMode::Auto);
}
