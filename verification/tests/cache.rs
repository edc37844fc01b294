use rninja::cache::config::{parse_size, try_parse_size, CacheConfig, CacheMode, PullPolicy, PushPolicy};
use rninja::cache::entry::{CacheEntry, Timestamp};
use rninja::cache::remote::client::{
    chunk_ranges, decide_retry, is_valid_cache_hash, next_backoff, validate_cache_hashes,
    generate_client_id, validate_config, ClientStats, ConnState, RemoteClientConfig, RetryDecision,
};
use rninja::cache::remote::error::RemoteCacheError;
use rninja::cache::remote::protocol::{ErrorCode, Response, WireCacheEntry};
use rninja::cache::schema::{check_schema_version, SchemaCheck, SchemaInfo, CURRENT_SCHEMA_VERSION};
use rninja::cache::{lookup_plan, CacheStats, LookupPlan, RemoteOutcome};

#[test]
fn config_test_parse_size() {
    assert_eq!(parse_size("1024"), Ok(1024));
    assert_eq!(parse_size("1K"), Ok(1024));
    assert_eq!(parse_size("1k"), Ok(1024));
    assert_eq!(parse_size("1M"), Ok(1024 * 1024));
    assert_eq!(parse_size("1G"), Ok(1024 * 1024 * 1024));
    assert_eq!(parse_size("500M"), Ok(500 * 1024 * 1024));
}

#[test]
fn server_config_test_parse_size() {
    assert_eq!(rninja::server::config::parse_size("1024"), Ok(1024));
    assert_eq!(rninja::server::config::parse_size("1K"), Ok(1024));
    assert_eq!(rninja::server::config::parse_size("1M"), Ok(1024 * 1024));
    assert_eq!(rninja::server::config::parse_size("1G"), Ok(1024 * 1024 * 1024));
}

#[test]
fn parse_size_edge_cases() {
    assert_eq!(parse_size(""), Err(()));
    assert_eq!(parse_size("  "), Err(()));
    assert_eq!(parse_size(" 2k "), Ok(2048));
    assert_eq!(parse_size("K"), Err(()));
    assert_eq!(parse_size("1.5G"), Err(()));
    assert_eq!(try_parse_size("99999999999999999999"), Some(Err(())));
    assert_eq!(try_parse_size("18446744073709551615K"), None);
    assert_eq!(try_parse_size("3"), Some(Ok(3)));
}

#[test]
fn cache_modes_and_policies() {
    assert_eq!(CacheMode::from_str("LOCAL"), Some(CacheMode::Local));
    assert_eq!(CacheMode::from_str("Auto"), Some(CacheMode::Auto));
    assert_eq!(CacheMode::from_str("nope"), None);
    assert_eq!(PushPolicy::from_str("OnSuccess"), Some(PushPolicy::OnSuccess));
    assert_eq!(PushPolicy::from_str("on_success"), Some(PushPolicy::OnSuccess));
    assert_eq!(PullPolicy::from_str("ON_MISS"), Some(PullPolicy::OnMiss));
    assert_eq!(PullPolicy::from_str("never"), Some(PullPolicy::Never));
    let c = CacheConfig::disabled();
    assert!(!c.enabled);
    assert!(!c.has_remote());
    let mut c = CacheConfig::default();
    c.remote.server_addr = "tcp://x:1".to_string();
    c.remote.token = "t".to_string();
    assert!(c.remote.is_configured());
    assert!(!c.has_remote());
    c.mode = CacheMode::Auto;
    assert!(c.has_remote());
}

#[test]
fn test_roundtrip() {
    let now = std::time::SystemTime::now()
        .duration_since(std::time::UNIX_EPOCH)
        .unwrap_or_default();
    let entry = CacheEntry {
        command: "gcc -c foo.c -o foo.o".to_string(),
        outputs: vec![
            ("foo.o".to_string(), "abc123".to_string()),
            ("foo.d".to_string(), "def456".to_string()),
        ],
        created: Timestamp { secs: now.as_secs(), nanos: now.subsec_nanos() },
    };

    let data = entry.serialize().unwrap();
    let restored = CacheEntry::deserialize(&data).unwrap();

    assert_eq!(entry.command, restored.command);
    assert_eq!(entry.outputs.len(), restored.outputs.len());
    for (i, (path, hash)) in entry.outputs.iter().enumerate() {
        assert_eq!(path, &restored.outputs[i].0);
        assert_eq!(hash, &restored.outputs[i].1);
    }
    assert_eq!(entry.created, restored.created);
}

#[test]
fn entry_bytes_and_errors() {
    let entry = CacheEntry {
        command: "ab".to_string(),
        outputs: vec![],
        created: Timestamp { secs: 1, nanos: 2 },
    };
    let data = entry.serialize().unwrap();
    assert_eq!(
        data,
        vec![1, 2, 0, 0, 0, b'a', b'b', 1, 0, 0, 0, 0, 0, 0, 0, 2, 0, 0, 0, 0, 0, 0, 0]
    );
    assert!(CacheEntry::deserialize(&[]).is_err());
    assert!(CacheEntry::deserialize(&[2]).is_err());
    assert!(CacheEntry::deserialize(&data[..10]).is_err());
    let mut extra = data.clone();
    extra.push(9);
    assert_eq!(CacheEntry::deserialize(&extra).unwrap().command, "ab");
}

#[test]
fn entry_times_the_clock_cannot_hold_are_refused() {
    let mut data = vec![1u8, 0, 0, 0, 0];
    data.extend_from_slice(&u64::MAX.to_le_bytes());
    data.extend_from_slice(&0u32.to_le_bytes());
    data.extend_from_slice(&0u32.to_le_bytes());
    assert!(CacheEntry::deserialize(&data).is_err());

    let mut edge = vec![1u8, 0, 0, 0, 0];
    edge.extend_from_slice(&(i64::MAX as u64).to_le_bytes());
    edge.extend_from_slice(&999_999_999u32.to_le_bytes());
    edge.extend_from_slice(&0u32.to_le_bytes());
    let e = CacheEntry::deserialize(&edge).unwrap();
    assert_eq!(e.created, Timestamp { secs: i64::MAX as u64, nanos: 999_999_999 });

    let mut over = vec![1u8, 0, 0, 0, 0];
    over.extend_from_slice(&(i64::MAX as u64).to_le_bytes());
    over.extend_from_slice(&1_000_000_000u32.to_le_bytes());
    over.extend_from_slice(&0u32.to_le_bytes());
    assert!(CacheEntry::deserialize(&over).is_err());

    let mut carried = vec![1u8, 0, 0, 0, 0];
    carried.extend_from_slice(&7u64.to_le_bytes());
    carried.extend_from_slice(&2_500_000_000u32.to_le_bytes());
    carried.extend_from_slice(&0u32.to_le_bytes());
    let c = CacheEntry::deserialize(&carried).unwrap();
    assert_eq!(c.created, Timestamp { secs: 9, nanos: 500_000_000 });
}

#[test]
fn test_retryable_errors() {
    assert!(RemoteCacheError::ConnectionTimeout(1000).is_retryable());
    assert!(RemoteCacheError::RequestTimeout(5000).is_retryable());
    assert!(RemoteCacheError::NetworkError("conn reset".into()).is_retryable());
    assert!(RemoteCacheError::RateLimited("too many requests".into()).is_retryable());

    assert!(!RemoteCacheError::AuthFailed("invalid token".into()).is_retryable());
    assert!(!RemoteCacheError::Shutdown.is_retryable());
}

#[test]
fn test_fatal_errors() {
    assert!(RemoteCacheError::AuthFailed("bad token".into()).is_fatal());
    assert!(RemoteCacheError::Shutdown.is_fatal());
    assert!(RemoteCacheError::ConfigError("missing server".into()).is_fatal());

    assert!(!RemoteCacheError::ConnectionTimeout(1000).is_fatal());
    assert!(!RemoteCacheError::NetworkError("temporary".into()).is_fatal());
}

#[test]
fn server_error_codes_and_messages() {
    let e = RemoteCacheError::ServerError { code: ErrorCode::ServerError, message: "x".into() };
    assert!(e.is_retryable());
    assert!(!e.is_fatal());
    assert_eq!(e.message(), "server error (ServerError): x");
    let e = RemoteCacheError::ServerError { code: ErrorCode::VersionMismatch, message: "v".into() };
    assert!(e.is_fatal());
    assert!(!e.is_retryable());
    assert_eq!(RemoteCacheError::ConnectionTimeout(7).message(), "connection timeout after 7ms");
}

#[test]
fn test_stats_recording() {
    let mut stats = ClientStats::default();

    stats.record_request(100, 200);
    assert_eq!(stats.requests_sent, 1);
    assert_eq!(stats.bytes_sent, 100);
    assert_eq!(stats.bytes_received, 200);

    stats.record_hit();
    stats.record_hit();
    stats.record_miss();
    assert_eq!(stats.cache_hits, 2);
    assert_eq!(stats.cache_misses, 1);

    stats.record_latency(1000);
    stats.record_latency(2000);
    assert_eq!(stats.avg_latency_us, 1500);
}

#[test]
fn test_config_validation() {
    let mut config = RemoteClientConfig::default();
    config.token = "test".into();
    assert!(validate_config(&config).is_err());
    let mut config = RemoteClientConfig::default();
    config.server_addr = "tcp://localhost:9999".into();
    assert!(validate_config(&config).is_err());
    config.token = "test".into();
    assert!(validate_config(&config).is_ok());
}

#[test]
fn client_decisions() {
    assert_eq!(decide_retry(true, 0, 3), RetryDecision::Retry);
    assert_eq!(decide_retry(true, 3, 3), RetryDecision::Fail);
    assert_eq!(decide_retry(false, 0, 3), RetryDecision::Fail);
    assert_eq!(next_backoff(100, 5000), 200);
    assert_eq!(next_backoff(4000, 5000), 5000);
    assert_eq!(chunk_ranges(10, 4), vec![(0, 4), (4, 8), (8, 10)]);
    assert_eq!(chunk_ranges(0, 4), vec![]);
    assert!(is_valid_cache_hash("0123456789abcdef0123456789ABCDEF"));
    assert!(!is_valid_cache_hash("0123456789abcdef"));
    assert!(!is_valid_cache_hash("0123456789abcdef0123456789abcdeg"));
    let hs = vec!["0123456789abcdef0123456789abcdef".to_string(), "bad".to_string()];
    assert_eq!(validate_cache_hashes(&hs), Some("bad".to_string()));
    assert_eq!(ConnState::Disconnected.transition(ConnState::Connecting), Ok(ConnState::Connecting));
    assert!(ConnState::Disconnected.transition(ConnState::Connected).is_err());
    assert!(ConnState::Connected.is_connected());
}

#[test]
fn protocol_helpers() {
    let w = WireCacheEntry::from_entry(
        "cc",
        &[("a.o".to_string(), "h".to_string())],
        Timestamp { secs: 5, nanos: 6 },
    );
    assert_eq!(w.to_outputs(), vec![("a.o".to_string(), "h".to_string())]);
    assert_eq!(w.created_time(), Timestamp { secs: 5, nanos: 6 });
    assert!(Response::error(ErrorCode::AuthFailed, "no".to_string()).is_error());
    assert!(!Response::NotFound.is_error());
}

#[test]
fn test_schema_version() {
    assert!(CURRENT_SCHEMA_VERSION >= 1);
}

#[test]
fn schema_checks() {
    let info = SchemaInfo::current();
    assert_eq!(info.version, CURRENT_SCHEMA_VERSION);
    assert_eq!(check_schema_version(1, false), SchemaCheck::Current);
    assert_eq!(check_schema_version(0, true), SchemaCheck::Migrate);
    assert_eq!(check_schema_version(0, false), SchemaCheck::MigrationRequired);
    assert_eq!(check_schema_version(2, true), SchemaCheck::TooNew);
}

#[test]
fn cache_stats_totals() {
    let s = CacheStats { hits: 2, remote_hits: 3, misses: 1, remote_misses: 4, ..Default::default() };
    assert_eq!(s.total_hits(), 5);
    assert_eq!(s.total_misses(), 5);
}

#[test]
fn test_client_id_generation() {
    let id1 = generate_client_id(Some("host"), 42, 1000);
    let id2 = generate_client_id(None, 42, 1000);

    assert!(id1.starts_with("rninja-"));
    assert!(id2.starts_with("rninja-"));
    // IDs differ with the time stamp
    let id3 = generate_client_id(Some("host"), 42, 1001);
    assert_ne!(id1, id3);
    assert_eq!(id1, "rninja-host-42-1000");
    assert_eq!(id2, "rninja-unknown-42-1000");
}

#[test]
fn lookup_plans_follow_mode_and_pull_policy() {
    assert_eq!(lookup_plan(CacheMode::Local, PullPolicy::Always, true), LookupPlan::Local);
    assert_eq!(lookup_plan(CacheMode::Remote, PullPolicy::Never, false), LookupPlan::Remote);
    assert_eq!(lookup_plan(CacheMode::Auto, PullPolicy::Always, true), LookupPlan::RemoteThenLocal);
    assert_eq!(lookup_plan(CacheMode::Auto, PullPolicy::Always, false), LookupPlan::Local);
    assert_eq!(lookup_plan(CacheMode::Auto, PullPolicy::Never, true), LookupPlan::Local);
}

#[test]
fn remote_outcomes_are_counted() {
    let mut s = CacheStats::default();
    s.record_remote(RemoteOutcome::Hit);
    s.record_remote(RemoteOutcome::Hit);
    s.record_remote(RemoteOutcome::Miss);
    s.record_remote(RemoteOutcome::Timeout);
    assert_eq!((s.remote_hits, s.remote_misses, s.remote_errors, s.remote_timeouts), (2, 1, 0, 1));
    assert_eq!(s.hits, 0);
}
