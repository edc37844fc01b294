use rninja::admin::cache_gc::{
    age_of, bytes_to_free, eviction_order, find_orphans, scan_index_entries, EvictCandidate,
    EvictProgress, GcOptions, GcReport,
};
use rninja::admin::cache_health::{
    blob_check, directory_check, disk_space_check, index_check, overall_status, HealthCheck,
    HealthReport, HealthStatus, Severity,
};
use rninja::admin::cache_stats::{age_distribution, AgeDistribution};
use rninja::cache::entry::{CacheEntry, Timestamp};
use rninja::cache::hasher::{blob_hash_matches, hash_bytes};

fn entry_bytes(cmd: &str, hashes: &[&str], secs: u64) -> Vec<u8> {
    let e = CacheEntry {
        command: cmd.to_string(),
        outputs: hashes.iter().map(|h| (format!("out-{}", h), h.to_string())).collect(),
        created: Timestamp { secs, nanos: 0 },
    };
    e.serialize().unwrap()
}

#[test]
fn gc_options_default_is_all_off() {
    let o = GcOptions::default();
    assert!(!o.dry_run);
    assert_eq!(o.max_age_days, None);
    assert_eq!(o.max_size_bytes, None);
    assert!(!o.remove_orphans);
    let r = GcReport::new(true);
    assert_eq!(r.expired_entries, 0);
    assert!(r.dry_run);
    assert!(!GcReport::default().dry_run);
}

#[test]
fn gc_age_saturates_and_counts_nanos() {
    let now = Timestamp { secs: 10, nanos: 5 };
    assert_eq!(age_of(now, Timestamp { secs: 8, nanos: 10 }), 1_999_999_995);
    assert_eq!(age_of(now, Timestamp { secs: 11, nanos: 0 }), 0);
}

#[test]
fn gc_scan_splits_expired_and_referenced() {
    let day = 86400u64;
    let now = Timestamp { secs: 100 * day, nanos: 0 };
    let old = entry_bytes("old", &["h1"], 10 * day);
    let fresh = entry_bytes("new", &["h2", "h1", "h2"], 99 * day);
    let items = vec![
        (b"k1".to_vec(), old.clone()),
        (b"k2".to_vec(), fresh.clone()),
        (b"bad".to_vec(), vec![9u8, 9u8]),
    ];
    let scan = scan_index_entries(&items, now, Some(30));
    assert_eq!(scan.expired_keys, vec![b"k1".to_vec()]);
    assert_eq!(scan.expired_bytes, old.len() as u64);
    assert_eq!(scan.referenced, vec!["h2".to_string(), "h1".to_string()]);

    let all = scan_index_entries(&items, now, None);
    assert!(all.expired_keys.is_empty());
    assert_eq!(all.expired_bytes, 0);
    assert_eq!(all.referenced, vec!["h1".to_string(), "h2".to_string()]);

    let mut report = GcReport::new(false);
    report.record_expired(&scan);
    assert_eq!(report.expired_entries, 1);
    assert_eq!(report.expired_bytes, old.len() as u64);
}

#[test]
fn gc_exactly_max_age_is_kept() {
    let now = Timestamp { secs: 86400 * 2, nanos: 0 };
    let e = entry_bytes("c", &["h"], 86400);
    let scan = scan_index_entries(&vec![(b"k".to_vec(), e)], now, Some(1));
    assert!(scan.expired_keys.is_empty());
    assert_eq!(scan.referenced, vec!["h".to_string()]);
}

#[test]
fn gc_orphans_are_unreferenced_blobs() {
    let blobs = vec![("h1".to_string(), 10u64), ("h3".to_string(), 5), ("h4".to_string(), 7)];
    let refs = vec!["h1".to_string()];
    let o = find_orphans(&blobs, &refs);
    assert_eq!(o, vec![("h3".to_string(), 5), ("h4".to_string(), 7)]);
    let mut report = GcReport::new(false);
    report.record_orphans(&o);
    assert_eq!(report.orphan_blobs, 2);
    assert_eq!(report.orphan_bytes, 12);
}

#[test]
fn gc_eviction_oldest_first_until_enough() {
    assert_eq!(bytes_to_free(100, 60), Some(40));
    assert_eq!(bytes_to_free(60, 60), None);
    let c = vec![
        EvictCandidate { key: b"b".to_vec(), created: Timestamp { secs: 5, nanos: 0 }, size: 30 },
        EvictCandidate { key: b"a".to_vec(), created: Timestamp { secs: 1, nanos: 0 }, size: 20 },
        EvictCandidate { key: b"c".to_vec(), created: Timestamp { secs: 5, nanos: 0 }, size: 50 },
    ];
    let order = eviction_order(&c);
    let keys: Vec<&[u8]> = order.iter().map(|e| e.key.as_slice()).collect();
    assert_eq!(keys, vec![b"a".as_slice(), b"b".as_slice(), b"c".as_slice()]);

    let mut p = EvictProgress::new(40);
    for e in &order {
        if p.is_done() {
            break;
        }
        p.record(e.size, true);
    }
    assert_eq!((p.count, p.freed), (2, 50));
    let mut q = EvictProgress::new(10);
    q.record(30, false);
    assert_eq!((q.count, q.freed), (0, 0));
    let mut report = GcReport::new(false);
    report.record_evicted(&p);
    assert_eq!((report.evicted_entries, report.evicted_bytes), (2, 50));
}

fn check(passed: bool, severity: Severity) -> HealthCheck {
    HealthCheck { name: "n".to_string(), passed, message: "m".to_string(), severity }
}

#[test]
fn health_overall_status() {
    assert_eq!(overall_status(&vec![check(true, Severity::Critical)]), HealthStatus::Healthy);
    assert_eq!(
        overall_status(&vec![check(false, Severity::Warning), check(true, Severity::Info)]),
        HealthStatus::Degraded
    );
    assert_eq!(
        overall_status(&vec![check(false, Severity::Warning), check(false, Severity::Critical)]),
        HealthStatus::Critical
    );
    assert_eq!(overall_status(&vec![]), HealthStatus::Healthy);
}

#[test]
fn health_check_messages() {
    let d = directory_check("/c", false, None);
    assert!(!d.passed);
    assert_eq!(d.message, "Directory does not exist: /c");
    assert_eq!(d.severity, Severity::Critical);
    assert_eq!(directory_check("/c", true, None).message, "Directory accessible: /c");
    assert_eq!(directory_check("/c", true, Some("denied")).message, "Directory not writable: denied");

    assert_eq!(index_check(false, Ok(0)).message, "Database not initialized yet");
    assert_eq!(index_check(true, Ok(12)).message, "12 entries, no corruption detected");
    let e = index_check(true, Err("locked"));
    assert_eq!((e.passed, e.message.as_str()), (false, "Database error: locked"));

    assert_eq!(blob_check(false, 0, 0).message, "Blob store not initialized yet");
    assert_eq!(blob_check(true, 0, 0).message, "No blobs to verify");
    assert_eq!(blob_check(true, 4, 4).message, "4/4 sampled blobs verified");
    let b = blob_check(true, 10, 7);
    assert_eq!((b.passed, b.severity), (false, Severity::Warning));
    assert_eq!(b.message, "3/10 blobs failed verification");

    assert_eq!(disk_space_check(None).message, "Disk space available");
    let full = disk_space_check(Some((false, "No space left on device")));
    assert_eq!((full.passed, full.severity), (false, Severity::Critical));
    assert_eq!(full.message, "Low disk space: No space left on device");
    assert!(!disk_space_check(Some((true, "other"))).passed);
    assert!(!disk_space_check(Some((false, "quota exceeded"))).passed);
    let skipped = disk_space_check(Some((false, "permission denied")));
    assert_eq!((skipped.passed, skipped.message.as_str()), (true, "Disk space check skipped"));
}

#[test]
fn health_report_text() {
    let report = HealthReport::new(vec![
        HealthCheck { name: "a".to_string(), passed: true, message: "ok".to_string(), severity: Severity::Info },
        HealthCheck {
            name: "b".to_string(),
            passed: false,
            message: "bad".to_string(),
            severity: Severity::Warning,
        },
    ]);
    assert_eq!(report.overall_status, HealthStatus::Degraded);
    assert_eq!(
        report.to_text(),
        "Cache Health Check:\n  [PASS] a: ok\n  [FAIL] b: bad (warning)\n\nOverall: DEGRADED (1 issue(s))\n"
    );
    let healthy = HealthReport::new(vec![]);
    assert_eq!(healthy.to_text(), "Cache Health Check:\n\nOverall: HEALTHY\n");
}

#[test]
fn stats_age_buckets() {
    let now = Timestamp { secs: 1_000_000, nanos: 0 };
    let values = vec![
        entry_bytes("a", &[], 1_000_000 - 10),
        entry_bytes("b", &[], 1_000_000 - 3600),
        entry_bytes("c", &[], 1_000_000 - 86399),
        entry_bytes("d", &[], 1_000_000 - 604800),
        vec![0u8],
    ];
    let d = age_distribution(&values, now);
    assert_eq!(d.under_1h.count, 1);
    assert_eq!(d.under_1h.size_bytes, values[0].len() as u64);
    assert_eq!(d.under_1d.count, 2);
    assert_eq!(d.under_1w.count, 0);
    assert_eq!(d.over_1w.count, 1);
    let mut e = AgeDistribution::new();
    e.add(0, 5);
    assert_eq!((e.under_1h.count, e.under_1h.size_bytes), (1, 5));
}

#[test]
fn blob_hash_check_compares_name() {
    let h = hash_bytes(b"data");
    assert_eq!(h.len(), 64);
    assert!(h.chars().all(|c| c.is_ascii_hexdigit() && !c.is_ascii_uppercase()));
    assert!(blob_hash_matches(&h, b"data"));
    assert!(!blob_hash_matches(&h, b"other"));
    assert_ne!(hash_bytes(b"data"), hash_bytes(b"Data"));
}
