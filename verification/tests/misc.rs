use rninja::buildlog::{hash_command, quick_uptodate_check, uptodate_paths, BuildLog, MtimeCache};
use rninja::config::Config;
use rninja::daemon::protocol::{generate_session_id, BuildRequest};
use rninja::daemon::watcher::{WatchEvent, WatcherProcessor};
use rninja::executor::depfile::parse_content;
use rninja::graph::Graph;
use rninja::metrics::basic;
use rninja::metrics::prometheus::export_prometheus;
use rninja::metrics::{BuildMetrics, MetricsSnapshot};
use rninja::parser::parse;

#[test]
fn test_hash_command() {
    let h1 = hash_command("gcc -c foo.c -o foo.o");
    let h2 = hash_command("gcc -c foo.c -o foo.o");
    let h3 = hash_command("gcc -c bar.c -o bar.o");

    assert_eq!(h1, h2);
    assert_ne!(h1, h3);
}

#[test]
fn test_build_log_roundtrip() {
    let text = {
        let mut log = BuildLog::open("dir", None);
        log.record("output.o", 12345, 1000, 2000, Some(77));
        assert!(log.needs_save(true));
        log.to_text()
    };
    let lines: Vec<Option<String>> = text.lines().map(|l| Some(l.to_string())).collect();
    let log = BuildLog::open("dir", Some(lines));
    assert_eq!(log.get_command_hash("output.o"), Some(12345));
    assert_eq!(log.get_mtime("output.o"), Some(77));
    assert!(!log.needs_save(true));
    assert_eq!(log.path(), "dir/.ninja_log");
}

#[test]
fn build_log_parsing() {
    let lines = vec![
        Some("# ninja log v5".to_string()),
        Some("1\t2\t3\ta.o\t4".to_string()),
        Some("bad line".to_string()),
        None,
        Some("5\t6\t7\ta.o\t8".to_string()),
    ];
    let log = BuildLog::open("d", Some(lines));
    assert_eq!(log.entries(), vec!["a.o"]);
    assert_eq!(log.get_mtime("a.o"), Some(7));
    assert!(!log.needs_rebuild("a.o", 8, Some(7)));
    assert!(log.needs_rebuild("a.o", 9, Some(7)));
    assert!(log.needs_rebuild("a.o", 8, Some(6)));
    assert!(log.needs_rebuild("a.o", 8, None));
    assert!(log.needs_rebuild("b.o", 8, Some(7)));
    let bad = BuildLog::open("d", Some(vec![Some("not a header".to_string()), Some("1\t2\t3\tx\t4".to_string())]));
    assert_eq!(bad.get_mtime("x"), None);
}

#[test]
fn mtime_cache_and_uptodate() {
    let content = "rule cc\n  command = cc\nbuild out: cc in\n";
    let graph = Graph::from_manifest(&parse(content).unwrap()).unwrap();
    let paths = uptodate_paths(&graph, &["out"]);
    assert_eq!(paths, vec!["out", "in"]);
    let mut cache = MtimeCache::new();
    assert_eq!(cache.prefetch(&paths), vec!["out", "in"]);
    cache.insert("out".to_string(), Some(10));
    cache.insert("in".to_string(), Some(5));
    assert_eq!(cache.get("out"), Some(Some(10)));
    let log = BuildLog::open("d", None);
    assert!(quick_uptodate_check(&graph, &["out"], &log, &cache));
    cache.insert("in".to_string(), Some(11));
    assert!(!quick_uptodate_check(&graph, &["out"], &log, &cache));
    cache.insert("out".to_string(), Some(12));
    cache.invalidate("out");
    assert_eq!(cache.get("out"), None);
    assert_eq!(cache.get("in"), Some(Some(11)));
    assert_eq!(cache.prefetch(&paths), vec!["out"]);
    assert!(!quick_uptodate_check(&graph, &["out"], &log, &cache));
    assert!(!quick_uptodate_check(&graph, &["nothing"], &log, &cache));
}

#[test]
fn test_simple_depfile() {
    let content = "foo.o: foo.c foo.h bar.h";
    let result = parse_content(content).unwrap();
    assert_eq!(result.target, "foo.o");
    assert!(result.deps.iter().any(|d| d == "foo.c"));
    assert!(result.deps.iter().any(|d| d == "foo.h"));
    assert!(result.deps.iter().any(|d| d == "bar.h"));
}

#[test]
fn test_multiline_depfile() {
    let content = "foo.o: foo.c \\\n  foo.h \\\n  bar.h";
    let result = parse_content(content).unwrap();
    assert_eq!(result.target, "foo.o");
    assert_eq!(result.deps.len(), 3);
}

#[test]
fn test_escaped_spaces() {
    let content = r"foo.o: path\ with\ spaces.c";
    let result = parse_content(content).unwrap();
    assert!(result.deps.iter().any(|d| d == "path with spaces.c"));
}

#[test]
fn depfile_edge_cases() {
    assert!(parse_content("no colon here").is_err());
    let r = parse_content("t: a a b\\").unwrap();
    assert_eq!(r.deps, vec!["a", "b"]);
    let r = parse_content("t: x\\y \\#z").unwrap();
    assert_eq!(r.deps, vec!["x\\y", "#z"]);
}

fn sample_snapshot() -> MetricsSnapshot {
    MetricsSnapshot {
        targets_total: 100,
        targets_built: 50,
        targets_skipped: 45,
        targets_failed: 5,
        cache_hits: 40,
        cache_misses: 10,
        cache_errors: 0,
        remote_hits: 5,
        remote_misses: 35,
        remote_errors: 0,
        build_time_us: 5_000_000,
        exec_time_us: 4_000_000,
        cache_lookup_time_us: 100_000,
        cache_store_time_us: 200_000,
        max_queue_depth: 8,
    }
}

#[test]
fn test_prometheus_export() {
    let snapshot = sample_snapshot();
    let total = snapshot.cache_hits + snapshot.cache_misses;
    let rate = if total == 0 { 0.0 } else { snapshot.cache_hits as f64 / total as f64 };
    let output = export_prometheus(
        &snapshot,
        &format!("{:.4}", rate),
        &format!("{:.6}", snapshot.build_time_us as f64 / 1_000_000.0),
        &format!("{:.6}", snapshot.exec_time_us as f64 / 1_000_000.0),
        &format!("{:.6}", snapshot.cache_lookup_time_us as f64 / 1_000_000.0),
    );

    assert!(output.contains("rninja_targets_total 100"));
    assert!(output.contains("rninja_cache_operations_total{result=\"hit\"} 40"));
    assert!(output.contains("rninja_cache_hit_rate 0.8"));
    assert!(output.contains("rninja_build_duration_seconds 5.0"));
}

#[test]
fn metrics_recording() {
    let mut m = BuildMetrics::new();
    m.record_target_built(10);
    m.record_target_built(5);
    m.record_target_skipped();
    m.record_target_failed();
    m.record_cache_hit(3);
    m.record_cache_miss(4);
    m.record_cache_store(9);
    m.record_queue_depth(4);
    m.record_queue_depth(2);
    m.set_total_targets(7);
    m.set_build_time(99);
    let s = m.snapshot();
    assert_eq!(s.targets_built, 2);
    assert_eq!(s.exec_time_us, 15);
    assert_eq!(s.cache_lookup_time_us, 7);
    assert_eq!(s.cache_store_time_us, 9);
    assert_eq!(s.max_queue_depth, 4);
    assert_eq!(s.targets_total, 7);
    assert_eq!(s.build_time_us, 99);
}

#[test]
fn basic_metrics_summary() {
    let mut m = basic::BuildMetrics::new();
    m.record_target_built(12);
    m.record_failure();
    m.set_build_time(30);
    let s = m.snapshot();
    assert_eq!(
        s.summary("0.0"),
        "Build completed in 30ms\nTargets: 0 total, 1 built, 0 up-to-date, 1 failed\nExecution time: 12ms"
    );
    m.record_cache_hit(1);
    let s = m.snapshot();
    assert_eq!(
        s.summary("100.0"),
        "Build completed in 30ms\nTargets: 0 total, 1 built, 0 up-to-date, 1 failed\nCache: 1 hits, 0 misses (100.0% hit rate)\nCache time: 1ms lookup, 0ms store\nExecution time: 12ms"
    );
}

#[test]
fn test_build_request() {
    let req = BuildRequest::new(generate_session_id(), "/home/user/project".to_string());
    assert_eq!(req.build_file, "build.ninja");
    assert!(!req.dry_run);
    assert!(req.parallelism >= 1);
}

#[test]
fn watcher_events() {
    let p = WatcherProcessor::new();
    let evs = vec![
        WatchEvent::Modified("a".to_string()),
        WatchEvent::Error("x".to_string()),
        WatchEvent::Created("b".to_string()),
        WatchEvent::Deleted("c".to_string()),
    ];
    assert_eq!(p.process_events(evs), vec!["a", "b", "c"]);
}

#[test]
fn config_paths() {
    assert_eq!(
        Config::config_paths(Some("/home/u"), Some("/home/u/.config")),
        vec!["./.rninjarc".trim_start_matches("./"), "/home/u/.rninjarc", "/home/u/.config/rninja/config.toml"]
    );
    assert_eq!(Config::config_paths(None, None), vec![".rninjarc"]);
    assert_eq!(Config::default_config_path(None), None);
}

#[test]
fn strmap_read_after_write() {
    let mut m: rninja::strmap::StrMap<usize> = rninja::strmap::StrMap::new();
    m.insert("a".to_string(), 1);
    m.insert("b".to_string(), 2);
    m.insert("a".to_string(), 3);
    assert_eq!(m.len(), 2);
    assert_eq!(m.get("a"), Some(&3));
    assert_eq!(m.get("b"), Some(&2));
    assert_eq!(m.remove("a"), Some(3));
    assert_eq!(m.get("a"), None);
    assert_eq!(m.get("b"), Some(&2));
    assert_eq!(m.key_at(0), "b");
}

#[test]
fn session_ids_are_random_uuids() {
    let id = generate_session_id();
    let c: Vec<char> = id.chars().collect();
    assert_eq!(c.len(), 36);
    for (i, ch) in c.iter().enumerate() {
        if i == 8 || i == 13 || i == 18 || i == 23 {
            assert_eq!(*ch, '-');
        } else {
            assert!(ch.is_ascii_digit() || ('a'..='f').contains(ch));
        }
    }
    assert_eq!(c[14], '4');
    assert!(['8', '9', 'a', 'b'].contains(&c[19]));
    assert_ne!(generate_session_id(), id);
}

#[test]
fn mtime_cache_reads_each_path_once() {
    let mut cache = MtimeCache::new();
    assert_eq!(cache.remember("f".to_string(), Some(7)), Some(7));
    assert_eq!(cache.remember("f".to_string(), Some(9)), Some(7));
    assert_eq!(cache.remember("g".to_string(), None), None);
    assert_eq!(cache.remember("g".to_string(), Some(3)), None);
    cache.invalidate("f");
    assert_eq!(cache.remember("f".to_string(), Some(9)), Some(9));
    assert_eq!(cache.get("g"), Some(None));
}
