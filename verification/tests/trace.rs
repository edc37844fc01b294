use rninja::trace::{sort_pairs_desc, BuildTrace, TracePhase};

#[test]
fn test_trace_collection() {
    let mut trace = BuildTrace::new(true);
    let tid = trace.allocate_tid();

    trace.complete_target("foo.o", 0, 1000, tid, Some("gcc -c foo.c"), false);
    trace.complete_target("bar.o", 1000, 2000, tid, Some("gcc -c bar.c"), true);

    let stats = trace.stats();
    assert_eq!(stats.total_targets, 2);
    assert_eq!(stats.cache_hits, 1);
}

#[test]
fn test_slow_targets() {
    let mut trace = BuildTrace::new(true);
    let tid = trace.allocate_tid();

    trace.complete_target("fast.o", 0, 100_000, tid, None, false); // 100ms
    trace.complete_target("slow.o", 100_000, 5_000_000, tid, None, false); // 5s

    let slow = trace.slow_targets(1000); // > 1s
    assert_eq!(slow.len(), 1);
    assert_eq!(slow[0].0, "slow.o");
}

#[test]
fn trace_stats_at_exact_values() {
    let mut trace = BuildTrace::new(true);
    trace.complete_target("a", 0, 3000, 1, None, false);
    trace.complete_target("b", 0, 1000, 1, None, true);
    trace.begin_target_at("c", None, 1, 5);
    let s = trace.stats_at(8000);
    assert_eq!(s.total_targets, 2);
    assert_eq!(s.cache_hits, 1);
    assert_eq!(s.total_time_us, 4000);
    assert_eq!(s.avg_time_us, 2000);
    assert_eq!(s.max_time_us, 3000);
    assert_eq!(s.wall_time_us, 8000);
}

#[test]
fn trace_disabled_records_nothing() {
    let mut trace = BuildTrace::new(false);
    assert_eq!(trace.begin_target("x", None, 1), 0);
    trace.complete_target("x", 0, 10, 1, None, false);
    trace.add_metadata("k", "v");
    assert!(trace.export_events().is_none());
    let s = trace.stats_at(0);
    assert_eq!(s.total_targets, 0);
    assert_eq!(s.avg_time_us, 0);
}

#[test]
fn trace_allocate_tid_counts_up() {
    let mut trace = BuildTrace::new(true);
    assert_eq!(trace.allocate_tid(), 1);
    assert_eq!(trace.allocate_tid(), 2);
    assert_eq!(trace.allocate_tid(), 3);
}

#[test]
fn trace_export_starts_with_process_name() {
    let mut trace = BuildTrace::new(true);
    trace.complete_target("t", 7, 9, 2, Some("cc"), true);
    trace.end_target_at("t", 2, false, 20);
    let events = trace.export_events().unwrap();
    assert_eq!(events.len(), 3);
    assert_eq!(events[0].name, "process_name");
    assert_eq!(events[0].category, "__metadata");
    assert_eq!(events[0].phase.code(), "M");
    assert_eq!(events[0].args.get("name").unwrap(), "rninja");
    assert_eq!(events[1].phase.code(), "X");
    assert_eq!(events[1].duration_us, Some(9));
    assert_eq!(events[1].args.get("command").unwrap(), "cc");
    assert_eq!(events[1].args.get("cache").unwrap(), "hit");
    assert_eq!(events[2].phase.code(), "E");
    assert_eq!(events[2].timestamp_us, 20);
    assert!(events[2].args.is_empty());
    assert!(matches!(events[2].phase, TracePhase::End));
}

#[test]
fn trace_critical_path_longest_first_stable() {
    let mut trace = BuildTrace::new(true);
    trace.complete_target("a", 0, 5, 1, None, false);
    trace.complete_target("b", 0, 9, 1, None, false);
    trace.complete_target("c", 0, 5, 1, None, false);
    trace.instant_at("miss", "cache", 1, 3);
    let path = trace.critical_path();
    assert_eq!(path, vec!["b".to_string(), "a".to_string(), "c".to_string()]);
}

#[test]
fn trace_critical_path_keeps_ten() {
    let mut trace = BuildTrace::new(true);
    for i in 0..12u64 {
        trace.complete_target(&format!("t{}", i), 0, i, 1, None, false);
    }
    let path = trace.critical_path();
    assert_eq!(path.len(), 10);
    assert_eq!(path[0], "t11");
    assert_eq!(path[9], "t2");
}

#[test]
fn sort_pairs_desc_is_stable() {
    let v = vec![
        ("x".to_string(), 1u64),
        ("y".to_string(), 3),
        ("z".to_string(), 1),
        ("w".to_string(), 3),
    ];
    let s = sort_pairs_desc(&v);
    let names: Vec<&str> = s.iter().map(|p| p.0.as_str()).collect();
    assert_eq!(names, vec!["y", "w", "x", "z"]);
}

#[test]
fn slow_targets_truncate_to_millis_and_sort() {
    let mut trace = BuildTrace::new(true);
    trace.complete_target("a", 0, 2_500_999, 1, None, false);
    trace.complete_target("b", 0, 7_000_000, 1, None, false);
    trace.complete_target("c", 0, 2_000_000, 1, None, false);
    let slow = trace.slow_targets(2000);
    assert_eq!(slow, vec![("b".to_string(), 7000), ("a".to_string(), 2500)]);
}
