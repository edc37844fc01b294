//! Prometheus text exposition of the build metrics.
use vstd::prelude::*;
use super::MetricsSnapshot;
use crate::text::{decimal, fmt_u64, push_str, string_of};

verus! {

/// The Prometheus text of a snapshot.  The numbers that need floating
/// point are given as text: the cache hit rate (0 to 1, four decimals) and
/// the build, execution and cache lookup times in seconds (six decimals).
pub open spec fn prometheus_text(
    s: MetricsSnapshot,
    hit_rate: Seq<char>,
    build_secs: Seq<char>,
    exec_secs: Seq<char>,
    lookup_secs: Seq<char>,
) -> Seq<char> {
    "# HELP rninja_targets_total Total number of targets\n"@
        + "# TYPE rninja_targets_total gauge\n"@
        + "rninja_targets_total "@ + decimal(s.targets_total as nat) + "\n"@
        + "# HELP rninja_targets_built Number of targets built\n"@
        + "# TYPE rninja_targets_built counter\n"@
        + "rninja_targets_built{status=\"success\"} "@ + decimal(s.targets_built as nat) + "\n"@
        + "rninja_targets_built{status=\"skipped\"} "@ + decimal(s.targets_skipped as nat) + "\n"@
        + "rninja_targets_built{status=\"failed\"} "@ + decimal(s.targets_failed as nat) + "\n"@
        + "# HELP rninja_cache_operations_total Cache operations\n"@
        + "# TYPE rninja_cache_operations_total counter\n"@
        + "rninja_cache_operations_total{result=\"hit\"} "@ + decimal(s.cache_hits as nat) + "\n"@
        + "rninja_cache_operations_total{result=\"miss\"} "@ + decimal(s.cache_misses as nat)
        + "\n"@
        + "rninja_cache_operations_total{result=\"error\"} "@ + decimal(s.cache_errors as nat)
        + "\n"@
        + "# HELP rninja_cache_hit_rate Cache hit rate (0-1)\n"@
        + "# TYPE rninja_cache_hit_rate gauge\n"@
        + "rninja_cache_hit_rate "@ + hit_rate + "\n"@
        + "# HELP rninja_remote_cache_operations_total Remote cache operations\n"@
        + "# TYPE rninja_remote_cache_operations_total counter\n"@
        + "rninja_remote_cache_operations_total{result=\"hit\"} "@ + decimal(s.remote_hits as nat)
        + "\n"@
        + "rninja_remote_cache_operations_total{result=\"miss\"} "@ + decimal(
        s.remote_misses as nat,
    ) + "\n"@
        + "rninja_remote_cache_operations_total{result=\"error\"} "@ + decimal(
        s.remote_errors as nat,
    ) + "\n"@
        + "# HELP rninja_build_duration_seconds Total build duration\n"@
        + "# TYPE rninja_build_duration_seconds gauge\n"@
        + "rninja_build_duration_seconds "@ + build_secs + "\n"@
        + "# HELP rninja_exec_duration_seconds Total command execution time\n"@
        + "# TYPE rninja_exec_duration_seconds counter\n"@
        + "rninja_exec_duration_seconds "@ + exec_secs + "\n"@
        + "# HELP rninja_cache_lookup_duration_seconds Cache lookup time\n"@
        + "# TYPE rninja_cache_lookup_duration_seconds counter\n"@
        + "rninja_cache_lookup_duration_seconds "@ + lookup_secs + "\n"@
        + "# HELP rninja_max_queue_depth Maximum queue depth during build\n"@
        + "# TYPE rninja_max_queue_depth gauge\n"@
        + "rninja_max_queue_depth "@ + decimal(s.max_queue_depth as nat) + "\n"@
}

fn push_line(v: &mut Vec<char>, head: &str, n: u64)
    ensures
        final(v)@ == old(v)@ + head@ + decimal(n as nat) + "\n"@,
{
    push_str(v, head);
    let t = fmt_u64(n);
    push_str(v, t.as_str());
    push_str(v, "\n");
    assert(final(v)@ =~= old(v)@ + head@ + decimal(n as nat) + "\n"@);
}

fn push_text_line(v: &mut Vec<char>, head: &str, t: &str)
    ensures
        final(v)@ == old(v)@ + head@ + t@ + "\n"@,
{
    push_str(v, head);
    push_str(v, t);
    push_str(v, "\n");
    assert(final(v)@ =~= old(v)@ + head@ + t@ + "\n"@);
}

/// Exports a snapshot in the Prometheus text format; the numbers that
/// need floating point come as text (see `prometheus_text`).
pub fn export_prometheus(
    snapshot: &MetricsSnapshot,
    hit_rate: &str,
    build_secs: &str,
    exec_secs: &str,
    lookup_secs: &str,
) -> (r: String)
    ensures
        r@ == prometheus_text(*snapshot, hit_rate@, build_secs@, exec_secs@, lookup_secs@),
{
    let mut v: Vec<char> = Vec::new();
    push_str(&mut v, "# HELP rninja_targets_total Total number of targets\n");
    push_str(&mut v, "# TYPE rninja_targets_total gauge\n");
    push_line(&mut v, "rninja_targets_total ", snapshot.targets_total as u64);
    push_str(&mut v, "# HELP rninja_targets_built Number of targets built\n");
    push_str(&mut v, "# TYPE rninja_targets_built counter\n");
    push_line(&mut v, "rninja_targets_built{status=\"success\"} ", snapshot.targets_built as u64);
    push_line(&mut v, "rninja_targets_built{status=\"skipped\"} ", snapshot.targets_skipped as u64);
    push_line(&mut v, "rninja_targets_built{status=\"failed\"} ", snapshot.targets_failed as u64);
    push_str(&mut v, "# HELP rninja_cache_operations_total Cache operations\n");
    push_str(&mut v, "# TYPE rninja_cache_operations_total counter\n");
    push_line(&mut v, "rninja_cache_operations_total{result=\"hit\"} ", snapshot.cache_hits as u64);
    push_line(&mut v, "rninja_cache_operations_total{result=\"miss\"} ", snapshot.cache_misses as u64);
    push_line(&mut v, "rninja_cache_operations_total{result=\"error\"} ", snapshot.cache_errors as u64);
    push_str(&mut v, "# HELP rninja_cache_hit_rate Cache hit rate (0-1)\n");
    push_str(&mut v, "# TYPE rninja_cache_hit_rate gauge\n");
    push_text_line(&mut v, "rninja_cache_hit_rate ", hit_rate);
    push_str(&mut v, "# HELP rninja_remote_cache_operations_total Remote cache operations\n");
    push_str(&mut v, "# TYPE rninja_remote_cache_operations_total counter\n");
    push_line(&mut v, "rninja_remote_cache_operations_total{result=\"hit\"} ", snapshot.remote_hits as u64);
    push_line(&mut v, "rninja_remote_cache_operations_total{result=\"miss\"} ", snapshot.remote_misses as u64);
    push_line(&mut v, "rninja_remote_cache_operations_total{result=\"error\"} ", snapshot.remote_errors as u64);
    push_str(&mut v, "# HELP rninja_build_duration_seconds Total build duration\n");
    push_str(&mut v, "# TYPE rninja_build_duration_seconds gauge\n");
    push_text_line(&mut v, "rninja_build_duration_seconds ", build_secs);
    push_str(&mut v, "# HELP rninja_exec_duration_seconds Total command execution time\n");
    push_str(&mut v, "# TYPE rninja_exec_duration_seconds counter\n");
    push_text_line(&mut v, "rninja_exec_duration_seconds ", exec_secs);
    push_str(&mut v, "# HELP rninja_cache_lookup_duration_seconds Cache lookup time\n");
    push_str(&mut v, "# TYPE rninja_cache_lookup_duration_seconds counter\n");
    push_text_line(&mut v, "rninja_cache_lookup_duration_seconds ", lookup_secs);
    push_str(&mut v, "# HELP rninja_max_queue_depth Maximum queue depth during build\n");
    push_str(&mut v, "# TYPE rninja_max_queue_depth gauge\n");
    push_line(&mut v, "rninja_max_queue_depth ", snapshot.max_queue_depth as u64);
    assert(v@ =~= prometheus_text(*snapshot, hit_rate@, build_secs@, exec_secs@, lookup_secs@));
    string_of(&v)
}

} // verus!
