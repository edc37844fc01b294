//! Build metrics with millisecond times and a text summary.
use vstd::prelude::*;
use super::{wrap_u64, wrap_usize};
use crate::text::{decimal, fmt_u64, push_str, string_of};

verus! {

/// Counters of a build (times in milliseconds).
#[derive(Debug, Default, Clone, Copy)]
pub struct BuildMetrics {
    pub targets_total: usize,
    pub targets_built: usize,
    pub targets_skipped: usize,
    pub cache_hits: usize,
    pub cache_misses: usize,
    pub failures: usize,
    pub build_time_ms: u64,
    pub exec_time_ms: u64,
    pub cache_lookup_time_ms: u64,
    pub cache_store_time_ms: u64,
}

/// A copy of the counters at one moment.
#[derive(Debug, Clone, Copy, PartialEq, Eq, Structural)]
pub struct MetricsSnapshot {
    pub targets_total: usize,
    pub targets_built: usize,
    pub targets_skipped: usize,
    pub cache_hits: usize,
    pub cache_misses: usize,
    pub failures: usize,
    pub build_time_ms: u64,
    pub exec_time_ms: u64,
    pub cache_lookup_time_ms: u64,
    pub cache_store_time_ms: u64,
}

impl BuildMetrics {
    /// All counters zero.
    pub fn new() -> (m: Self)
        ensures
            m == (BuildMetrics {
                targets_total: 0,
                targets_built: 0,
                targets_skipped: 0,
                cache_hits: 0,
                cache_misses: 0,
                failures: 0,
                build_time_ms: 0,
                exec_time_ms: 0,
                cache_lookup_time_ms: 0,
                cache_store_time_ms: 0,
            }),
    {
        BuildMetrics {
            targets_total: 0,
            targets_built: 0,
            targets_skipped: 0,
            cache_hits: 0,
            cache_misses: 0,
            failures: 0,
            build_time_ms: 0,
            exec_time_ms: 0,
            cache_lookup_time_ms: 0,
            cache_store_time_ms: 0,
        }
    }

    /// Counts a built target that ran for `exec_time_ms`.
    pub fn record_target_built(&mut self, exec_time_ms: u64)
        ensures
            *final(self) == (BuildMetrics {
                targets_built: wrap_usize(old(self).targets_built, 1),
                exec_time_ms: wrap_u64(old(self).exec_time_ms, exec_time_ms),
                ..*old(self)
            }),
    {
        self.targets_built = self.targets_built.wrapping_add(1);
        self.exec_time_ms = self.exec_time_ms.wrapping_add(exec_time_ms);
    }

    /// Counts an up-to-date target.
    pub fn record_target_skipped(&mut self)
        ensures
            *final(self) == (BuildMetrics {
                targets_skipped: wrap_usize(old(self).targets_skipped, 1),
                ..*old(self)
            }),
    {
        self.targets_skipped = self.targets_skipped.wrapping_add(1);
    }

    /// Counts a cache hit whose lookup took `lookup_time_ms`.
    pub fn record_cache_hit(&mut self, lookup_time_ms: u64)
        ensures
            *final(self) == (BuildMetrics {
                cache_hits: wrap_usize(old(self).cache_hits, 1),
                cache_lookup_time_ms: wrap_u64(old(self).cache_lookup_time_ms, lookup_time_ms),
                ..*old(self)
            }),
    {
        self.cache_hits = self.cache_hits.wrapping_add(1);
        self.cache_lookup_time_ms = self.cache_lookup_time_ms.wrapping_add(lookup_time_ms);
    }

    /// Counts a cache miss whose lookup took `lookup_time_ms`.
    pub fn record_cache_miss(&mut self, lookup_time_ms: u64)
        ensures
            *final(self) == (BuildMetrics {
                cache_misses: wrap_usize(old(self).cache_misses, 1),
                cache_lookup_time_ms: wrap_u64(old(self).cache_lookup_time_ms, lookup_time_ms),
                ..*old(self)
            }),
    {
        self.cache_misses = self.cache_misses.wrapping_add(1);
        self.cache_lookup_time_ms = self.cache_lookup_time_ms.wrapping_add(lookup_time_ms);
    }

    /// Adds `store_time_ms` to the time spent storing into the cache.
    pub fn record_cache_store(&mut self, store_time_ms: u64)
        ensures
            *final(self) == (BuildMetrics {
                cache_store_time_ms: wrap_u64(old(self).cache_store_time_ms, store_time_ms),
                ..*old(self)
            }),
    {
        self.cache_store_time_ms = self.cache_store_time_ms.wrapping_add(store_time_ms);
    }

    /// Counts a failure.
    pub fn record_failure(&mut self)
        ensures
            *final(self) == (BuildMetrics { failures: wrap_usize(old(self).failures, 1), ..*old(self) }),
    {
        self.failures = self.failures.wrapping_add(1);
    }

    /// Sets the number of targets.
    pub fn set_total_targets(&mut self, count: usize)
        ensures
            *final(self) == (BuildMetrics { targets_total: count, ..*old(self) }),
    {
        self.targets_total = count;
    }

    /// Sets the build time.
    pub fn set_build_time(&mut self, build_time_ms: u64)
        ensures
            *final(self) == (BuildMetrics { build_time_ms, ..*old(self) }),
    {
        self.build_time_ms = build_time_ms;
    }

    /// A copy of the counters.
    pub fn snapshot(&self) -> (s: MetricsSnapshot)
        ensures
            s == (MetricsSnapshot {
                targets_total: self.targets_total,
                targets_built: self.targets_built,
                targets_skipped: self.targets_skipped,
                cache_hits: self.cache_hits,
                cache_misses: self.cache_misses,
                failures: self.failures,
                build_time_ms: self.build_time_ms,
                exec_time_ms: self.exec_time_ms,
                cache_lookup_time_ms: self.cache_lookup_time_ms,
                cache_store_time_ms: self.cache_store_time_ms,
            }),
    {
        MetricsSnapshot {
            targets_total: self.targets_total,
            targets_built: self.targets_built,
            targets_skipped: self.targets_skipped,
            cache_hits: self.cache_hits,
            cache_misses: self.cache_misses,
            failures: self.failures,
            build_time_ms: self.build_time_ms,
            exec_time_ms: self.exec_time_ms,
            cache_lookup_time_ms: self.cache_lookup_time_ms,
            cache_store_time_ms: self.cache_store_time_ms,
        }
    }
}

/// The summary of a snapshot, with the cache hit rate written as
/// `hit_rate` (the percentage with one decimal): the build time, the target
/// counts, the cache counts and times when the cache was used, and the
/// execution time, one per line.
pub open spec fn summary_text(s: MetricsSnapshot, hit_rate: Seq<char>) -> Seq<char> {
    "Build completed in "@ + decimal(s.build_time_ms as nat) + "ms\n"@ + "Targets: "@ + decimal(
        s.targets_total as nat,
    ) + " total, "@ + decimal(s.targets_built as nat) + " built, "@ + decimal(
        s.targets_skipped as nat,
    ) + " up-to-date, "@ + decimal(s.failures as nat) + " failed\n"@ + (if s.cache_hits > 0
        || s.cache_misses > 0 {
        "Cache: "@ + decimal(s.cache_hits as nat) + " hits, "@ + decimal(s.cache_misses as nat)
            + " misses ("@ + hit_rate + "% hit rate)\n"@ + "Cache time: "@ + decimal(
            s.cache_lookup_time_ms as nat,
        ) + "ms lookup, "@ + decimal(s.cache_store_time_ms as nat) + "ms store\n"@
    } else {
        Seq::empty()
    }) + "Execution time: "@ + decimal(s.exec_time_ms as nat) + "ms"@
}

fn push_num(v: &mut Vec<char>, n: u64)
    ensures
        final(v)@ == old(v)@ + decimal(n as nat),
{
    let t = fmt_u64(n);
    push_str(v, t.as_str());
}

impl MetricsSnapshot {
    /// The text summary of the snapshot; the cache hit rate, a percentage
    /// with one decimal, is given as text.
    pub fn summary(&self, hit_rate: &str) -> (r: String)
        ensures
            r@ == summary_text(*self, hit_rate@),
    {
        let mut v: Vec<char> = Vec::new();
        push_str(&mut v, "Build completed in ");
        push_num(&mut v, self.build_time_ms);
        push_str(&mut v, "ms\n");
        push_str(&mut v, "Targets: ");
        push_num(&mut v, self.targets_total as u64);
        push_str(&mut v, " total, ");
        push_num(&mut v, self.targets_built as u64);
        push_str(&mut v, " built, ");
        push_num(&mut v, self.targets_skipped as u64);
        push_str(&mut v, " up-to-date, ");
        push_num(&mut v, self.failures as u64);
        push_str(&mut v, " failed\n");
        let ghost mid = v@;
        if self.cache_hits > 0 || self.cache_misses > 0 {
            push_str(&mut v, "Cache: ");
            push_num(&mut v, self.cache_hits as u64);
            push_str(&mut v, " hits, ");
            push_num(&mut v, self.cache_misses as u64);
            push_str(&mut v, " misses (");
            push_str(&mut v, hit_rate);
            push_str(&mut v, "% hit rate)\n");
            push_str(&mut v, "Cache time: ");
            push_num(&mut v, self.cache_lookup_time_ms);
            push_str(&mut v, "ms lookup, ");
            push_num(&mut v, self.cache_store_time_ms);
            push_str(&mut v, "ms store\n");
        } else {
            assert(v@ =~= mid + Seq::<char>::empty());
        }
        push_str(&mut v, "Execution time: ");
        push_num(&mut v, self.exec_time_ms);
        push_str(&mut v, "ms");
        assert(v@ =~= summary_text(*self, hit_rate@));
        string_of(&v)
    }
}

#[verifier::external_type_specification]
#[verifier::external_body]
pub struct ExInstant(std::time::Instant);

/// The current instant of the monotonic clock; nothing is promised of it.
#[verifier::external_body]
pub(crate) fn instant_now() -> std::time::Instant {
    std::time::Instant::now()
}

/// Milliseconds elapsed since `start` (by `Instant::elapsed`), cut to 64
/// bits; it depends on the clock, so nothing is promised of it.
#[verifier::external_body]
pub(crate) fn millis_since(start: &std::time::Instant) -> u64 {
    start.elapsed().as_millis() as u64
}

/// The time elapsed since `start`; nothing is promised of it.
#[verifier::external_body]
fn elapsed_since(start: &std::time::Instant) -> std::time::Duration {
    start.elapsed()
}

/// A stopwatch.
#[derive(Debug)]
pub struct Timer {
    start: std::time::Instant,
}

impl Timer {
    /// A stopwatch started now.
    pub fn new() -> Self {
        Timer { start: instant_now() }
    }

    /// The time since the stopwatch was started.
    pub fn elapsed(&self) -> std::time::Duration {
        elapsed_since(&self.start)
    }
}

impl Default for Timer {
    fn default() -> Self {
        Timer::new()
    }
}

} // verus!
