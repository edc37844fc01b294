//! Build metrics collection and their Prometheus export.
//!
//! Counters wrap around as the atomic counters of a concurrent build do;
//! times are in microseconds.  Rates that need floating point are computed
//! by the program.
pub mod basic;
pub mod prometheus;

use vstd::prelude::*;

verus! {

/// `x + y`, wrapping around at the size of `usize`.
pub open spec fn wrap_usize(x: usize, y: usize) -> usize {
    vstd::wrapping::usize_specs::wrapping_add(x, y)
}

/// `x + y`, wrapping around at 2^64.
pub open spec fn wrap_u64(x: u64, y: u64) -> u64 {
    vstd::wrapping::u64_specs::wrapping_add(x, y)
}

/// Counters of a build.
#[derive(Debug, Default, Clone, Copy)]
pub struct BuildMetrics {
    pub targets_total: usize,
    pub targets_built: usize,
    pub targets_skipped: usize,
    pub targets_failed: usize,
    pub cache_hits: usize,
    pub cache_misses: usize,
    pub cache_errors: usize,
    pub remote_hits: usize,
    pub remote_misses: usize,
    pub remote_errors: usize,
    pub build_time_us: u64,
    pub exec_time_us: u64,
    pub cache_lookup_time_us: u64,
    pub cache_store_time_us: u64,
    pub max_queue_depth: usize,
}

/// A copy of the counters at one moment.
#[derive(Debug, Clone, Copy, PartialEq, Eq, Structural)]
pub struct MetricsSnapshot {
    pub targets_total: usize,
    pub targets_built: usize,
    pub targets_skipped: usize,
    pub targets_failed: usize,
    pub cache_hits: usize,
    pub cache_misses: usize,
    pub cache_errors: usize,
    pub remote_hits: usize,
    pub remote_misses: usize,
    pub remote_errors: usize,
    pub build_time_us: u64,
    pub exec_time_us: u64,
    pub cache_lookup_time_us: u64,
    pub cache_store_time_us: u64,
    pub max_queue_depth: usize,
}

/// All counters zero.
pub open spec fn zero_metrics() -> BuildMetrics {
    BuildMetrics {
        targets_total: 0,
        targets_built: 0,
        targets_skipped: 0,
        targets_failed: 0,
        cache_hits: 0,
        cache_misses: 0,
        cache_errors: 0,
        remote_hits: 0,
        remote_misses: 0,
        remote_errors: 0,
        build_time_us: 0,
        exec_time_us: 0,
        cache_lookup_time_us: 0,
        cache_store_time_us: 0,
        max_queue_depth: 0,
    }
}

impl BuildMetrics {
    /// All counters zero.
    pub fn new() -> (m: Self)
        ensures
            m == zero_metrics(),
    {
        BuildMetrics {
            targets_total: 0,
            targets_built: 0,
            targets_skipped: 0,
            targets_failed: 0,
            cache_hits: 0,
            cache_misses: 0,
            cache_errors: 0,
            remote_hits: 0,
            remote_misses: 0,
            remote_errors: 0,
            build_time_us: 0,
            exec_time_us: 0,
            cache_lookup_time_us: 0,
            cache_store_time_us: 0,
            max_queue_depth: 0,
        }
    }

    /// Counts a built target that ran for `exec_time_us`.
    pub fn record_target_built(&mut self, exec_time_us: u64)
        ensures
            *final(self) == (BuildMetrics {
                targets_built: wrap_usize(old(self).targets_built, 1),
                exec_time_us: wrap_u64(old(self).exec_time_us, exec_time_us),
                ..*old(self)
            }),
    {
        self.targets_built = self.targets_built.wrapping_add(1);
        self.exec_time_us = self.exec_time_us.wrapping_add(exec_time_us);
    }

    /// Counts an up-to-date target.
    pub fn record_target_skipped(&mut self)
        ensures
            *final(self) == (BuildMetrics {
                targets_skipped: wrap_usize(old(self).targets_skipped, 1),
                ..*old(self)
            }),
    {
        self.targets_skipped = self.targets_skipped.wrapping_add(1);
    }

    /// Counts a failed target.
    pub fn record_target_failed(&mut self)
        ensures
            *final(self) == (BuildMetrics {
                targets_failed: wrap_usize(old(self).targets_failed, 1),
                ..*old(self)
            }),
    {
        self.targets_failed = self.targets_failed.wrapping_add(1);
    }

    /// Counts a cache hit whose lookup took `lookup_time_us`.
    pub fn record_cache_hit(&mut self, lookup_time_us: u64)
        ensures
            *final(self) == (BuildMetrics {
                cache_hits: wrap_usize(old(self).cache_hits, 1),
                cache_lookup_time_us: wrap_u64(old(self).cache_lookup_time_us, lookup_time_us),
                ..*old(self)
            }),
    {
        self.cache_hits = self.cache_hits.wrapping_add(1);
        self.cache_lookup_time_us = self.cache_lookup_time_us.wrapping_add(lookup_time_us);
    }

    /// Counts a cache miss whose lookup took `lookup_time_us`.
    pub fn record_cache_miss(&mut self, lookup_time_us: u64)
        ensures
            *final(self) == (BuildMetrics {
                cache_misses: wrap_usize(old(self).cache_misses, 1),
                cache_lookup_time_us: wrap_u64(old(self).cache_lookup_time_us, lookup_time_us),
                ..*old(self)
            }),
    {
        self.cache_misses = self.cache_misses.wrapping_add(1);
        self.cache_lookup_time_us = self.cache_lookup_time_us.wrapping_add(lookup_time_us);
    }

    /// Adds `store_time_us` to the time spent storing into the cache.
    pub fn record_cache_store(&mut self, store_time_us: u64)
        ensures
            *final(self) == (BuildMetrics {
                cache_store_time_us: wrap_u64(old(self).cache_store_time_us, store_time_us),
                ..*old(self)
            }),
    {
        self.cache_store_time_us = self.cache_store_time_us.wrapping_add(store_time_us);
    }

    /// Notes a queue depth, keeping the largest seen.
    pub fn record_queue_depth(&mut self, depth: usize)
        ensures
            *final(self) == (BuildMetrics {
                max_queue_depth: if depth > old(self).max_queue_depth {
                    depth
                } else {
                    old(self).max_queue_depth
                },
                ..*old(self)
            }),
    {
        if depth > self.max_queue_depth {
            self.max_queue_depth = depth;
        }
    }

    /// Sets the number of targets.
    pub fn set_total_targets(&mut self, count: usize)
        ensures
            *final(self) == (BuildMetrics { targets_total: count, ..*old(self) }),
    {
        self.targets_total = count;
    }

    /// Sets the build time.
    pub fn set_build_time(&mut self, build_time_us: u64)
        ensures
            *final(self) == (BuildMetrics { build_time_us, ..*old(self) }),
    {
        self.build_time_us = build_time_us;
    }

    /// A copy of the counters.
    pub fn snapshot(&self) -> (s: MetricsSnapshot)
        ensures
            s == (MetricsSnapshot {
                targets_total: self.targets_total,
                targets_built: self.targets_built,
                targets_skipped: self.targets_skipped,
                targets_failed: self.targets_failed,
                cache_hits: self.cache_hits,
                cache_misses: self.cache_misses,
                cache_errors: self.cache_errors,
                remote_hits: self.remote_hits,
                remote_misses: self.remote_misses,
                remote_errors: self.remote_errors,
                build_time_us: self.build_time_us,
                exec_time_us: self.exec_time_us,
                cache_lookup_time_us: self.cache_lookup_time_us,
                cache_store_time_us: self.cache_store_time_us,
                max_queue_depth: self.max_queue_depth,
            }),
    {
        MetricsSnapshot {
            targets_total: self.targets_total,
            targets_built: self.targets_built,
            targets_skipped: self.targets_skipped,
            targets_failed: self.targets_failed,
            cache_hits: self.cache_hits,
            cache_misses: self.cache_misses,
            cache_errors: self.cache_errors,
            remote_hits: self.remote_hits,
            remote_misses: self.remote_misses,
            remote_errors: self.remote_errors,
            build_time_us: self.build_time_us,
            exec_time_us: self.exec_time_us,
            cache_lookup_time_us: self.cache_lookup_time_us,
            cache_store_time_us: self.cache_store_time_us,
            max_queue_depth: self.max_queue_depth,
        }
    }
}

} // verus!
