//! The build cache: entry format, configuration, schema, blob layout and
//! statistics.
pub mod entry;
pub mod remote;
pub mod config;
pub mod schema;
pub mod blob;
pub mod hasher;

use vstd::prelude::*;
use crate::cache::config::{CacheMode, PullPolicy};

verus! {

/// Counters of cache use.
#[derive(Debug, Default, Clone, Copy)]
pub struct CacheStats {
    pub hits: usize,
    pub misses: usize,
    pub stores: usize,
    pub errors: usize,
    pub remote_hits: usize,
    pub remote_misses: usize,
    pub remote_errors: usize,
    pub remote_timeouts: usize,
}

impl CacheStats {
    /// Local and remote hits together.
    pub fn total_hits(&self) -> (n: usize)
        requires
            self.hits + self.remote_hits <= usize::MAX,
        ensures
            n == self.hits + self.remote_hits,
    {
        self.hits + self.remote_hits
    }

    /// Local and remote misses together.
    pub fn total_misses(&self) -> (n: usize)
        requires
            self.misses + self.remote_misses <= usize::MAX,
        ensures
            n == self.misses + self.remote_misses,
    {
        self.misses + self.remote_misses
    }
}

/// Where a lookup of a cached result goes.
#[derive(Debug, Clone, Copy, PartialEq, Eq, Structural)]
pub enum LookupPlan {
    /// The local cache only.
    Local,
    /// The remote cache only; without a client it is a miss.
    Remote,
    /// The remote cache (with a short timeout), then the local cache unless
    /// the remote one had the result.
    RemoteThenLocal,
}

/// The plan of a lookup in `mode` with the pull policy `pull`, where
/// `remote_connected` tells whether a remote client exists and is
/// connected: the local mode looks locally, the remote mode remotely; the
/// automatic mode asks a connected remote first unless pulling is off.
pub fn lookup_plan(mode: CacheMode, pull: PullPolicy, remote_connected: bool) -> (p: LookupPlan)
    ensures
        p == match mode {
            CacheMode::Local => LookupPlan::Local,
            CacheMode::Remote => LookupPlan::Remote,
            CacheMode::Auto => if pull != PullPolicy::Never && remote_connected {
                LookupPlan::RemoteThenLocal
            } else {
                LookupPlan::Local
            },
        },
{
    match mode {
        CacheMode::Local => LookupPlan::Local,
        CacheMode::Remote => LookupPlan::Remote,
        CacheMode::Auto => {
            if pull == PullPolicy::Never {
                LookupPlan::Local
            } else if remote_connected {
                LookupPlan::RemoteThenLocal
            } else {
                LookupPlan::Local
            }
        },
    }
}

/// How a remote lookup ended.
#[derive(Debug, Clone, Copy, PartialEq, Eq, Structural)]
pub enum RemoteOutcome {
    Hit,
    Miss,
    Error,
    Timeout,
}

impl CacheStats {
    /// Counts a remote lookup by how it ended.
    pub fn record_remote(&mut self, outcome: RemoteOutcome)
        requires
            outcome == RemoteOutcome::Hit ==> old(self).remote_hits < usize::MAX,
            outcome == RemoteOutcome::Miss ==> old(self).remote_misses < usize::MAX,
            outcome == RemoteOutcome::Error ==> old(self).remote_errors < usize::MAX,
            outcome == RemoteOutcome::Timeout ==> old(self).remote_timeouts < usize::MAX,
        ensures
            *final(self) == match outcome {
                RemoteOutcome::Hit => CacheStats { remote_hits: (old(self).remote_hits + 1) as usize, ..*old(self) },
                RemoteOutcome::Miss => CacheStats {
                    remote_misses: (old(self).remote_misses + 1) as usize,
                    ..*old(self)
                },
                RemoteOutcome::Error => CacheStats {
                    remote_errors: (old(self).remote_errors + 1) as usize,
                    ..*old(self)
                },
                RemoteOutcome::Timeout => CacheStats {
                    remote_timeouts: (old(self).remote_timeouts + 1) as usize,
                    ..*old(self)
                },
            },
    {
        match outcome {
            RemoteOutcome::Hit => self.remote_hits = self.remote_hits + 1,
            RemoteOutcome::Miss => self.remote_misses = self.remote_misses + 1,
            RemoteOutcome::Error => self.remote_errors = self.remote_errors + 1,
            RemoteOutcome::Timeout => self.remote_timeouts = self.remote_timeouts + 1,
        }
    }
}

/// What a garbage collection removed.
#[derive(Debug, Default, Clone, Copy)]
pub struct GcStats {
    pub entries_removed: usize,
    pub blobs_removed: usize,
    pub bytes_freed: u64,
}

} // verus!
