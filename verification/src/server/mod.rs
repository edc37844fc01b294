//! The cache server: its configuration, authentication, statistics and the
//! decisions it takes on each request.
pub mod handler;
pub mod auth;
pub mod config;

use vstd::prelude::*;

verus! {

/// Counters of the cache server.  Each wraps around at 2^64.
#[derive(Debug, Default)]
pub struct ServerStats {
    pub requests_total: u64,
    pub requests_success: u64,
    pub requests_failed: u64,
    pub bytes_received: u64,
    pub bytes_sent: u64,
    pub cache_entries: u64,
    pub cache_blobs: u64,
    pub cache_size_bytes: u64,
}

/// `x + y`, wrapping around at 2^64.
pub open spec fn wrap_add(x: u64, y: u64) -> u64 {
    vstd::wrapping::u64_specs::wrapping_add(x, y)
}

impl ServerStats {
    /// Counts a request that succeeded or failed, with the bytes it
    /// received and sent.
    pub fn record_request(&mut self, success: bool, bytes_in: usize, bytes_out: usize)
        ensures
            final(self).requests_total == wrap_add(old(self).requests_total, 1),
            final(self).requests_success == if success {
                wrap_add(old(self).requests_success, 1)
            } else {
                old(self).requests_success
            },
            final(self).requests_failed == if success {
                old(self).requests_failed
            } else {
                wrap_add(old(self).requests_failed, 1)
            },
            final(self).bytes_received == wrap_add(old(self).bytes_received, bytes_in as u64),
            final(self).bytes_sent == wrap_add(old(self).bytes_sent, bytes_out as u64),
            final(self).cache_entries == old(self).cache_entries,
            final(self).cache_blobs == old(self).cache_blobs,
            final(self).cache_size_bytes == old(self).cache_size_bytes,
            *final(self) == recorded(*old(self), success, bytes_in, bytes_out),
    {
        self.requests_total = self.requests_total.wrapping_add(1);
        if success {
            self.requests_success = self.requests_success.wrapping_add(1);
        } else {
            self.requests_failed = self.requests_failed.wrapping_add(1);
        }
        self.bytes_received = self.bytes_received.wrapping_add(bytes_in as u64);
        self.bytes_sent = self.bytes_sent.wrapping_add(bytes_out as u64);
    }
}

/// The counters after one request (see `ServerStats::record_request`).
pub open spec fn recorded(s: ServerStats, success: bool, bytes_in: usize, bytes_out: usize) -> ServerStats {
    ServerStats {
        requests_total: wrap_add(s.requests_total, 1),
        requests_success: if success {
            wrap_add(s.requests_success, 1)
        } else {
            s.requests_success
        },
        requests_failed: if success {
            s.requests_failed
        } else {
            wrap_add(s.requests_failed, 1)
        },
        bytes_received: wrap_add(s.bytes_received, bytes_in as u64),
        bytes_sent: wrap_add(s.bytes_sent, bytes_out as u64),
        ..s
    }
}

/// All counters zero, as `ServerStats::default()` starts.
pub open spec fn zero_stats() -> ServerStats {
    ServerStats {
        requests_total: 0,
        requests_success: 0,
        requests_failed: 0,
        bytes_received: 0,
        bytes_sent: 0,
        cache_entries: 0,
        cache_blobs: 0,
        cache_size_bytes: 0,
    }
}

/// The counters after the requests `calls` (success, bytes in, bytes out),
/// in order, from zero.
pub open spec fn replay(calls: Seq<(bool, usize, usize)>) -> ServerStats
    decreases calls.len(),
{
    if calls.len() == 0 {
        zero_stats()
    } else {
        let c = calls.last();
        recorded(replay(calls.drop_last()), c.0, c.1, c.2)
    }
}

/// The number of successful requests among `calls`.
pub open spec fn successes(calls: Seq<(bool, usize, usize)>) -> nat
    decreases calls.len(),
{
    if calls.len() == 0 {
        0
    } else {
        successes(calls.drop_last()) + if calls.last().0 {
            1nat
        } else {
            0nat
        }
    }
}

/// The bytes received over `calls`.
pub open spec fn bytes_in_total(calls: Seq<(bool, usize, usize)>) -> nat
    decreases calls.len(),
{
    if calls.len() == 0 {
        0
    } else {
        (bytes_in_total(calls.drop_last()) + calls.last().1) as nat
    }
}

/// The bytes sent over `calls`.
pub open spec fn bytes_out_total(calls: Seq<(bool, usize, usize)>) -> nat
    decreases calls.len(),
{
    if calls.len() == 0 {
        0
    } else {
        (bytes_out_total(calls.drop_last()) + calls.last().2) as nat
    }
}

/// 2^64, where the counters wrap around.
pub open spec fn counter_range() -> nat {
    0x1_0000_0000_0000_0000
}

proof fn lemma_wrap_mod(a: nat, b: u64)
    ensures
        wrap_add((a % counter_range()) as u64, b) == (((a + b) as nat) % counter_range()) as u64,
{
    let m = counter_range();
    vstd::arithmetic::div_mod::lemma_mod_pos_bound(a as int, m as int);
    let r = a % m;
    vstd::arithmetic::div_mod::lemma_small_mod(b as nat, m as nat);
    vstd::arithmetic::div_mod::lemma_add_mod_noop(a as int, b as int, m as int);
    if r + b < m {
        vstd::arithmetic::div_mod::lemma_small_mod((r + b) as nat, m as nat);
    } else {
        vstd::arithmetic::div_mod::lemma_mod_add_multiples_vanish(r + b - m, m as int);
        vstd::arithmetic::div_mod::lemma_small_mod((r + b - m) as nat, m as nat);
    }
}

/// Counting requests from zero: the total is the number of requests, split
/// into successes and failures (which add up to the total), and the byte
/// counters are the sums of the bytes received and sent, each modulo 2^64
/// (the counters wrap around); the cache counters stay zero.
pub proof fn law_stats_totals(calls: Seq<(bool, usize, usize)>)
    ensures
        replay(calls).requests_total == calls.len() % counter_range(),
        replay(calls).requests_success == successes(calls) % counter_range(),
        replay(calls).requests_failed == ((calls.len() - successes(calls)) as nat) % counter_range(),
        replay(calls).bytes_received == bytes_in_total(calls) % counter_range(),
        replay(calls).bytes_sent == bytes_out_total(calls) % counter_range(),
        replay(calls).cache_entries == 0,
        replay(calls).cache_blobs == 0,
        replay(calls).cache_size_bytes == 0,
        successes(calls) <= calls.len(),
        (replay(calls).requests_success + replay(calls).requests_failed) % (counter_range() as int)
            == replay(calls).requests_total,
    decreases calls.len(),
{
    let m = counter_range();
    if calls.len() == 0 {
        assert(0nat % (m as nat) == 0) by {
            vstd::arithmetic::div_mod::lemma_small_mod(0, m as nat);
        }
    } else {
        let p = calls.drop_last();
        let c = calls.last();
        law_stats_totals(p);
        let s = replay(p);
        lemma_wrap_mod(p.len(), 1);
        lemma_wrap_mod(successes(p), 1);
        lemma_wrap_mod((p.len() - successes(p)) as nat, 1);
        lemma_wrap_mod(bytes_in_total(p), c.1 as u64);
        lemma_wrap_mod(bytes_out_total(p), c.2 as u64);
    }
    let a = successes(calls) as int;
    let b = calls.len() - successes(calls);
    vstd::arithmetic::div_mod::lemma_add_mod_noop(a, b, m as int);
    assert(a + b == calls.len());
}

} // verus!
