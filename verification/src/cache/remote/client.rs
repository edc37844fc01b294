//! The remote cache client's configuration, statistics, connection states,
//! retry decisions and blob chunking.  The network I/O itself is the
//! program's part.
use vstd::prelude::*;
use super::error::RemoteCacheError;
use super::protocol::DEFAULT_CHUNK_SIZE;
use crate::cache::config::{millis, secs, spec_from_millis, spec_from_secs};
use crate::text::{chars_of, decimal, push_decimal, push_str, string_of};

verus! {

/// Retry settings.
#[derive(Debug, Clone, Copy)]
pub struct RetryConfig {
    /// Maximum retries after the first attempt.
    pub max_retries: u32,
    /// Backoff before the first retry.
    pub initial_backoff: std::time::Duration,
    /// Largest backoff.
    pub max_backoff: std::time::Duration,
}

impl Default for RetryConfig {
    /// Three retries, backing off from 100 ms to at most 5 s.
    fn default() -> (c: Self)
        ensures
            c.max_retries == 3,
            c.initial_backoff == spec_from_millis(100),
            c.max_backoff == spec_from_secs(5),
    {
        RetryConfig { max_retries: 3, initial_backoff: millis(100), max_backoff: secs(5) }
    }
}

/// Client settings.
#[derive(Debug)]
pub struct RemoteClientConfig {
    pub server_addr: String,
    pub token: String,
    pub client_id: Option<String>,
    pub connect_timeout: std::time::Duration,
    pub request_timeout: std::time::Duration,
    pub max_concurrent: usize,
    pub chunk_size: usize,
    pub retry: RetryConfig,
}

impl Default for RemoteClientConfig {
    /// No server or token; 5 s and 30 s timeouts; 4 concurrent requests;
    /// 1 MiB chunks; the default retries.
    fn default() -> (c: Self)
        ensures
            c.server_addr@ == Seq::<char>::empty(),
            c.token@ == Seq::<char>::empty(),
            c.client_id is None,
            c.connect_timeout == spec_from_secs(5),
            c.request_timeout == spec_from_secs(30),
            c.max_concurrent == 4,
            c.chunk_size == DEFAULT_CHUNK_SIZE,
            c.retry.max_retries == 3,
            c.retry.initial_backoff == spec_from_millis(100),
            c.retry.max_backoff == spec_from_secs(5),
    {
        RemoteClientConfig {
            server_addr: String::new(),
            token: String::new(),
            client_id: None,
            connect_timeout: secs(5),
            request_timeout: secs(30),
            max_concurrent: 4,
            chunk_size: DEFAULT_CHUNK_SIZE,
            retry: RetryConfig::default(),
        }
    }
}

/// Checks a client configuration as creating a client does: a server
/// address and a token are required.
pub fn validate_config(config: &RemoteClientConfig) -> (r: Result<(), RemoteCacheError>)
    ensures
        config.server_addr@.len() == 0 ==> (r matches Err(RemoteCacheError::ConfigError(m)) && m@
            == "server address is required"@),
        config.server_addr@.len() > 0 && config.token@.len() == 0 ==> (r matches Err(
            RemoteCacheError::ConfigError(m),
        ) && m@ == "authentication token is required"@),
        config.server_addr@.len() > 0 && config.token@.len() > 0 ==> r is Ok,
{
    if chars_of(config.server_addr.as_str()).len() == 0 {
        return Err(RemoteCacheError::ConfigError("server address is required".to_owned()));
    }
    if chars_of(config.token.as_str()).len() == 0 {
        return Err(RemoteCacheError::ConfigError("authentication token is required".to_owned()));
    }
    Ok(())
}

/// The identifier a client sends with its requests:
/// `rninja-<host>-<pid>-<millis>`, with `unknown` for a host name that
/// could not be read.
pub fn generate_client_id(host: Option<&str>, pid: u32, millis: u64) -> (r: String)
    ensures
        r@ == "rninja-"@ + match host {
            Some(h) => h@,
            None => "unknown"@,
        } + "-"@ + decimal(pid as nat) + "-"@ + decimal(millis as nat),
{
    let mut v: Vec<char> = Vec::new();
    push_str(&mut v, "rninja-");
    match host {
        Some(h) => push_str(&mut v, h),
        None => push_str(&mut v, "unknown"),
    }
    push_str(&mut v, "-");
    push_decimal(&mut v, pid as u64);
    push_str(&mut v, "-");
    push_decimal(&mut v, millis);
    string_of(&v)
}

/// Counters of the client.  Each wraps around as an atomic counter does.
#[derive(Debug, Default, Clone, Copy)]
pub struct ClientStats {
    pub requests_sent: u64,
    pub requests_failed: u64,
    pub bytes_sent: u64,
    pub bytes_received: u64,
    pub cache_hits: u64,
    pub cache_misses: u64,
    pub retries: u64,
    pub avg_latency_us: u64,
    /// The number of latency samples.
    pub latency_samples: usize,
    /// The sum of the latency samples, in microseconds.
    pub latency_sum_us: u64,
}

/// `x + y`, wrapping around at 2^64.
pub open spec fn wrap64(x: u64, y: u64) -> u64 {
    vstd::wrapping::u64_specs::wrapping_add(x, y)
}

impl ClientStats {
    /// Counts a request with the bytes it sent and received.
    pub fn record_request(&mut self, bytes_sent: usize, bytes_received: usize)
        ensures
            *final(self) == (ClientStats {
                requests_sent: wrap64(old(self).requests_sent, 1),
                bytes_sent: wrap64(old(self).bytes_sent, bytes_sent as u64),
                bytes_received: wrap64(old(self).bytes_received, bytes_received as u64),
                ..*old(self)
            }),
    {
        self.requests_sent = self.requests_sent.wrapping_add(1);
        self.bytes_sent = self.bytes_sent.wrapping_add(bytes_sent as u64);
        self.bytes_received = self.bytes_received.wrapping_add(bytes_received as u64);
    }

    /// Adds a latency sample and updates the average (the sum over the
    /// count, rounded down).
    pub fn record_latency(&mut self, latency_us: u64)
        requires
            old(self).latency_samples < usize::MAX,
        ensures
            final(self).latency_samples == old(self).latency_samples + 1,
            final(self).latency_sum_us == wrap64(old(self).latency_sum_us, latency_us),
            final(self).avg_latency_us == final(self).latency_sum_us / (final(self).latency_samples as u64),
            final(self).requests_sent == old(self).requests_sent,
            final(self).requests_failed == old(self).requests_failed,
            final(self).bytes_sent == old(self).bytes_sent,
            final(self).bytes_received == old(self).bytes_received,
            final(self).cache_hits == old(self).cache_hits,
            final(self).cache_misses == old(self).cache_misses,
            final(self).retries == old(self).retries,
    {
        self.latency_sum_us = self.latency_sum_us.wrapping_add(latency_us);
        self.latency_samples = self.latency_samples + 1;
        let samples = self.latency_samples as u64;
        self.avg_latency_us = self.latency_sum_us / samples;
    }

    /// Counts a cache hit.
    pub fn record_hit(&mut self)
        ensures
            *final(self) == (ClientStats { cache_hits: wrap64(old(self).cache_hits, 1), ..*old(self) }),
    {
        self.cache_hits = self.cache_hits.wrapping_add(1);
    }

    /// Counts a cache miss.
    pub fn record_miss(&mut self)
        ensures
            *final(self) == (ClientStats { cache_misses: wrap64(old(self).cache_misses, 1), ..*old(self) }),
    {
        self.cache_misses = self.cache_misses.wrapping_add(1);
    }

    /// Counts a failed request.
    pub fn record_failure(&mut self)
        ensures
            *final(self) == (ClientStats {
                requests_failed: wrap64(old(self).requests_failed, 1),
                ..*old(self)
            }),
    {
        self.requests_failed = self.requests_failed.wrapping_add(1);
    }

    /// Counts a retry.
    pub fn record_retry(&mut self)
        ensures
            *final(self) == (ClientStats { retries: wrap64(old(self).retries, 1), ..*old(self) }),
    {
        self.retries = self.retries.wrapping_add(1);
    }
}

/// Whether `c` is an ASCII hexadecimal digit.
pub open spec fn is_hex(c: char) -> bool {
    ('0' <= c && c <= '9') || ('a' <= c && c <= 'f') || ('A' <= c && c <= 'F')
}

/// Whether `h` is a content hash the server accepts: at least 32 bytes
/// long and all ASCII hexadecimal digits (so its bytes are its characters).
pub open spec fn valid_hash(h: Seq<char>) -> bool {
    h.len() >= 32 && forall|i: int| 0 <= i < h.len() ==> is_hex(#[trigger] h[i])
}

/// Whether `hash` is a valid content hash.
pub fn is_valid_cache_hash(hash: &str) -> (b: bool)
    ensures
        b == valid_hash(hash@),
{
    let c = chars_of(hash);
    if c.len() < 32 {
        return false;
    }
    let mut i: usize = 0;
    while i < c.len()
        invariant
            i <= c@.len(),
            c@ == hash@,
            forall|j: int| 0 <= j < i ==> is_hex(#[trigger] c@[j]),
        decreases c.len() - i,
    {
        let x = c[i];
        if !(('0' <= x && x <= '9') || ('a' <= x && x <= 'f') || ('A' <= x && x <= 'F')) {
            assert(!is_hex(c@[i as int]));
            return false;
        }
        i = i + 1;
    }
    true
}

/// The first invalid hash among `hashes`, if any.
pub fn validate_cache_hashes(hashes: &Vec<String>) -> (r: Option<String>)
    ensures
        match r {
            Some(h) => exists|i: int|
                0 <= i < hashes@.len() && !valid_hash(#[trigger] hashes@[i]@) && h@ == hashes@[i]@
                    && forall|j: int| 0 <= j < i ==> valid_hash(#[trigger] hashes@[j]@),
            None => forall|i: int| 0 <= i < hashes@.len() ==> valid_hash(#[trigger] hashes@[i]@),
        },
{
    let mut i: usize = 0;
    while i < hashes.len()
        invariant
            i <= hashes@.len(),
            forall|j: int| 0 <= j < i ==> valid_hash(#[trigger] hashes@[j]@),
        decreases hashes.len() - i,
    {
        if !is_valid_cache_hash(hashes[i].as_str()) {
            return Some(hashes[i].clone());
        }
        i = i + 1;
    }
    None
}

/// The state of the connection to the server.
#[derive(Debug, Clone, Copy, PartialEq, Eq, Structural)]
pub enum ConnState {
    Disconnected,
    Connecting,
    Connected,
}

/// Whether the connection may go from `from` to `to`: disconnected to
/// connecting, connecting to connected or back to disconnected, connected
/// to disconnected, or staying in the same state.
pub open spec fn may_transition(from: ConnState, to: ConnState) -> bool {
    ||| from == ConnState::Disconnected && to == ConnState::Connecting
    ||| from == ConnState::Connecting && to == ConnState::Connected
    ||| from == ConnState::Connecting && to == ConnState::Disconnected
    ||| from == ConnState::Connected && to == ConnState::Disconnected
    ||| from == to
}

impl ConnState {
    /// The state's name.
    pub fn name(&self) -> (s: &'static str)
        ensures
            s@ == match self {
                ConnState::Disconnected => "Disconnected"@,
                ConnState::Connecting => "Connecting"@,
                ConnState::Connected => "Connected"@,
            },
    {
        match self {
            ConnState::Disconnected => "Disconnected",
            ConnState::Connecting => "Connecting",
            ConnState::Connected => "Connected",
        }
    }

    /// Whether the client is connected.
    pub fn is_connected(&self) -> (b: bool)
        ensures
            b == (*self == ConnState::Connected),
    {
        match self {
            ConnState::Connected => true,
            _ => false,
        }
    }

    /// The state after a move to `to`: `to` when the move is allowed, else
    /// the names of the two states.
    pub fn transition(&self, to: ConnState) -> (r: Result<ConnState, (&'static str, &'static str)>)
        ensures
            may_transition(*self, to) ==> r == Ok::<ConnState, (&'static str, &'static str)>(to),
            !may_transition(*self, to) ==> r is Err,
    {
        let valid = match (self, to) {
            (ConnState::Disconnected, ConnState::Connecting) => true,
            (ConnState::Connecting, ConnState::Connected) => true,
            (ConnState::Connecting, ConnState::Disconnected) => true,
            (ConnState::Connected, ConnState::Disconnected) => true,
            (ConnState::Disconnected, ConnState::Disconnected) => true,
            (ConnState::Connecting, ConnState::Connecting) => true,
            (ConnState::Connected, ConnState::Connected) => true,
            _ => false,
        };
        if valid {
            Ok(to)
        } else {
            Err((self.name(), to.name()))
        }
    }
}

/// A connected client reaches the disconnected state only through an
/// allowed move, and a client can always be disconnected from any state.
pub proof fn law_disconnect_always_allowed(s: ConnState)
    ensures
        may_transition(s, ConnState::Disconnected) || s == ConnState::Disconnected,
{
}

/// What the client does after a failed attempt `attempt` (0 for the first).
#[derive(Debug, Clone, Copy, PartialEq, Eq, Structural)]
pub enum RetryDecision {
    /// Wait the backoff and try again.
    Retry,
    /// Count a failure and return the error.
    Fail,
}

/// After an error: retry when it is retryable and attempts remain.
pub open spec fn retry_decision(retryable: bool, attempt: u32, max_retries: u32) -> RetryDecision {
    if retryable && attempt < max_retries {
        RetryDecision::Retry
    } else {
        RetryDecision::Fail
    }
}

/// Decides what follows a failed attempt.
pub fn decide_retry(retryable: bool, attempt: u32, max_retries: u32) -> (d: RetryDecision)
    ensures
        d == retry_decision(retryable, attempt, max_retries),
{
    if retryable && attempt < max_retries {
        RetryDecision::Retry
    } else {
        RetryDecision::Fail
    }
}

/// The backoff before the next retry: the current one doubled, capped at
/// `max` (in any unit of time).
pub fn next_backoff(current: u64, max: u64) -> (b: u64)
    requires
        current * 2 <= u64::MAX,
    ensures
        b == if current * 2 < max {
            current * 2
        } else {
            max as int
        },
{
    let d = current * 2;
    if d < max {
        d
    } else {
        max
    }
}

/// The number of attempts never exceeds one plus the retries: after the
/// attempt numbered `max_retries`, the client fails.
pub proof fn law_retries_bounded(retryable: bool, max_retries: u32)
    ensures
        retry_decision(retryable, max_retries, max_retries) == RetryDecision::Fail,
{
}

/// The end of the chunk that starts at `offset` in data of `len` bytes.
pub open spec fn chunk_end(offset: nat, chunk: nat, len: nat) -> nat {
    if offset + chunk < len {
        offset + chunk
    } else {
        len
    }
}

/// The chunks in which `len` bytes are sent, from `offset` on: consecutive
/// ranges of `chunk` bytes, the last one shorter.
pub open spec fn chunks_from(offset: nat, chunk: nat, len: nat) -> Seq<(nat, nat)>
    decreases len - offset,
{
    if chunk == 0 || offset >= len {
        Seq::empty()
    } else {
        seq![(offset, chunk_end(offset, chunk, len))] + chunks_from(
            chunk_end(offset, chunk, len),
            chunk,
            len,
        )
    }
}

/// The byte ranges in which a blob of `len` bytes is pushed, `chunk` bytes
/// at a time.
pub fn chunk_ranges(len: usize, chunk: usize) -> (r: Vec<(usize, usize)>)
    requires
        chunk > 0,
    ensures
        r@.map_values(|p: (usize, usize)| (p.0 as nat, p.1 as nat)) == chunks_from(
            0,
            chunk as nat,
            len as nat,
        ),
{
    let mut r: Vec<(usize, usize)> = Vec::new();
    let mut offset: usize = 0;
    let ghost goal = chunks_from(0, chunk as nat, len as nat);
    proof {
        assert(r@.map_values(|p: (usize, usize)| (p.0 as nat, p.1 as nat)) =~= Seq::<
            (nat, nat),
        >::empty());
        assert(goal =~= Seq::<(nat, nat)>::empty() + goal);
    }
    while offset < len
        invariant
            offset <= len,
            chunk > 0,
            goal == chunks_from(0, chunk as nat, len as nat),
            goal == r@.map_values(|p: (usize, usize)| (p.0 as nat, p.1 as nat)) + chunks_from(
                offset as nat,
                chunk as nat,
                len as nat,
            ),
        decreases len - offset,
    {
        let end = if chunk < len - offset {
            offset + chunk
        } else {
            len
        };
        let ghost r0 = r@.map_values(|p: (usize, usize)| (p.0 as nat, p.1 as nat));
        r.push((offset, end));
        proof {
            assert(r@.map_values(|p: (usize, usize)| (p.0 as nat, p.1 as nat)) =~= r0.push(
                (offset as nat, end as nat),
            ));
            assert(end as nat == chunk_end(offset as nat, chunk as nat, len as nat));
            assert(r0 + chunks_from(offset as nat, chunk as nat, len as nat) =~= r0.push(
                (offset as nat, end as nat),
            ) + chunks_from(end as nat, chunk as nat, len as nat));
        }
        offset = end;
    }
    proof {
        assert(r@.map_values(|p: (usize, usize)| (p.0 as nat, p.1 as nat)) + Seq::<(nat, nat)>::empty()
            =~= r@.map_values(|p: (usize, usize)| (p.0 as nat, p.1 as nat)));
    }
    r
}

} // verus!
