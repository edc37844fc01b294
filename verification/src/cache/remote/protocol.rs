//! Remote cache protocol types.
//!
//! The types carry no serialization here: the program encodes them with
//! MessagePack through copies that derive serde's traits.
use vstd::prelude::*;
use crate::cache::entry::{normal_time, pair_views, time_fits, Timestamp};
use crate::graph::node::dup_opt;
use crate::strmap::StrMap;

verus! {

/// The protocol version.
pub const PROTOCOL_VERSION: u32 = 1;

/// The size of the chunks in which blobs are sent.
pub const DEFAULT_CHUNK_SIZE: usize = 1048576;

/// The authentication header of a request.
#[derive(Debug, Clone)]
pub struct AuthHeader {
    pub token: String,
    pub client_id: Option<String>,
}

/// A request with its version and authentication.
#[derive(Debug)]
pub struct RequestEnvelope {
    pub version: u32,
    pub auth: AuthHeader,
    pub request: Request,
}

impl RequestEnvelope {
    /// A request of the current protocol version.
    pub fn new(token: String, client_id: Option<String>, request: Request) -> (e: Self)
        ensures
            e.version == PROTOCOL_VERSION,
            e.auth.token == token,
            e.auth.client_id == client_id,
            e.request == request,
    {
        RequestEnvelope { version: PROTOCOL_VERSION, auth: AuthHeader { token, client_id }, request }
    }
}

/// A cache entry as it goes over the wire.
#[derive(Debug)]
pub struct WireCacheEntry {
    pub command: String,
    /// (path, hash) pairs.
    pub outputs: Vec<(String, String)>,
    pub created_secs: u64,
    pub created_nanos: u32,
}

fn dup_pairs(v: &[(String, String)]) -> (r: Vec<(String, String)>)
    ensures
        pair_views(r@) == pair_views(v@),
{
    let mut r: Vec<(String, String)> = Vec::new();
    let mut i: usize = 0;
    while i < v.len()
        invariant
            i <= v@.len(),
            pair_views(r@) == pair_views(v@).take(i as int),
        decreases v.len() - i,
    {
        let ghost r0 = r@;
        r.push((v[i].0.clone(), v[i].1.clone()));
        i = i + 1;
        proof {
            assert(pair_views(r@) =~= pair_views(r0).push((v@[i - 1].0@, v@[i - 1].1@)));
            assert(pair_views(v@).take(i as int) =~= pair_views(v@).take(i - 1).push(
                (v@[i - 1].0@, v@[i - 1].1@),
            ));
        }
    }
    proof {
        assert(pair_views(v@).take(i as int) =~= pair_views(v@));
    }
    r
}

impl WireCacheEntry {
    /// The wire form of a cache entry created at `created`.
    pub fn from_entry(command: &str, outputs: &[(String, String)], created: Timestamp) -> (w: Self)
        ensures
            w.command@ == command@,
            pair_views(w.outputs@) == pair_views(outputs@),
            w.created_secs == created.secs,
            w.created_nanos == created.nanos,
    {
        WireCacheEntry {
            command: command.to_owned(),
            outputs: dup_pairs(outputs),
            created_secs: created.secs,
            created_nanos: created.nanos,
        }
    }

    /// The (path, hash) pairs of the outputs.
    pub fn to_outputs(&self) -> (r: Vec<(String, String)>)
        ensures
            pair_views(r@) == pair_views(self.outputs@),
    {
        dup_pairs(&self.outputs)
    }

    /// The creation time, with whole seconds carried out of the
    /// nanoseconds; the time must be one the system clock can hold.
    pub fn created_time(&self) -> (t: Timestamp)
        requires
            time_fits(self.created_secs, self.created_nanos),
        ensures
            t == normal_time(self.created_secs, self.created_nanos),
    {
        let carry = (self.created_nanos / 1_000_000_000) as u64;
        Timestamp { secs: self.created_secs + carry, nanos: self.created_nanos % 1_000_000_000 }
    }
}

/// A request to the cache server.
#[derive(Debug)]
pub enum Request {
    /// Which of the keys exist.
    Exists { keys: Vec<String> },
    /// The entry of a key.
    Lookup { key: String },
    /// The blobs of the hashes.
    PullBlobs { hashes: Vec<String> },
    /// Stores an entry.
    PushEntry { key: String, entry: WireCacheEntry },
    /// A chunk of a blob.
    PushBlob { hash: String, data: Vec<u8>, offset: u64, total: u64 },
    /// The end of a blob upload.
    PushBlobComplete { hash: String, checksum: String },
    /// A liveness check.
    Ping,
    /// Server statistics.
    Stats,
}

/// The error codes of the protocol.
#[derive(Debug, Clone, Copy, PartialEq, Eq)]
pub enum ErrorCode {
    NotFound,
    AuthRequired,
    AuthFailed,
    InvalidRequest,
    StorageFull,
    ServerError,
    RateLimited,
    VersionMismatch,
}

impl ErrorCode {
    /// The code's name, as `Debug` writes it.
    pub open spec fn name_spec(&self) -> Seq<char> {
        match self {
            ErrorCode::NotFound => "NotFound"@,
            ErrorCode::AuthRequired => "AuthRequired"@,
            ErrorCode::AuthFailed => "AuthFailed"@,
            ErrorCode::InvalidRequest => "InvalidRequest"@,
            ErrorCode::StorageFull => "StorageFull"@,
            ErrorCode::ServerError => "ServerError"@,
            ErrorCode::RateLimited => "RateLimited"@,
            ErrorCode::VersionMismatch => "VersionMismatch"@,
        }
    }

    /// The code's name, as `Debug` writes it.
    pub fn name(&self) -> (s: &'static str)
        ensures
            s@ == self.name_spec(),
            s@ == match self {
                ErrorCode::NotFound => "NotFound"@,
                ErrorCode::AuthRequired => "AuthRequired"@,
                ErrorCode::AuthFailed => "AuthFailed"@,
                ErrorCode::InvalidRequest => "InvalidRequest"@,
                ErrorCode::StorageFull => "StorageFull"@,
                ErrorCode::ServerError => "ServerError"@,
                ErrorCode::RateLimited => "RateLimited"@,
                ErrorCode::VersionMismatch => "VersionMismatch"@,
            },
    {
        match self {
            ErrorCode::NotFound => "NotFound",
            ErrorCode::AuthRequired => "AuthRequired",
            ErrorCode::AuthFailed => "AuthFailed",
            ErrorCode::InvalidRequest => "InvalidRequest",
            ErrorCode::StorageFull => "StorageFull",
            ErrorCode::ServerError => "ServerError",
            ErrorCode::RateLimited => "RateLimited",
            ErrorCode::VersionMismatch => "VersionMismatch",
        }
    }
}

/// A response of the cache server.
#[derive(Debug)]
pub enum Response {
    /// For each key asked about, whether it exists.
    Exists { results: StrMap<bool> },
    /// The entry of the key.
    Entry { entry: WireCacheEntry },
    /// No such entry.
    NotFound,
    /// A chunk of a blob.
    BlobChunk { hash: String, data: Vec<u8>, offset: u64, total: u64 },
    /// The end of a blob.
    BlobComplete { hash: String },
    /// Success (the protocol's `Ok`).
    Ack,
    /// Failure.
    Error { code: ErrorCode, message: String },
    /// The answer to a ping.
    Pong { version: String, server_time: u64 },
    /// Server statistics.
    Statistics { entries: u64, blobs: u64, total_size_bytes: u64, uptime_secs: u64 },
}

impl Response {
    /// An error response.
    pub fn error(code: ErrorCode, message: String) -> (r: Self)
        ensures
            r matches Response::Error { code: c, message: m } && c == code && m == message,
    {
        Response::Error { code, message }
    }

    /// Whether this is an error response.
    pub fn is_error(&self) -> (b: bool)
        ensures
            b == (self is Error),
    {
        match self {
            Response::Error { .. } => true,
            _ => false,
        }
    }
}

} // verus!
