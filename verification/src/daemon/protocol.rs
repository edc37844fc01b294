//! Daemon IPC protocol types.  The program encodes them with MessagePack
//! through copies that derive serde's traits.
use vstd::prelude::*;
use crate::parser::{path_join, spec_path_join};
use crate::text::{decimal, push_decimal, push_str, string_of};

verus! {

/// The protocol version.
pub const DAEMON_PROTOCOL_VERSION: u32 = 1;

/// The default socket file name.
pub const DEFAULT_SOCKET_NAME: &'static str = "daemon.sock";

/// A request to the daemon.
#[derive(Debug)]
pub enum DaemonRequest {
    Build(BuildRequest),
    Query(QueryRequest),
    Ping,
    Shutdown,
    InvalidateCache { build_dir: String },
    Status,
    CancelBuild { session_id: String },
}

/// A build request.
#[derive(Debug, Clone)]
pub struct BuildRequest {
    pub session_id: String,
    pub build_dir: String,
    pub build_file: String,
    pub targets: Vec<String>,
    pub parallelism: usize,
    pub dry_run: bool,
    pub verbose: bool,
    pub explain: bool,
    pub keep_going: usize,
    pub json_output: bool,
}

/// Calls `num_cpus::get`, the number of logical CPUs available, which is
/// always at least 1 (as the crate documents); its value depends on the
/// machine.
#[verifier::external_body]
fn cpu_count() -> (n: usize)
    ensures
        n >= 1,
{
    num_cpus::get()
}

impl BuildRequest {
    /// A request to build the default targets of `build.ninja` in
    /// `build_dir`, with one job per available CPU.
    pub fn new(session_id: String, build_dir: String) -> (r: Self)
        ensures
            r.session_id == session_id,
            r.build_dir == build_dir,
            r.build_file@ == "build.ninja"@,
            r.targets@.len() == 0,
            r.parallelism >= 1,
            !r.dry_run,
            !r.verbose,
            !r.explain,
            r.keep_going == 1,
            !r.json_output,
    {
        BuildRequest {
            session_id,
            build_dir,
            build_file: "build.ninja".to_owned(),
            targets: Vec::new(),
            parallelism: cpu_count(),
            dry_run: false,
            verbose: false,
            explain: false,
            keep_going: 1,
            json_output: false,
        }
    }
}

/// Whether `s` is the text of a random (version 4) UUID: 36 characters,
/// hyphens at 8, 13, 18 and 23, lowercase hexadecimal digits elsewhere, the
/// version digit `4` at 14 and a variant digit `8` to `b` at 19.
pub open spec fn uuid_v4_text(s: Seq<char>) -> bool {
    &&& s.len() == 36
    &&& forall|i: int|
        0 <= i < 36 ==> if i == 8 || i == 13 || i == 18 || i == 23 {
            #[trigger] s[i] == '-'
        } else {
            crate::cache::hasher::is_lower_hex(s[i])
        }
    &&& s[14] == '4'
    &&& (s[19] == '8' || s[19] == '9' || s[19] == 'a' || s[19] == 'b')
}

/// Calls `uuid::Uuid::new_v4` and writes the identifier as text (its
/// `Display` is the hyphenated lowercase form).  The identifier is random;
/// what holds of every one is its shape: `new_v4` sets the version to 4 and
/// the variant bits to `10`.
#[verifier::external_body]
fn new_uuid_text() -> (s: String)
    ensures
        uuid_v4_text(s@),
{
    uuid::Uuid::new_v4().to_string()
}

/// A fresh random session identifier: the text of a random UUID.
pub fn generate_session_id() -> (s: String)
    ensures
        uuid_v4_text(s@),
{
    new_uuid_text()
}

/// The socket the daemon listens on by default: `rninja/daemon.sock` under
/// the runtime directory `runtime_dir` (`XDG_RUNTIME_DIR`) where one is
/// set, else `daemon.sock` under `/tmp/rninja-<uid>` for the user `uid`.
pub fn get_default_socket_path(runtime_dir: Option<&str>, uid: u32) -> (r: String)
    ensures
        match runtime_dir {
            Some(d) => r@ == spec_path_join(spec_path_join(d@, "rninja"@), DEFAULT_SOCKET_NAME@),
            None => r@ == spec_path_join("/tmp/rninja-"@ + decimal(uid as nat), DEFAULT_SOCKET_NAME@),
        },
{
    match runtime_dir {
        Some(d) => {
            let dir = path_join(d, "rninja");
            path_join(dir.as_str(), DEFAULT_SOCKET_NAME)
        },
        None => {
            let mut v: Vec<char> = Vec::new();
            push_str(&mut v, "/tmp/rninja-");
            push_decimal(&mut v, uid as u64);
            let dir = string_of(&v);
            path_join(dir.as_str(), DEFAULT_SOCKET_NAME)
        },
    }
}

/// A query to the daemon.
#[derive(Debug)]
pub enum QueryRequest {
    Targets { build_dir: String },
    Rules { build_dir: String },
    Commands { build_dir: String, targets: Vec<String> },
    Deps { build_dir: String, target: String },
    Inputs { build_dir: String, target: String },
    CompDb { build_dir: String },
}

/// A response of the daemon.
#[derive(Debug)]
pub enum DaemonResponse {
    BuildStarted { session_id: String, total_targets: usize },
    TargetStarted { target: String, index: usize, total: usize, command: Option<String> },
    TargetOutput { target: String, stdout: Vec<u8>, stderr: Vec<u8> },
    TargetFinished {
        target: String,
        index: usize,
        total: usize,
        success: bool,
        cached: bool,
        duration_ms: u64,
    },
    BuildFinished { session_id: String, success: bool, stats: BuildStats },
    QueryResult { data: String },
    Pong { version: String, protocol_version: u32, uptime_secs: u64 },
    DaemonStatus {
        active_builds: usize,
        cached_manifests: usize,
        cache_stats: CacheStatsInfo,
        uptime_secs: u64,
    },
    Ack,
    NoWorkToDo,
    Error { code: ErrorCode, message: String },
}

/// Statistics of a finished build.
#[derive(Debug, Clone, Copy, Default)]
pub struct BuildStats {
    pub targets_built: usize,
    pub targets_skipped: usize,
    pub targets_failed: usize,
    pub cache_hits: usize,
    pub cache_misses: usize,
    pub duration_ms: u64,
}

/// Cache statistics of the daemon.
#[derive(Debug, Clone, Copy, Default)]
pub struct CacheStatsInfo {
    pub local_hits: usize,
    pub local_misses: usize,
    pub remote_hits: usize,
    pub remote_misses: usize,
}

/// Error codes of the daemon protocol.
#[derive(Debug, Clone, Copy, PartialEq, Eq, Structural)]
pub enum ErrorCode {
    BuildFailed,
    TargetNotFound,
    ParseError,
    FileNotFound,
    SessionNotFound,
    ShuttingDown,
    VersionMismatch,
    InternalError,
    CircularDependency,
}

/// A request with its protocol version.
#[derive(Debug)]
pub struct RequestEnvelope {
    pub version: u32,
    pub request: DaemonRequest,
}

impl RequestEnvelope {
    /// A request of the current protocol version.
    pub fn new(request: DaemonRequest) -> (e: Self)
        ensures
            e.version == DAEMON_PROTOCOL_VERSION,
            e.request == request,
    {
        RequestEnvelope { version: DAEMON_PROTOCOL_VERSION, request }
    }
}

} // verus!
