//! Cache configuration: modes, policies and their names, and the
//! configuration that the environment gives.
//!
//! Reading the environment is the program's part: it hands the variables
//! over as a map.  The defaults here use the fallback cache directory.
use vstd::prelude::*;
use crate::parser::{path_join, spec_path_join};
use crate::strmap::{lookup, StrMap};
use crate::text::{chars_of, copy_range, parse_u64, parse_u64_chars, parse_usize, parse_usize_chars, trim, trim_chars};

verus! {

/// `str::to_lowercase` of `s` (full Unicode case mapping).
pub uninterp spec fn spec_to_lowercase(s: Seq<char>) -> Seq<char>;

/// `c` with an ASCII capital letter turned into its small letter.
pub open spec fn ascii_lower(c: char) -> char {
    if 'A' <= c && c <= 'Z' {
        ((c as u32) + 32) as char
    } else {
        c
    }
}

/// Whether every character of `s` is ASCII.
pub open spec fn all_ascii(s: Seq<char>) -> bool {
    forall|i: int| 0 <= i < s.len() ==> #[trigger] s[i] < '\u{80}'
}

/// `s` with its ASCII capital letters turned into small letters.
pub open spec fn lower_ascii(s: Seq<char>) -> Seq<char> {
    s.map_values(|c: char| ascii_lower(c))
}

/// Calls `str::to_lowercase`; its result is named by `spec_to_lowercase`.
/// On ASCII text it lowers the capital letters only, character by
/// character, as the Unicode lowercase mapping does there.
#[verifier::external_body]
fn to_lowercase(s: &str) -> (r: String)
    ensures
        r@ == spec_to_lowercase(s@),
        all_ascii(s@) ==> r@ == lower_ascii(s@),
{
    s.to_lowercase()
}

/// Cache operation mode.
#[derive(Debug, Clone, Copy, PartialEq, Eq, Structural)]
pub enum CacheMode {
    /// Local cache only.
    Local,
    /// Remote cache only.
    Remote,
    /// Remote first, then local.
    Auto,
}

impl Default for CacheMode {
    fn default() -> (m: Self)
        ensures
            m == CacheMode::Local,
    {
        CacheMode::Local
    }
}

/// The mode named by the lowercase word `w`; `both` (remote and local) is
/// the automatic mode.
pub open spec fn mode_word(w: Seq<char>) -> Option<CacheMode> {
    if w == "local"@ {
        Some(CacheMode::Local)
    } else if w == "remote"@ {
        Some(CacheMode::Remote)
    } else if w == "auto"@ || w == "both"@ {
        Some(CacheMode::Auto)
    } else {
        None
    }
}

/// The mode named by `s`, in any case.
pub open spec fn mode_named(s: Seq<char>) -> Option<CacheMode> {
    mode_word(spec_to_lowercase(s))
}

impl CacheMode {
    /// The mode named by the lowercase word `w`; `both` (remote and local)
    /// is the automatic mode.
    pub fn from_lowercase(w: &str) -> (r: Option<Self>)
        ensures
            r == mode_word(w@),
    {
        match use_str_eq(w, "local", "remote", "auto", CacheMode::Local, CacheMode::Remote, CacheMode::Auto) {
            Some(m) => Some(m),
            None => if crate::strmap::str_eq(w, "both") {
                Some(CacheMode::Auto)
            } else {
                None
            },
        }
    }

    /// The mode named by `s`, in any case (on ASCII text: with its capital
    /// letters made small).
    pub fn from_str(s: &str) -> (r: Option<Self>)
        ensures
            r == mode_named(s@),
            all_ascii(s@) ==> r == mode_word(lower_ascii(s@)),
    {
        let l = to_lowercase(s);
        CacheMode::from_lowercase(l.as_str())
    }
}

fn use_str_eq<T: Copy>(w: &str, a: &str, b: &str, c: &str, ta: T, tb: T, tc: T) -> (r: Option<T>)
    ensures
        r == (if w@ == a@ {
            Some(ta)
        } else if w@ == b@ {
            Some(tb)
        } else if w@ == c@ {
            Some(tc)
        } else {
            None
        }),
{
    if crate::strmap::str_eq(w, a) {
        Some(ta)
    } else if crate::strmap::str_eq(w, b) {
        Some(tb)
    } else if crate::strmap::str_eq(w, c) {
        Some(tc)
    } else {
        None
    }
}

/// Push policy for the remote cache.
#[derive(Debug, Clone, Copy, PartialEq, Eq, Structural)]
pub enum PushPolicy {
    /// Never push.
    Never,
    /// Push successful builds only.
    OnSuccess,
    /// Push all builds.
    Always,
}

impl Default for PushPolicy {
    fn default() -> (p: Self)
        ensures
            p == PushPolicy::OnSuccess,
    {
        PushPolicy::OnSuccess
    }
}

impl PushPolicy {
    /// The policy named by the lowercase word `w`.
    pub fn from_lowercase(w: &str) -> (r: Option<Self>)
        ensures
            r == push_word(w@),
    {
        if crate::strmap::str_eq(w, "onsuccess") {
            proof {
                reveal_strlit("onsuccess");
                reveal_strlit("never");
                assert("onsuccess"@.len() != "never"@.len());
                assert(w@ != "never"@);
            }
            return Some(PushPolicy::OnSuccess);
        }
        use_str_eq(w, "never", "on_success", "always", PushPolicy::Never, PushPolicy::OnSuccess, PushPolicy::Always)
    }

    /// The policy named by `s`, in any case (on ASCII text: with its
    /// capital letters made small).
    pub fn from_str(s: &str) -> (r: Option<Self>)
        ensures
            r == push_named(s@),
            all_ascii(s@) ==> r == push_word(lower_ascii(s@)),
    {
        let l = to_lowercase(s);
        PushPolicy::from_lowercase(l.as_str())
    }
}

/// The push policy named by the lowercase word `w`.
pub open spec fn push_word(w: Seq<char>) -> Option<PushPolicy> {
    if w == "never"@ {
        Some(PushPolicy::Never)
    } else if w == "on_success"@ || w == "onsuccess"@ {
        Some(PushPolicy::OnSuccess)
    } else if w == "always"@ {
        Some(PushPolicy::Always)
    } else {
        None
    }
}

/// The push policy named by `s`, in any case.
pub open spec fn push_named(s: Seq<char>) -> Option<PushPolicy> {
    push_word(spec_to_lowercase(s))
}

/// The pull policy named by the lowercase word `w`.
pub open spec fn pull_word(w: Seq<char>) -> Option<PullPolicy> {
    if w == "always"@ {
        Some(PullPolicy::Always)
    } else if w == "on_miss"@ || w == "onmiss"@ {
        Some(PullPolicy::OnMiss)
    } else if w == "never"@ {
        Some(PullPolicy::Never)
    } else {
        None
    }
}

/// The pull policy named by `s`, in any case.
pub open spec fn pull_named(s: Seq<char>) -> Option<PullPolicy> {
    pull_word(spec_to_lowercase(s))
}

/// Pull policy for the remote cache.
#[derive(Debug, Clone, Copy, PartialEq, Eq, Structural)]
pub enum PullPolicy {
    /// Try remote first.
    Always,
    /// Pull only on a local miss.
    OnMiss,
    /// Never pull.
    Never,
}

impl Default for PullPolicy {
    fn default() -> (p: Self)
        ensures
            p == PullPolicy::Always,
    {
        PullPolicy::Always
    }
}

impl PullPolicy {
    /// The policy named by the lowercase word `w`.
    pub fn from_lowercase(w: &str) -> (r: Option<Self>)
        ensures
            r == pull_word(w@),
    {
        if crate::strmap::str_eq(w, "onmiss") {
            proof {
                reveal_strlit("onmiss");
                reveal_strlit("always");
                assert("onmiss"@[0] != "always"@[0]);
                assert(w@ != "always"@);
            }
            return Some(PullPolicy::OnMiss);
        }
        use_str_eq(w, "always", "on_miss", "never", PullPolicy::Always, PullPolicy::OnMiss, PullPolicy::Never)
    }

    /// The policy named by `s`, in any case (on ASCII text: with its
    /// capital letters made small).
    pub fn from_str(s: &str) -> (r: Option<Self>)
        ensures
            r == pull_named(s@),
            all_ascii(s@) ==> r == pull_word(lower_ascii(s@)),
    {
        let l = to_lowercase(s);
        PullPolicy::from_lowercase(l.as_str())
    }
}

/// What `std::time::Duration::from_secs` gives for `s` seconds.
pub uninterp spec fn spec_from_secs(s: u64) -> std::time::Duration;

/// What `std::time::Duration::from_millis` gives for `ms` milliseconds.
pub uninterp spec fn spec_from_millis(ms: u64) -> std::time::Duration;

/// Calls `std::time::Duration::from_secs`, which never fails; its result
/// is named by `spec_from_secs`.
#[verifier::external_body]
pub(crate) fn secs(s: u64) -> (d: std::time::Duration)
    ensures
        d == spec_from_secs(s),
{
    std::time::Duration::from_secs(s)
}

/// Calls `std::time::Duration::from_millis`, which never fails; its result
/// is named by `spec_from_millis`.
#[verifier::external_body]
pub(crate) fn millis(ms: u64) -> (d: std::time::Duration)
    ensures
        d == spec_from_millis(ms),
{
    std::time::Duration::from_millis(ms)
}

/// The seconds that the variable `name` of `vars` gives, else `d`.
pub open spec fn secs_var(vars: Seq<(Seq<char>, Seq<char>)>, name: Seq<char>, d: u64) -> u64 {
    match lookup(vars, name) {
        Some(v) => match parse_u64(v) {
            Some(n) => n as u64,
            None => d,
        },
        None => d,
    }
}

/// Remote cache configuration.
#[derive(Debug)]
pub struct RemoteCacheConfig {
    /// Server address (e.g. `tcp://cache.example.com:9999`).
    pub server_addr: String,
    /// Authentication token.
    pub token: String,
    /// Connection timeout.
    pub connect_timeout: std::time::Duration,
    /// Request timeout.
    pub request_timeout: std::time::Duration,
    /// Push policy.
    pub push_policy: PushPolicy,
    /// Pull policy.
    pub pull_policy: PullPolicy,
    /// Maximum concurrent remote operations.
    pub max_concurrent: usize,
    /// Maximum retries for transient failures.
    pub max_retries: u32,
    /// Initial backoff for retries.
    pub initial_backoff: std::time::Duration,
    /// Maximum backoff for retries.
    pub max_backoff: std::time::Duration,
}

impl Default for RemoteCacheConfig {
    /// No server and no token; timeouts of 5 s (connect) and 30 s
    /// (request); default policies; 4 concurrent operations; 3 retries with
    /// backoff from 100 ms to 5 s.
    fn default() -> (c: Self)
        ensures
            c.server_addr@ == Seq::<char>::empty(),
            c.token@ == Seq::<char>::empty(),
            c.connect_timeout == spec_from_secs(5),
            c.request_timeout == spec_from_secs(30),
            c.push_policy == PushPolicy::OnSuccess,
            c.pull_policy == PullPolicy::Always,
            c.max_concurrent == 4,
            c.max_retries == 3,
            c.initial_backoff == spec_from_millis(100),
            c.max_backoff == spec_from_secs(5),
    {
        RemoteCacheConfig {
            server_addr: String::new(),
            token: String::new(),
            connect_timeout: secs(5),
            request_timeout: secs(30),
            push_policy: PushPolicy::OnSuccess,
            pull_policy: PullPolicy::Always,
            max_concurrent: 4,
            max_retries: 3,
            initial_backoff: millis(100),
            max_backoff: secs(5),
        }
    }
}

impl RemoteCacheConfig {
    /// Whether a server and a token are set.
    pub fn is_configured(&self) -> (b: bool)
        ensures
            b == (self.server_addr@.len() > 0 && self.token@.len() > 0),
    {
        chars_of(self.server_addr.as_str()).len() > 0 && chars_of(self.token.as_str()).len() > 0
    }
}

/// Cache configuration.
#[derive(Debug)]
pub struct CacheConfig {
    /// Whether caching is enabled.
    pub enabled: bool,
    /// Cache mode.
    pub mode: CacheMode,
    /// Cache directory.
    pub cache_dir: String,
    /// Maximum age of entries (`None`: no expiry).
    pub max_age: Option<std::time::Duration>,
    /// Maximum cache size in bytes (`None`: no limit).
    pub max_size: Option<u64>,
    /// Remote cache configuration.
    pub remote: RemoteCacheConfig,
    /// Whether to migrate the cache schema when needed.
    pub auto_migrate: bool,
}

/// The default cache directory: `$XDG_CACHE_HOME/rninja`, else
/// `$HOME/.cache/rninja`, else `.rninja-cache`.
pub open spec fn cache_dir_spec(xdg: Option<Seq<char>>, home: Option<Seq<char>>) -> Seq<char> {
    match xdg {
        Some(x) => spec_path_join(x, "rninja"@),
        None => match home {
            Some(h) => spec_path_join(spec_path_join(h, ".cache"@), "rninja"@),
            None => ".rninja-cache"@,
        },
    }
}

/// The default cache directory, given the values of `XDG_CACHE_HOME` and
/// `HOME` (`None` where unset).
pub fn default_cache_dir(xdg: Option<&str>, home: Option<&str>) -> (d: String)
    ensures
        d@ == cache_dir_spec(
            match xdg {
                Some(x) => Some(x@),
                None => None,
            },
            match home {
                Some(h) => Some(h@),
                None => None,
            },
        ),
{
    match xdg {
        Some(x) => path_join(x, "rninja"),
        None => match home {
            Some(h) => {
                let c = path_join(h, ".cache");
                path_join(c.as_str(), "rninja")
            },
            None => ".rninja-cache".to_owned(),
        },
    }
}

/// Whether `r` has the default timeouts (5 s to connect, 30 s per request)
/// and backoffs (100 ms to 5 s).
pub open spec fn default_durations(r: RemoteCacheConfig) -> bool {
    &&& r.connect_timeout == spec_from_secs(5)
    &&& r.request_timeout == spec_from_secs(30)
    &&& r.initial_backoff == spec_from_millis(100)
    &&& r.max_backoff == spec_from_secs(5)
}

impl Default for CacheConfig {
    /// Enabled, local, in the fallback directory `.rninja-cache`, without
    /// limits, with the default remote configuration and schema migration.
    fn default() -> (c: Self)
        ensures
            c.enabled,
            c.mode == CacheMode::Local,
            c.cache_dir@ == ".rninja-cache"@,
            c.max_age is None,
            c.max_size is None,
            c.remote.server_addr@ == Seq::<char>::empty(),
            c.remote.token@ == Seq::<char>::empty(),
            c.remote.push_policy == PushPolicy::OnSuccess,
            c.remote.pull_policy == PullPolicy::Always,
            c.remote.max_concurrent == 4,
            c.remote.max_retries == 3,
            default_durations(c.remote),
            c.auto_migrate,
    {
        CacheConfig {
            enabled: true,
            mode: CacheMode::Local,
            cache_dir: default_cache_dir(None, None),
            max_age: None,
            max_size: None,
            remote: RemoteCacheConfig::default(),
            auto_migrate: true,
        }
    }
}

impl CacheConfig {
    /// The default configuration with caching disabled.
    pub fn disabled() -> (c: Self)
        ensures
            !c.enabled,
            c.mode == CacheMode::Local,
            c.cache_dir@ == ".rninja-cache"@,
            c.max_age is None,
            c.max_size is None,
            c.remote.server_addr@ == Seq::<char>::empty(),
            c.remote.token@ == Seq::<char>::empty(),
            c.remote.push_policy == PushPolicy::OnSuccess,
            c.remote.pull_policy == PullPolicy::Always,
            c.remote.max_concurrent == 4,
            c.remote.max_retries == 3,
            default_durations(c.remote),
            c.auto_migrate,
    {
        let mut c = CacheConfig::default();
        c.enabled = false;
        c
    }

    /// Whether a remote cache is configured and the mode uses it.
    pub fn has_remote(&self) -> (b: bool)
        ensures
            b == (self.remote.server_addr@.len() > 0 && self.remote.token@.len() > 0 && self.mode
                != CacheMode::Local),
    {
        self.remote.is_configured() && self.mode != CacheMode::Local
    }

    /// Whether stored results go to the remote cache too: a remote is in
    /// use and its push policy is not `Never`.
    pub fn should_push(&self) -> (b: bool)
        ensures
            b == (self.remote.server_addr@.len() > 0 && self.remote.token@.len() > 0 && self.mode
                != CacheMode::Local && self.remote.push_policy != PushPolicy::Never),
    {
        if !self.has_remote() {
            return false;
        }
        match self.remote.push_policy {
            PushPolicy::Never => false,
            PushPolicy::OnSuccess | PushPolicy::Always => true,
        }
    }
}

/// The multiplier of a size suffix: `G`, `M`, `K` (either case) for
/// 2^30, 2^20, 2^10; 1 for anything else.
pub open spec fn size_unit(c: char) -> nat {
    if c == 'G' || c == 'g' {
        1073741824
    } else if c == 'M' || c == 'm' {
        1048576
    } else if c == 'K' || c == 'k' {
        1024
    } else {
        1
    }
}

/// The number of bytes that a size like `1G`, `500M`, `1024K` or `4096`
/// stands for: a `u64` with an optional suffix, after trimming.
pub open spec fn size_value(s: Seq<char>) -> Option<nat> {
    let t = trim(s);
    if t.len() == 0 {
        None
    } else {
        let (num, mult) = if size_unit(t.last()) > 1 {
            (t.drop_last(), size_unit(t.last()))
        } else {
            (t, 1nat)
        };
        match parse_u64(num) {
            Some(n) => Some(n * mult),
            None => None,
        }
    }
}

/// Whether the size that `s` stands for exceeds a `u64`.
pub open spec fn size_overflows(s: Seq<char>) -> bool {
    match size_value(s) {
        Some(v) => v > u64::MAX,
        None => false,
    }
}

fn unit_of(c: char) -> (m: u64)
    ensures
        m as nat == size_unit(c),
{
    if c == 'G' || c == 'g' {
        1073741824
    } else if c == 'M' || c == 'm' {
        1048576
    } else if c == 'K' || c == 'k' {
        1024
    } else {
        1
    }
}

fn size_parts(s: &str) -> (r: Option<(Option<u64>, u64)>)
    ensures
        match r {
            None => trim(s@).len() == 0,
            Some((n, mult)) => {
                let t = trim(s@);
                &&& t.len() > 0
                &&& mult as nat == (if size_unit(t.last()) > 1 {
                    size_unit(t.last())
                } else {
                    1nat
                })
                &&& match parse_u64(
                    if size_unit(t.last()) > 1 {
                        t.drop_last()
                    } else {
                        t
                    },
                ) {
                    Some(v) => n == Some(v as u64),
                    None => n is None,
                }
            },
        },
{
    let sc = chars_of(s);
    let t = trim_chars(&sc);
    if t.len() == 0 {
        return None;
    }
    let u = unit_of(t[t.len() - 1]);
    if u > 1 {
        let num = copy_range(&t, 0, t.len() - 1);
        assert(num@ =~= t@.drop_last());
        Some((parse_u64_chars(&num), u))
    } else {
        Some((parse_u64_chars(&t), 1))
    }
}

/// Parses a size like `1G`, `500M`, `1024K` or plain bytes.  The size must
/// fit in a `u64` (a larger one overflows the multiplication).
pub fn parse_size(s: &str) -> (r: Result<u64, ()>)
    requires
        !size_overflows(s@),
    ensures
        match size_value(s@) {
            Some(v) => r == Ok::<u64, ()>(v as u64),
            None => r is Err,
        },
{
    match size_parts(s) {
        None => Err(()),
        Some((n, mult)) => match n {
            None => Err(()),
            Some(n) => {
                assert(n * mult <= u64::MAX);
                Ok(n * mult)
            },
        },
    }
}

/// Parses a size like `parse_size`; `None` when it would not fit in a
/// `u64`.
pub fn try_parse_size(s: &str) -> (r: Option<Result<u64, ()>>)
    ensures
        size_overflows(s@) <==> r is None,
        !size_overflows(s@) ==> match size_value(s@) {
            Some(v) => r == Some(Ok::<u64, ()>(v as u64)),
            None => r matches Some(Err(_)),
        },
{
    match size_parts(s) {
        None => Some(Err(())),
        Some((n, mult)) => match n {
            None => Some(Err(())),
            Some(n) => match n.checked_mul(mult) {
                Some(v) => Some(Ok(v)),
                None => None,
            },
        },
    }
}

// ---------------------------------------------------------------------------
// The configuration that the environment gives
// ---------------------------------------------------------------------------

/// The value of `name` among `vars`, else `d`.
pub open spec fn var_or(vars: Seq<(Seq<char>, Seq<char>)>, name: Seq<char>, d: Seq<char>) -> Seq<char> {
    match lookup(vars, name) {
        Some(v) => v,
        None => d,
    }
}

/// The variables' push policy: the one named, else on success.
pub open spec fn push_of(vars: Seq<(Seq<char>, Seq<char>)>) -> PushPolicy {
    match lookup(vars, "RNINJA_CACHE_PUSH_POLICY"@) {
        Some(v) => match push_named(v) {
            Some(p) => p,
            None => PushPolicy::OnSuccess,
        },
        None => PushPolicy::OnSuccess,
    }
}

/// The variables' pull policy: the one named, else always.
pub open spec fn pull_of(vars: Seq<(Seq<char>, Seq<char>)>) -> PullPolicy {
    match lookup(vars, "RNINJA_CACHE_PULL_POLICY"@) {
        Some(v) => match pull_named(v) {
            Some(p) => p,
            None => PullPolicy::Always,
        },
        None => PullPolicy::Always,
    }
}

/// The variables' limit of concurrent remote operations, else 4.
pub open spec fn max_concurrent_of(vars: Seq<(Seq<char>, Seq<char>)>) -> usize {
    match lookup(vars, "RNINJA_CACHE_MAX_CONCURRENT"@) {
        Some(v) => match parse_usize(v) {
            Some(n) => n as usize,
            None => 4,
        },
        None => 4,
    }
}

/// The variables' remote server: `RNINJA_CACHE_REMOTE_SERVER`, else
/// `RNINJA_REMOTE_URL`, else none.
pub open spec fn server_of(vars: Seq<(Seq<char>, Seq<char>)>) -> Seq<char> {
    match lookup(vars, "RNINJA_CACHE_REMOTE_SERVER"@) {
        Some(v) => v,
        None => var_or(vars, "RNINJA_REMOTE_URL"@, Seq::empty()),
    }
}

/// Whether the variables name a remote server and a token.
pub open spec fn remote_configured(vars: Seq<(Seq<char>, Seq<char>)>) -> bool {
    server_of(vars).len() > 0 && var_or(
        vars,
        "RNINJA_CACHE_TOKEN"@,
        Seq::empty(),
    ).len() > 0
}

/// The variables' cache mode before the remote is considered: the one
/// named, else local.
pub open spec fn named_mode_of(vars: Seq<(Seq<char>, Seq<char>)>) -> CacheMode {
    match lookup(vars, "RNINJA_CACHE_MODE"@) {
        Some(v) => match mode_named(v) {
            Some(m) => m,
            None => CacheMode::Local,
        },
        None => CacheMode::Local,
    }
}

fn get_var<'a>(vars: &'a StrMap<String>, name: &str) -> (r: Option<&'a str>)
    ensures
        match lookup(vars@, name@) {
            Some(v) => r is Some && r->0@ == v,
            None => r is None,
        },
{
    match vars.get(name) {
        Some(v) => Some(v.as_str()),
        None => None,
    }
}

impl RemoteCacheConfig {
    /// The remote configuration that the environment variables `vars` give:
    /// the server (`RNINJA_CACHE_REMOTE_SERVER`, else `RNINJA_REMOTE_URL`),
    /// `RNINJA_CACHE_TOKEN`, the push and pull
    /// policies, the connect and request timeouts in seconds and
    /// `RNINJA_CACHE_MAX_CONCURRENT`; a value that does not parse leaves the
    /// default.
    pub fn from_vars(vars: &StrMap<String>) -> (c: Self)
        ensures
            c.server_addr@ == server_of(vars@),
            c.token@ == var_or(vars@, "RNINJA_CACHE_TOKEN"@, Seq::empty()),
            c.connect_timeout == spec_from_secs(secs_var(vars@, "RNINJA_CACHE_CONNECT_TIMEOUT"@, 5)),
            c.request_timeout == spec_from_secs(secs_var(vars@, "RNINJA_CACHE_REQUEST_TIMEOUT"@, 30)),
            c.push_policy == push_of(vars@),
            c.pull_policy == pull_of(vars@),
            c.max_concurrent == max_concurrent_of(vars@),
            c.max_retries == 3,
            c.initial_backoff == spec_from_millis(100),
            c.max_backoff == spec_from_secs(5),
    {
        let mut c = RemoteCacheConfig::default();
        if let Some(v) = get_var(vars, "RNINJA_CACHE_REMOTE_SERVER") {
            c.server_addr = crate::text::owned(v);
        } else if let Some(v) = get_var(vars, "RNINJA_REMOTE_URL") {
            c.server_addr = crate::text::owned(v);
        }
        if let Some(v) = get_var(vars, "RNINJA_CACHE_TOKEN") {
            c.token = crate::text::owned(v);
        }
        if let Some(v) = get_var(vars, "RNINJA_CACHE_PUSH_POLICY") {
            if let Some(p) = PushPolicy::from_str(v) {
                c.push_policy = p;
            }
        }
        if let Some(v) = get_var(vars, "RNINJA_CACHE_PULL_POLICY") {
            if let Some(p) = PullPolicy::from_str(v) {
                c.pull_policy = p;
            }
        }
        if let Some(v) = get_var(vars, "RNINJA_CACHE_CONNECT_TIMEOUT") {
            if let Some(n) = parse_u64_chars(&chars_of(v)) {
                c.connect_timeout = secs(n);
            }
        }
        if let Some(v) = get_var(vars, "RNINJA_CACHE_REQUEST_TIMEOUT") {
            if let Some(n) = parse_u64_chars(&chars_of(v)) {
                c.request_timeout = secs(n);
            }
        }
        if let Some(v) = get_var(vars, "RNINJA_CACHE_MAX_CONCURRENT") {
            if let Some(n) = parse_usize_chars(&chars_of(v)) {
                c.max_concurrent = n;
            }
        }
        c
    }
}

impl CacheConfig {
    /// The configuration that the environment variables `vars` give: the
    /// directory (`RNINJA_CACHE_DIR`, else from `XDG_CACHE_HOME` or `HOME`),
    /// whether caching is on (`RNINJA_CACHE_ENABLED` other than `0` and
    /// `false` in any case), the age limit in seconds, the size limit, the
    /// mode, and the remote configuration; a remote that is configured turns
    /// the local mode into the automatic one.  A value that does not parse
    /// leaves the default.
    pub fn from_vars(vars: &StrMap<String>) -> (c: Self)
        requires
            lookup(vars@, "RNINJA_CACHE_MAX_SIZE"@) matches Some(v) ==> !size_overflows(v),
        ensures
            c.cache_dir@ == match lookup(vars@, "RNINJA_CACHE_DIR"@) {
                Some(d) => d,
                None => cache_dir_spec(
                    lookup(vars@, "XDG_CACHE_HOME"@),
                    lookup(vars@, "HOME"@),
                ),
            },
            c.enabled == match lookup(vars@, "RNINJA_CACHE_ENABLED"@) {
                Some(v) => v != "0"@ && spec_to_lowercase(v) != "false"@,
                None => true,
            },
            c.max_age == match lookup(vars@, "RNINJA_CACHE_MAX_AGE"@) {
                Some(v) => match parse_u64(v) {
                    Some(n) => Some(spec_from_secs(n as u64)),
                    None => None,
                },
                None => None,
            },
            c.max_size == match lookup(vars@, "RNINJA_CACHE_MAX_SIZE"@) {
                Some(v) => match size_value(v) {
                    Some(b) => Some(b as u64),
                    None => None,
                },
                None => None,
            },
            c.mode == (if remote_configured(vars@) && named_mode_of(vars@) == CacheMode::Local {
                CacheMode::Auto
            } else {
                named_mode_of(vars@)
            }),
            c.remote.server_addr@ == server_of(vars@),
            c.remote.token@ == var_or(vars@, "RNINJA_CACHE_TOKEN"@, Seq::empty()),
            c.remote.push_policy == push_of(vars@),
            c.remote.pull_policy == pull_of(vars@),
            c.remote.max_concurrent == max_concurrent_of(vars@),
            c.remote.max_retries == 3,
            c.remote.connect_timeout == spec_from_secs(secs_var(vars@, "RNINJA_CACHE_CONNECT_TIMEOUT"@, 5)),
            c.remote.request_timeout == spec_from_secs(secs_var(vars@, "RNINJA_CACHE_REQUEST_TIMEOUT"@, 30)),
            c.remote.initial_backoff == spec_from_millis(100),
            c.remote.max_backoff == spec_from_secs(5),
            c.auto_migrate,
    {
        let xdg = get_var(vars, "XDG_CACHE_HOME");
        let home = get_var(vars, "HOME");
        let mut cache_dir = default_cache_dir(xdg, home);
        if let Some(d) = get_var(vars, "RNINJA_CACHE_DIR") {
            cache_dir = crate::text::owned(d);
        }
        let mut enabled = true;
        if let Some(v) = get_var(vars, "RNINJA_CACHE_ENABLED") {
            proof {
                reveal_strlit("0");
                reveal_strlit("false");
            }
            let low = to_lowercase(v);
            enabled = !crate::strmap::str_eq(v, "0") && !crate::strmap::str_eq(low.as_str(), "false");
        }
        let mut max_age: Option<std::time::Duration> = None;
        if let Some(v) = get_var(vars, "RNINJA_CACHE_MAX_AGE") {
            if let Some(n) = parse_u64_chars(&chars_of(v)) {
                max_age = Some(secs(n));
            }
        }
        let mut max_size: Option<u64> = None;
        if let Some(v) = get_var(vars, "RNINJA_CACHE_MAX_SIZE") {
            if let Ok(b) = parse_size(v) {
                max_size = Some(b);
            }
        }
        let mut mode = CacheMode::Local;
        if let Some(v) = get_var(vars, "RNINJA_CACHE_MODE") {
            if let Some(m) = CacheMode::from_str(v) {
                mode = m;
            }
        }
        let remote = RemoteCacheConfig::from_vars(vars);
        if remote.is_configured() && mode == CacheMode::Local {
            mode = CacheMode::Auto;
        }
        CacheConfig { enabled, mode, cache_dir, max_age, max_size, remote, auto_migrate: true }
    }
}

} // verus!
