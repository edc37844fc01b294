//! Configuration of the cache server.
//!
//! Reading the configuration file and the environment is the program's
//! part: it hands the environment over as a map.  The default storage
//! directory here is the fallback one.
use vstd::prelude::*;
use crate::parser::{path_join, spec_path_join};
use crate::strmap::{lookup, StrMap};
use crate::text::{chars_of, cviews, parse_u64, parse_u64_chars, split_at_char, split_on, string_of, trim, trim_chars, views};

pub use crate::cache::config::{parse_size, size_overflows, size_value, try_parse_size};

verus! {

/// The cache server's configuration.
#[derive(Debug, Clone)]
pub struct ServerConfig {
    pub listen_addr: String,
    pub storage_dir: String,
    pub max_storage_size: Option<u64>,
    pub auth: AuthConfig,
    pub workers: usize,
    pub max_connections: usize,
    pub entry_ttl_secs: Option<u64>,
}

/// Authentication settings.
#[derive(Debug, Clone)]
pub struct AuthConfig {
    pub tokens: Vec<String>,
    pub require_auth: bool,
}

impl Default for AuthConfig {
    /// No tokens; authentication required.
    fn default() -> (c: Self)
        ensures
            c.tokens@.len() == 0,
            c.require_auth,
    {
        AuthConfig { tokens: Vec::new(), require_auth: true }
    }
}

/// The default storage directory: `$XDG_DATA_HOME/rninja-cached`, else
/// `$HOME/.local/share/rninja-cached`, else `/var/cache/rninja-cached`.
pub open spec fn storage_dir_spec(xdg: Option<Seq<char>>, home: Option<Seq<char>>) -> Seq<char> {
    match xdg {
        Some(x) => spec_path_join(x, "rninja-cached"@),
        None => match home {
            Some(h) => spec_path_join(
                spec_path_join(spec_path_join(h, ".local"@), "share"@),
                "rninja-cached"@,
            ),
            None => "/var/cache/rninja-cached"@,
        },
    }
}

/// The default storage directory, given the values of `XDG_DATA_HOME` and
/// `HOME` (`None` where unset).
pub fn default_storage_dir(xdg: Option<&str>, home: Option<&str>) -> (d: String)
    ensures
        d@ == storage_dir_spec(
            match xdg {
                Some(x) => Some(x@),
                None => None,
            },
            match home {
                Some(h) => Some(h@),
                None => None,
            },
        ),
{
    match xdg {
        Some(x) => path_join(x, "rninja-cached"),
        None => match home {
            Some(h) => {
                let a = path_join(h, ".local");
                let b = path_join(a.as_str(), "share");
                path_join(b.as_str(), "rninja-cached")
            },
            None => "/var/cache/rninja-cached".to_owned(),
        },
    }
}

impl ServerConfig {
    /// The default configuration with the storage directory `storage_dir`:
    /// listening on `tcp://0.0.0.0:9999`, no size limit, default
    /// authentication, automatic worker count, 100 connections, no expiry.
    pub fn with_storage_dir(storage_dir: String) -> (c: Self)
        ensures
            c.listen_addr@ == "tcp://0.0.0.0:9999"@,
            c.storage_dir == storage_dir,
            c.max_storage_size is None,
            c.auth.tokens@.len() == 0,
            c.auth.require_auth,
            c.workers == 0,
            c.max_connections == 100,
            c.entry_ttl_secs is None,
    {
        ServerConfig {
            listen_addr: "tcp://0.0.0.0:9999".to_owned(),
            storage_dir,
            max_storage_size: None,
            auth: AuthConfig::default(),
            workers: 0,
            max_connections: 100,
            entry_ttl_secs: None,
        }
    }

    /// How long entries live, when they expire: `entry_ttl_secs` seconds.
    pub fn entry_ttl(&self) -> (d: Option<std::time::Duration>)
        ensures
            d == match self.entry_ttl_secs {
                Some(s) => Some(crate::cache::config::spec_from_secs(s)),
                None => None,
            },
    {
        match self.entry_ttl_secs {
            Some(s) => Some(crate::cache::config::secs(s)),
            None => None,
        }
    }
}

impl Default for ServerConfig {
    /// The default configuration with the fallback storage directory
    /// `/var/cache/rninja-cached`.
    fn default() -> (c: Self)
        ensures
            c.listen_addr@ == "tcp://0.0.0.0:9999"@,
            c.storage_dir@ == "/var/cache/rninja-cached"@,
            c.max_storage_size is None,
            c.auth.tokens@.len() == 0,
            c.auth.require_auth,
            c.workers == 0,
            c.max_connections == 100,
            c.entry_ttl_secs is None,
    {
        ServerConfig::with_storage_dir(default_storage_dir(None, None))
    }
}

/// The tokens of a comma-separated list, each trimmed.
pub open spec fn token_list(s: Seq<char>) -> Seq<Seq<char>> {
    split_on(s, ',').map_values(|t: Seq<char>| trim(t))
}

/// The tokens of the comma-separated list `s`, each trimmed.
pub fn parse_tokens(s: &str) -> (r: Vec<String>)
    ensures
        views(r@) == token_list(s@),
{
    let pieces = split_at_char(&chars_of(s), ',');
    let ghost pv = cviews(pieces@);
    let mut toks: Vec<String> = Vec::new();
    let mut i: usize = 0;
    while i < pieces.len()
        invariant
            i <= pieces@.len(),
            pv == cviews(pieces@),
            views(toks@) == pv.take(i as int).map_values(|x: Seq<char>| trim(x)),
        decreases pieces@.len() - i,
    {
        let ghost t0 = views(toks@);
        let p = trim_chars(&pieces[i]);
        toks.push(string_of(&p));
        i = i + 1;
        proof {
            assert(views(toks@) =~= t0.push(trim(pv[i - 1])));
            assert(pv.take(i as int).map_values(|x: Seq<char>| trim(x)) =~= pv.take(i - 1).map_values(
                |x: Seq<char>| trim(x),
            ).push(trim(pv[i - 1])));
        }
    }
    proof {
        assert(pv.take(i as int) =~= pv);
    }
    toks
}

impl ServerConfig {
    /// The configuration that the environment variables `vars` give:
    /// `RNINJA_SERVER_LISTEN`, `RNINJA_SERVER_STORAGE` (else the directory
    /// from `XDG_DATA_HOME` or `HOME`), the size limit
    /// `RNINJA_SERVER_MAX_SIZE`, the comma-separated tokens
    /// `RNINJA_SERVER_TOKENS` and the time-to-live in seconds
    /// `RNINJA_SERVER_ENTRY_TTL`; a value that does not parse leaves the
    /// default.
    pub fn from_vars(vars: &StrMap<String>) -> (c: Self)
        requires
            lookup(vars@, "RNINJA_SERVER_MAX_SIZE"@) matches Some(v) ==> !size_overflows(v),
        ensures
            c.listen_addr@ == match lookup(vars@, "RNINJA_SERVER_LISTEN"@) {
                Some(a) => a,
                None => "tcp://0.0.0.0:9999"@,
            },
            c.storage_dir@ == match lookup(vars@, "RNINJA_SERVER_STORAGE"@) {
                Some(d) => d,
                None => storage_dir_spec(lookup(vars@, "XDG_DATA_HOME"@), lookup(vars@, "HOME"@)),
            },
            c.max_storage_size == match lookup(vars@, "RNINJA_SERVER_MAX_SIZE"@) {
                Some(v) => match size_value(v) {
                    Some(b) => Some(b as u64),
                    None => None,
                },
                None => None,
            },
            views(c.auth.tokens@) == match lookup(vars@, "RNINJA_SERVER_TOKENS"@) {
                Some(t) => token_list(t),
                None => Seq::empty(),
            },
            c.auth.require_auth,
            c.workers == 0,
            c.max_connections == 100,
            c.entry_ttl_secs == match lookup(vars@, "RNINJA_SERVER_ENTRY_TTL"@) {
                Some(v) => match parse_u64(v) {
                    Some(n) => Some(n as u64),
                    None => None,
                },
                None => None,
            },
    {
        let xdg = match vars.get("XDG_DATA_HOME") {
            Some(v) => Some(v.as_str()),
            None => None,
        };
        let home = match vars.get("HOME") {
            Some(v) => Some(v.as_str()),
            None => None,
        };
        let mut c = ServerConfig::with_storage_dir(default_storage_dir(xdg, home));
        if let Some(a) = vars.get("RNINJA_SERVER_LISTEN") {
            c.listen_addr = a.clone();
        }
        if let Some(d) = vars.get("RNINJA_SERVER_STORAGE") {
            c.storage_dir = d.clone();
        }
        if let Some(v) = vars.get("RNINJA_SERVER_MAX_SIZE") {
            if let Ok(b) = parse_size(v.as_str()) {
                c.max_storage_size = Some(b);
            }
        }
        if let Some(t) = vars.get("RNINJA_SERVER_TOKENS") {
            c.auth.tokens = parse_tokens(t.as_str());
        }
        if let Some(v) = vars.get("RNINJA_SERVER_ENTRY_TTL") {
            if let Some(n) = parse_u64_chars(&chars_of(v.as_str())) {
                c.entry_ttl_secs = Some(n);
            }
        }
        c
    }
}

} // verus!
