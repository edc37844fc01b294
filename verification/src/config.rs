//! The user configuration file: its settings, defaults and the places it is
//! looked for.  Reading and parsing the file (TOML) is the program's part.
use vstd::prelude::*;
use crate::parser::{path_join, spec_path_join};
use crate::text::views;

verus! {

/// The user configuration.
#[derive(Debug, Clone)]
pub struct Config {
    /// Build settings.
    pub build: BuildConfig,
    /// Cache settings.
    pub cache: CacheConfig,
    /// Output settings.
    pub output: OutputConfig,
}

/// Build settings.
#[derive(Debug, Clone)]
pub struct BuildConfig {
    /// Number of parallel jobs (0: one per CPU).
    pub jobs: usize,
    /// How many failures to allow before stopping.
    pub keep_going: usize,
    /// Whether to explain rebuilds.
    pub explain: bool,
    /// Default targets.
    pub default_targets: Vec<String>,
}

/// Cache settings.
#[derive(Debug, Clone)]
pub struct CacheConfig {
    pub enabled: bool,
    /// `local`, `remote` or `auto`.
    pub mode: String,
    pub directory: Option<String>,
    pub max_size: Option<u64>,
    pub daemon_socket: Option<String>,
}

/// Output settings.
#[derive(Debug, Clone)]
pub struct OutputConfig {
    pub verbose: bool,
    pub stats: bool,
    /// `auto`, `always` or `never`.
    pub color: String,
    pub trace_file: Option<String>,
}

impl Default for BuildConfig {
    /// One job per CPU, stop at the first failure, no explanations, no
    /// default targets.
    fn default() -> (c: Self)
        ensures
            c.jobs == 0,
            c.keep_going == 1,
            !c.explain,
            c.default_targets@.len() == 0,
    {
        BuildConfig { jobs: 0, keep_going: 1, explain: false, default_targets: Vec::new() }
    }
}

impl Default for CacheConfig {
    /// Enabled, in `auto` mode, with no directory, size limit or socket set.
    fn default() -> (c: Self)
        ensures
            c.enabled,
            c.mode@ == "auto"@,
            c.directory is None,
            c.max_size is None,
            c.daemon_socket is None,
    {
        CacheConfig {
            enabled: true,
            mode: "auto".to_owned(),
            directory: None,
            max_size: None,
            daemon_socket: None,
        }
    }
}

impl Default for OutputConfig {
    /// Quiet, without statistics, colors chosen automatically, no trace.
    fn default() -> (c: Self)
        ensures
            !c.verbose,
            !c.stats,
            c.color@ == "auto"@,
            c.trace_file is None,
    {
        OutputConfig { verbose: false, stats: false, color: "auto".to_owned(), trace_file: None }
    }
}

impl Default for Config {
    /// The defaults of each section.
    fn default() -> (c: Self)
        ensures
            c.build.jobs == 0,
            c.build.keep_going == 1,
            !c.build.explain,
            c.build.default_targets@.len() == 0,
            c.cache.enabled,
            c.cache.mode@ == "auto"@,
            c.cache.directory is None,
            c.cache.max_size is None,
            c.cache.daemon_socket is None,
            !c.output.verbose,
            !c.output.stats,
            c.output.color@ == "auto"@,
            c.output.trace_file is None,
    {
        Config { build: BuildConfig::default(), cache: CacheConfig::default(), output: OutputConfig::default() }
    }
}

/// The configuration files to try, most important first: `.rninjarc`,
/// then `~/.rninjarc` when the home directory is known, then
/// `rninja/config.toml` in the configuration directory when it is known.
pub open spec fn config_paths_spec(home: Option<Seq<char>>, config_dir: Option<Seq<char>>) -> Seq<Seq<char>> {
    seq![".rninjarc"@] + match home {
        Some(h) => seq![spec_path_join(h, ".rninjarc"@)],
        None => Seq::empty(),
    } + match config_dir {
        Some(d) => seq![spec_path_join(spec_path_join(d, "rninja"@), "config.toml"@)],
        None => Seq::empty(),
    }
}

/// A commented sample configuration file with the default settings.
pub const SAMPLE_CONFIG: &'static str = r#"# rninja configuration file

[build]
# Number of parallel jobs (0 = number of CPUs)
jobs = 0

# How many failures to allow before stopping (0 = keep going forever)
keep_going = 1

# Whether to explain why targets are rebuilt
explain = false

# Default targets to build (empty = use manifest defaults)
default_targets = []

[cache]
# Enable the build cache
enabled = true

# Cache mode: "local", "remote", or "auto"
# auto = try remote first, fall back to local
mode = "auto"

# Cache directory (default: ~/.cache/rninja)
# directory = "/path/to/cache"

# Maximum cache size in bytes (default: 10GB)
# max_size = 10737418240

# Remote cache daemon socket path
# daemon_socket = "/tmp/rninja-daemon.sock"

[output]
# Show verbose output by default
verbose = false

# Show build statistics at the end
stats = false

# Enable colored output: "auto", "always", or "never"
color = "auto"

# Trace output file (if set, always generate trace)
# trace_file = "build_trace.json"
"#;

impl Config {
    /// A commented sample configuration file with the default settings.
    pub fn sample_config() -> (s: &'static str)
        ensures
            s@ == SAMPLE_CONFIG@,
    {
        SAMPLE_CONFIG
    }

    /// The configuration files to try, given the home and configuration
    /// directories.
    pub fn config_paths(home: Option<&str>, config_dir: Option<&str>) -> (r: Vec<String>)
        ensures
            views(r@) == config_paths_spec(
                match home {
                    Some(h) => Some(h@),
                    None => None,
                },
                match config_dir {
                    Some(d) => Some(d@),
                    None => None,
                },
            ),
    {
        let mut r: Vec<String> = Vec::new();
        r.push(".rninjarc".to_owned());
        match home {
            Some(h) => r.push(path_join(h, ".rninjarc")),
            None => {},
        }
        match config_dir {
            Some(d) => {
                let a = path_join(d, "rninja");
                r.push(path_join(a.as_str(), "config.toml"));
            },
            None => {},
        }
        assert(views(r@) =~= config_paths_spec(
            match home {
                Some(h) => Some(h@),
                None => None,
            },
            match config_dir {
                Some(d) => Some(d@),
                None => None,
            },
        ));
        r
    }

    /// The file to write a configuration to: `rninja/config.toml` in the
    /// configuration directory, when it is known.
    pub fn default_config_path(config_dir: Option<&str>) -> (r: Option<String>)
        ensures
            match config_dir {
                Some(d) => r is Some && r->0@ == spec_path_join(spec_path_join(d@, "rninja"@), "config.toml"@),
                None => r is None,
            },
    {
        match config_dir {
            Some(d) => {
                let a = path_join(d, "rninja");
                Some(path_join(a.as_str(), "config.toml"))
            },
            None => None,
        }
    }
}

} // verus!
