//! Build execution: the statistics of a build and the depfile reader.
//! Running commands is the program's part.
pub mod depfile;
pub mod schedule;

use vstd::prelude::*;
use crate::error::ExecError;
use crate::strmap::{lookup, StrMap};
use crate::text::{decimal, push_decimal, push_str, string_of};

verus! {

/// Build statistics.
#[derive(Debug, Default, Clone, Copy)]
pub struct Stats {
    pub started: usize,
    pub finished: usize,
    pub failed: usize,
    pub skipped: usize,
    pub cache_hits: usize,
    pub cache_misses: usize,
    pub total_time: std::time::Duration,
}

/// The command a node runs: none for a phony node or a node without one.
pub fn command_to_run<'a>(is_phony: bool, command: Option<&'a str>) -> (r: Option<&'a str>)
    ensures
        r == (if is_phony {
            None
        } else {
            command
        }),
{
    if is_phony {
        None
    } else {
        command
    }
}

/// The text that a node's progress line shows: the command when verbose,
/// else the description, else the command.
pub open spec fn shown_text(description: Option<Seq<char>>, command: Seq<char>, verbose: bool) -> Seq<
    char,
> {
    if verbose {
        command
    } else {
        match description {
            Some(d) => d,
            None => command,
        }
    }
}

/// The progress line of a node: `[idx/total] text`.
pub fn status_line(idx: usize, total: usize, description: Option<&str>, command: &str, verbose: bool) -> (s:
    String)
    ensures
        s@ == seq!['['] + decimal(idx as nat) + seq!['/'] + decimal(total as nat) + seq![']', ' ']
            + shown_text(
            match description {
                Some(d) => Some(d@),
                None => None,
            },
            command@,
            verbose,
        ),
{
    let mut v: Vec<char> = Vec::new();
    v.push('[');
    push_decimal(&mut v, idx as u64);
    v.push('/');
    push_decimal(&mut v, total as u64);
    v.push(']');
    v.push(' ');
    let text = if verbose {
        command
    } else {
        match description {
            Some(d) => d,
            None => command,
        }
    };
    push_str(&mut v, text);
    string_of(&v)
}

/// The result of a node's command from its exit code (`None` when a signal
/// ended it): it ran when the code is 0, else it failed with the code (-1
/// without one).
pub fn command_result(command: &str, exit_code: Option<i32>) -> (r: Result<bool, ExecError>)
    ensures
        exit_code == Some(0i32) ==> r == Ok::<bool, ExecError>(true),
        exit_code != Some(0i32) ==> (r matches Err(ExecError::CommandFailed { command: c, code })
            && c@ == command@ && code == match exit_code {
            Some(k) => k,
            None => -1i32,
        }),
{
    match exit_code {
        Some(0) => Ok(true),
        _ => {
            let code = match exit_code {
                Some(k) => k,
                None => -1,
            };
            Err(ExecError::CommandFailed { command: crate::text::owned(command), code })
        },
    }
}

/// The environment variables that commonly change what a build produces;
/// they enter each action's cache key.
pub const RELEVANT_ENV_KEYS: [&'static str; 12] = [
    "CC",
    "CXX",
    "LD",
    "AR",
    "RANLIB",
    "STRIP",
    "CFLAGS",
    "CXXFLAGS",
    "LDFLAGS",
    "CPPFLAGS",
    "RUSTFLAGS",
    "PATH",
];

/// The names of `RELEVANT_ENV_KEYS`.
pub open spec fn relevant_keys() -> Seq<Seq<char>> {
    seq![
        "CC"@,
        "CXX"@,
        "LD"@,
        "AR"@,
        "RANLIB"@,
        "STRIP"@,
        "CFLAGS"@,
        "CXXFLAGS"@,
        "LDFLAGS"@,
        "CPPFLAGS"@,
        "RUSTFLAGS"@,
        "PATH"@,
    ]
}

/// The (name, value) pairs of the names in `keys` that `vars` sets, in the
/// order of `keys`.
pub open spec fn present_vars(keys: Seq<Seq<char>>, vars: Seq<(Seq<char>, Seq<char>)>) -> Seq<
    (Seq<char>, Seq<char>),
>
    decreases keys.len(),
{
    if keys.len() == 0 {
        Seq::empty()
    } else {
        present_vars(keys.drop_last(), vars) + match lookup(vars, keys.last()) {
            Some(v) => seq![(keys.last(), v)],
            None => Seq::empty(),
        }
    }
}

/// The relevant environment variables that `vars` (the environment) sets,
/// in the order of `RELEVANT_ENV_KEYS`.
pub fn relevant_env_vars(vars: &StrMap<String>) -> (r: Vec<(String, String)>)
    ensures
        r@.map_values(|p: (String, String)| (p.0@, p.1@)) == present_vars(relevant_keys(), vars@),
{
    let keys = RELEVANT_ENV_KEYS;
    let ghost ks = relevant_keys();
    proof {
        reveal_strlit("CC");
        reveal_strlit("CXX");
        reveal_strlit("LD");
        reveal_strlit("AR");
        reveal_strlit("RANLIB");
        reveal_strlit("STRIP");
        reveal_strlit("CFLAGS");
        reveal_strlit("CXXFLAGS");
        reveal_strlit("LDFLAGS");
        reveal_strlit("CPPFLAGS");
        reveal_strlit("RUSTFLAGS");
        reveal_strlit("PATH");
        assert(forall|i: int| 0 <= i < 12 ==> (#[trigger] keys@[i])@ == ks[i]);
    }
    let mut r: Vec<(String, String)> = Vec::new();
    let mut i: usize = 0;
    while i < 12
        invariant
            i <= 12,
            ks == relevant_keys(),
            forall|j: int| 0 <= j < 12 ==> (#[trigger] keys@[j])@ == ks[j],
            r@.map_values(|p: (String, String)| (p.0@, p.1@)) == present_vars(ks.take(i as int), vars@),
        decreases 12 - i,
    {
        let k = keys[i];
        let ghost r0 = r@.map_values(|p: (String, String)| (p.0@, p.1@));
        match vars.get(k) {
            Some(v) => {
                r.push((k.to_owned(), v.clone()));
                proof {
                    assert(r@.map_values(|p: (String, String)| (p.0@, p.1@)) =~= r0.push((ks[i as int], v@)));
                }
            },
            None => {},
        }
        proof {
            let t = ks.take(i + 1);
            assert(t.drop_last() =~= ks.take(i as int));
            assert(t.last() == ks[i as int]);
        }
        i = i + 1;
    }
    proof {
        assert(ks.take(12) =~= ks);
    }
    r
}

/// The first dependency of `deps` whose time in `dep_times` is later than
/// the output's time `out`, from position `i` on; dependencies without a
/// time are passed over.
pub open spec fn first_newer(deps: Seq<Seq<char>>, dep_times: Seq<Option<u128>>, out: u128, i: int) -> Option<
    Seq<char>,
>
    decreases deps.len() - i,
{
    if i < 0 || i >= deps.len() || i >= dep_times.len() {
        None
    } else if dep_times[i] matches Some(t) && t > out {
        Some(deps[i])
    } else {
        first_newer(deps, dep_times, out, i + 1)
    }
}

/// Why the node `path` is rebuilt, as `ninja explain` tells it: its output
/// is missing, or the first dependency newer than it; nothing when neither
/// can be told.  `exists` and `output_time` describe the output,
/// `dep_times` the dependencies `deps` (`None` where a time is unknown).
pub fn explain_rebuild(
    path: &str,
    exists: bool,
    output_time: Option<u128>,
    deps: &Vec<String>,
    dep_times: &Vec<Option<u128>>,
) -> (r: Option<String>)
    ensures
        !exists ==> (r matches Some(m) && m@ == "ninja explain: "@ + path@ + " is missing"@),
        exists ==> match output_time {
            None => r is None,
            Some(o) => match first_newer(crate::text::views(deps@), dep_times@, o, 0) {
                Some(d) => r matches Some(m) && m@ == "ninja explain: "@ + d + " is newer than "@ + path@,
                None => r is None,
            },
        },
{
    if !exists {
        let mut v: Vec<char> = Vec::new();
        push_str(&mut v, "ninja explain: ");
        push_str(&mut v, path);
        push_str(&mut v, " is missing");
        return Some(string_of(&v));
    }
    let o = match output_time {
        Some(o) => o,
        None => {
            return None;
        },
    };
    let ghost ds = crate::text::views(deps@);
    let mut i: usize = 0;
    while i < deps.len() && i < dep_times.len()
        invariant
            exists,
            output_time == Some(o),
            i <= deps@.len(),
            ds == crate::text::views(deps@),
            ds.len() == deps@.len(),
            first_newer(ds, dep_times@, o, 0) == first_newer(ds, dep_times@, o, i as int),
        decreases deps.len() - i,
    {
        proof {
            assert(ds[i as int] == deps@[i as int]@);
        }
        match dep_times[i] {
            Some(t) => {
                if t > o {
                    let mut v: Vec<char> = Vec::new();
                    push_str(&mut v, "ninja explain: ");
                    push_str(&mut v, deps[i].as_str());
                    push_str(&mut v, " is newer than ");
                    push_str(&mut v, path);
                    return Some(string_of(&v));
                }
            },
            None => {},
        }
        i = i + 1;
    }
    None
}

} // verus!
