//! The build log (ninja's `.ninja_log` format) and the modification-time
//! cache that make no-op builds fast.
//!
//! Reading and writing the log file and asking the file system for
//! modification times are the caller's part: `BuildLog::open` takes the
//! lines that were read, `BuildLog::to_text` gives the text to write, and
//! the `MtimeCache` holds the times that were asked for.
use vstd::prelude::*;
use std::hash::{Hash, Hasher};
use crate::graph::node::NodeView;
use crate::graph::{node_refs, nodes_of, str_views, topo_from, Graph};
use crate::parser::path_join;
use crate::strmap::{distinct_keys, has_key, insert_kv, keys_of, lookup, remove_kv, StrMap};
use crate::text::{
    chars_of, cviews, decimal, free_of, has_prefix, is_digit, lemma_decimal, lemma_lines_append_free,
    lemma_lines_push_nl, lemma_parse_decimal, lemma_split_five, lines, lines_acc, parse_u64,
    parse_u64_chars, push_str, split_at_tabs, split_tabs, starts_with, string_of, strip_cr, tab_join5,
    views,
};

verus! {

/// An entry of the build log.
#[derive(Debug, Clone)]
pub struct LogEntry {
    /// Start time of the build step (ms since the epoch).
    pub start_time_ms: u64,
    /// End time of the build step.
    pub end_time_ms: u64,
    /// Modification time of the output after the build (ns since the epoch).
    pub mtime_ns: u64,
    /// Output path.
    pub output: String,
    /// Hash of the command.
    pub command_hash: u64,
}

/// The mathematical value of a `LogEntry`.
pub struct LogEntryView {
    pub start_time_ms: u64,
    pub end_time_ms: u64,
    pub mtime_ns: u64,
    pub output: Seq<char>,
    pub command_hash: u64,
}

impl View for LogEntry {
    type V = LogEntryView;

    open spec fn view(&self) -> LogEntryView {
        LogEntryView {
            start_time_ms: self.start_time_ms,
            end_time_ms: self.end_time_ms,
            mtime_ns: self.mtime_ns,
            output: self.output@,
            command_hash: self.command_hash,
        }
    }
}

/// The build log.
#[derive(Debug)]
pub struct BuildLog {
    path: String,
    entries: StrMap<LogEntry>,
    dirty: bool,
}

/// The mathematical value of a `BuildLog`.
pub struct BuildLogView {
    pub path: Seq<char>,
    pub entries: Seq<(Seq<char>, LogEntryView)>,
    pub dirty: bool,
}

impl View for BuildLog {
    type V = BuildLogView;

    closed spec fn view(&self) -> BuildLogView {
        BuildLogView { path: self.path@, entries: self.entries@, dirty: self.dirty }
    }
}

/// The entry of one line of the log: five tab-separated fields, the first
/// three and the fifth unsigned 64-bit numbers.
pub open spec fn log_line(l: Seq<char>) -> Option<LogEntryView> {
    let parts = split_tabs(l);
    if parts.len() >= 5 {
        match (parse_u64(parts[0]), parse_u64(parts[1]), parse_u64(parts[2]), parse_u64(parts[4])) {
            (Some(a), Some(b), Some(c), Some(h)) => Some(
                LogEntryView {
                    start_time_ms: a as u64,
                    end_time_ms: b as u64,
                    mtime_ns: c as u64,
                    output: parts[3],
                    command_hash: h as u64,
                },
            ),
            _ => None,
        }
    } else {
        None
    }
}

/// The entries after the lines from the `k`-th on; unreadable lines and
/// lines that are no entry are passed over, and a later entry for an
/// output replaces an earlier one.
pub open spec fn load_from(
    lines: Seq<Option<Seq<char>>>,
    k: int,
    acc: Seq<(Seq<char>, LogEntryView)>,
) -> Seq<(Seq<char>, LogEntryView)>
    decreases lines.len() - k,
{
    if k < 0 || k >= lines.len() {
        acc
    } else {
        let acc2 = match lines[k] {
            Some(l) => match log_line(l) {
                Some(e) => insert_kv(acc, e.output, e),
                None => acc,
            },
            None => acc,
        };
        load_from(lines, k + 1, acc2)
    }
}

/// Whether the first line is readable and is no log header.
pub open spec fn bad_header(l: Option<Seq<char>>) -> bool {
    match l {
        Some(h) => !has_prefix(h, "# ninja log v"@),
        None => false,
    }
}

/// The entries of a log file read as `lines` (`None` when it could not be
/// opened, each line `None` when it could not be read): none without a file
/// or with a wrong header; else those of the lines after the first.
pub open spec fn load_log(lines: Option<Seq<Option<Seq<char>>>>) -> Seq<(Seq<char>, LogEntryView)> {
    match lines {
        None => Seq::empty(),
        Some(ls) => if ls.len() > 0 && bad_header(ls[0]) {
            Seq::empty()
        } else {
            load_from(ls, 1, Seq::empty())
        },
    }
}

/// The view of an optional line.
pub open spec fn line_view(l: Option<String>) -> Option<Seq<char>> {
    match l {
        Some(s) => Some(s@),
        None => None,
    }
}

/// The views of the lines of a log file.
pub open spec fn lines_view(o: Option<Vec<Option<String>>>) -> Option<Seq<Option<Seq<char>>>> {
    match o {
        Some(v) => Some(v@.map_values(|l: Option<String>| line_view(l))),
        None => None,
    }
}

/// The text of one log entry: its five fields separated by tabs, and a
/// newline.
pub open spec fn entry_line(e: LogEntryView) -> Seq<char> {
    decimal(e.start_time_ms as nat) + "\t"@ + decimal(e.end_time_ms as nat) + "\t"@ + decimal(
        e.mtime_ns as nat,
    ) + "\t"@ + e.output + "\t"@ + decimal(e.command_hash as nat) + "\n"@
}

/// The lines of the entries of `es`, in order.
pub open spec fn entries_text(es: Seq<(Seq<char>, LogEntryView)>) -> Seq<char>
    decreases es.len(),
{
    if es.len() == 0 {
        Seq::empty()
    } else {
        entries_text(es.drop_last()) + entry_line(es.last().1)
    }
}

/// The text of a log file.
pub open spec fn log_text(es: Seq<(Seq<char>, LogEntryView)>) -> Seq<char> {
    "# ninja log v5\n"@ + entries_text(es)
}

fn parse_log_line(l: &str) -> (r: Option<LogEntry>)
    ensures
        match log_line(l@) {
            Some(e) => r is Some && r->0@ == e,
            None => r is None,
        },
{
    let lc = chars_of(l);
    let parts = split_at_tabs(&lc);
    if parts.len() < 5 {
        return None;
    }
    let a = parse_u64_chars(&parts[0]);
    let b = parse_u64_chars(&parts[1]);
    let c = parse_u64_chars(&parts[2]);
    let h = parse_u64_chars(&parts[4]);
    match (a, b, c, h) {
        (Some(a), Some(b), Some(c), Some(h)) => Some(
            LogEntry {
                start_time_ms: a,
                end_time_ms: b,
                mtime_ns: c,
                output: string_of(&parts[3]),
                command_hash: h,
            },
        ),
        _ => None,
    }
}

impl BuildLog {
    /// The build log of directory `dir`, at `dir/.ninja_log`, loaded from
    /// the lines read from that file (`None` when it could not be opened).
    pub fn open(dir: &str, lines: Option<Vec<Option<String>>>) -> (log: Self)
        ensures
            log@.path == crate::parser::spec_path_join(dir@, ".ninja_log"@),
            log@.entries == load_log(lines_view(lines)),
            !log@.dirty,
    {
        let path = path_join(dir, ".ninja_log");
        let mut entries: StrMap<LogEntry> = StrMap::new();
        match lines {
            None => {},
            Some(ls) => {
                let ghost lv = ls@.map_values(|l: Option<String>| line_view(l));
                let bad = if ls.len() > 0 {
                    match &ls[0] {
                        Some(h) => {
                            let hc = chars_of(h.as_str());
                            let pre = chars_of("# ninja log v");
                            !starts_with(&hc, &pre)
                        },
                        None => false,
                    }
                } else {
                    false
                };
                if !bad {
                    let mut k: usize = 1;
                    while k < ls.len()
                        invariant
                            1 <= k,
                            k <= ls@.len() || ls@.len() == 0,
                            lv == ls@.map_values(|l: Option<String>| line_view(l)),
                            load_from(lv, 1, Seq::empty()) == load_from(lv, k as int, entries@),
                        decreases ls.len() - k,
                    {
                        assert(lv[k as int] == line_view(ls@[k as int]));
                        match &ls[k] {
                            Some(l) => match parse_log_line(l.as_str()) {
                                Some(e) => {
                                    let key = e.output.clone();
                                    entries.insert(key, e);
                                },
                                None => {},
                            },
                            None => {},
                        }
                        k = k + 1;
                    }
                    proof {
                        if ls@.len() == 0 {
                            assert(load_from(lv, 1, Seq::empty()) == Seq::<(Seq<char>, LogEntryView)>::empty());
                        }
                    }
                } else {
                    proof {
                        assert(lv[0] == line_view(ls@[0]));
                    }
                }
            },
        }
        BuildLog { path, entries, dirty: false }
    }

    /// The path of the log file.
    pub fn path(&self) -> (p: &String)
        ensures
            p@ == self@.path,
    {
        &self.path
    }

    /// Records a build step of `output`; its modification time afterwards is
    /// `mtime` (`None`, when it could not be read, is recorded as 0).
    pub fn record(&mut self, output: &str, command_hash: u64, start_ms: u64, end_ms: u64, mtime: Option<u64>)
        ensures
            final(self)@.path == old(self)@.path,
            final(self)@.dirty,
            final(self)@.entries == insert_kv(
                old(self)@.entries,
                output@,
                LogEntryView {
                    start_time_ms: start_ms,
                    end_time_ms: end_ms,
                    mtime_ns: match mtime {
                        Some(m) => m,
                        None => 0,
                    },
                    output: output@,
                    command_hash,
                },
            ),
    {
        let mtime_ns = match mtime {
            Some(m) => m,
            None => 0,
        };
        self.entries.insert(
            output.to_owned(),
            LogEntry {
                start_time_ms: start_ms,
                end_time_ms: end_ms,
                mtime_ns,
                output: output.to_owned(),
                command_hash,
            },
        );
        self.dirty = true;
    }

    /// The recorded modification time of `output`.
    pub fn get_mtime(&self, output: &str) -> (r: Option<u64>)
        ensures
            r == match lookup(self@.entries, output@) {
                Some(e) => Some(e.mtime_ns),
                None => None::<u64>,
            },
    {
        match self.entries.get(output) {
            Some(e) => Some(e.mtime_ns),
            None => None,
        }
    }

    /// The recorded command hash of `output`.
    pub fn get_command_hash(&self, output: &str) -> (r: Option<u64>)
        ensures
            r == match lookup(self@.entries, output@) {
                Some(e) => Some(e.command_hash),
                None => None::<u64>,
            },
    {
        match self.entries.get(output) {
            Some(e) => Some(e.command_hash),
            None => None,
        }
    }

    /// Whether the log must be written: it changed, or its file does not
    /// exist.
    pub fn needs_save(&self, file_exists: bool) -> (b: bool)
        ensures
            b == (self@.dirty || !file_exists),
    {
        self.dirty || !file_exists
    }

    /// Notes that the log has been written.
    pub fn mark_saved(&mut self)
        ensures
            final(self)@.path == old(self)@.path,
            final(self)@.entries == old(self)@.entries,
            !final(self)@.dirty,
    {
        self.dirty = false;
    }

    /// The text of the log file: the header line, then one line per entry.
    pub fn to_text(&self) -> (s: String)
        ensures
            s@ == log_text(self@.entries),
    {
        let mut v: Vec<char> = Vec::new();
        push_str(&mut v, "# ninja log v5\n");
        let ghost head = v@;
        let mut i: usize = 0;
        proof {
            assert(self@.entries.take(0) =~= Seq::<(Seq<char>, LogEntryView)>::empty());
            assert(v@ =~= head + entries_text(self@.entries.take(0)));
        }
        while i < self.entries.len()
            invariant
                i <= self@.entries.len(),
                v@ == head + entries_text(self@.entries.take(i as int)),
                head == "# ninja log v5\n"@,
            decreases self@.entries.len() - i,
        {
            let e = self.entries.value_at(i);
            let ghost v0 = v@;
            let t = crate::text::fmt_u64(e.start_time_ms);
            push_str(&mut v, t.as_str());
            push_str(&mut v, "\t");
            let t = crate::text::fmt_u64(e.end_time_ms);
            push_str(&mut v, t.as_str());
            push_str(&mut v, "\t");
            let t = crate::text::fmt_u64(e.mtime_ns);
            push_str(&mut v, t.as_str());
            push_str(&mut v, "\t");
            push_str(&mut v, e.output.as_str());
            push_str(&mut v, "\t");
            let t = crate::text::fmt_u64(e.command_hash);
            push_str(&mut v, t.as_str());
            push_str(&mut v, "\n");
            i = i + 1;
            proof {
                let es = self@.entries.take(i as int);
                assert(es.drop_last() =~= self@.entries.take(i - 1));
                assert(es.last().1 == e@);
                assert(v@ =~= v0 + entry_line(e@));
                assert(v@ =~= head + entries_text(es));
            }
        }
        proof {
            assert(self@.entries.take(i as int) =~= self@.entries);
        }
        string_of(&v)
    }

    /// The outputs in the log, in the order in which they were first
    /// recorded.
    pub fn entries(&self) -> (r: Vec<&String>)
        ensures
            r@.map_values(|s: &String| s@) == keys_of(self@.entries),
    {
        let ghost ks = keys_of(self@.entries);
        let mut r: Vec<&String> = Vec::new();
        let mut i: usize = 0;
        while i < self.entries.len()
            invariant
                i <= self@.entries.len(),
                ks == keys_of(self@.entries),
                r@.map_values(|s: &String| s@) == ks.take(i as int),
            decreases self@.entries.len() - i,
        {
            let ghost r0 = r@;
            let k = self.entries.key_at(i);
            r.push(k);
            i = i + 1;
            proof {
                assert(r@.map_values(|s: &String| s@) =~= r0.map_values(|s: &String| s@).push(k@));
                assert(ks.take(i as int) =~= ks.take(i - 1).push(ks[i - 1]));
            }
        }
        proof {
            assert(ks.take(i as int) =~= ks);
        }
        r
    }

    /// Whether `output` must be rebuilt by the log alone: it is not in the
    /// log, its command hash changed, it does not exist (its current
    /// modification time `current_mtime` is `None` or 0), or its
    /// modification time differs from the recorded one.
    pub fn needs_rebuild(&self, output: &str, command_hash: u64, current_mtime: Option<u64>) -> (b:
        bool)
        ensures
            b == match lookup(self@.entries, output@) {
                Some(e) => {
                    let cur = match current_mtime {
                        Some(m) => m,
                        None => 0,
                    };
                    e.command_hash != command_hash || cur == 0 || cur != e.mtime_ns
                },
                None => true,
            },
    {
        match self.entries.get(output) {
            Some(entry) => {
                if entry.command_hash != command_hash {
                    return true;
                }
                let current = match current_mtime {
                    Some(m) => m,
                    None => 0,
                };
                if current == 0 {
                    return true;
                }
                current != entry.mtime_ns
            },
            None => true,
        }
    }
}

/// The modification-time cache: for each path asked about, its time in
/// nanoseconds, or `None` when it could not be read.
#[derive(Debug)]
pub struct MtimeCache {
    cache: StrMap<Option<u64>>,
}

impl View for MtimeCache {
    type V = Seq<(Seq<char>, Option<u64>)>;

    closed spec fn view(&self) -> Seq<(Seq<char>, Option<u64>)> {
        self.cache@
    }
}

/// The time that the cache `cache` gives for `path` when `read` is what
/// the disk gives: the cached time if there is one, else `read`.
pub open spec fn remembered_value(cache: Seq<(Seq<char>, Option<u64>)>, path: Seq<char>, read: Option<u64>) -> Option<u64> {
    match lookup(cache, path) {
        Some(m) => m,
        None => read,
    }
}

/// The cache after asking for `path` when `read` is what the disk gives:
/// unchanged if `path` is cached, else with `read` stored for it.
pub open spec fn remembered(cache: Seq<(Seq<char>, Option<u64>)>, path: Seq<char>, read: Option<u64>) -> Seq<
    (Seq<char>, Option<u64>),
> {
    if has_key(cache, path) {
        cache
    } else {
        insert_kv(cache, path, read)
    }
}

/// The modification-time cache reads each path from disk once: asking
/// again gives the first answer whatever the disk now says, and other paths
/// keep theirs.  After `invalidate` of a path the next question reads the
/// disk again while every other path keeps its cached time.
pub proof fn law_mtime_cache(
    cache: Seq<(Seq<char>, Option<u64>)>,
    p: Seq<char>,
    q: Seq<char>,
    first: Option<u64>,
    later: Option<u64>,
)
    requires
        distinct_keys(cache),
    ensures
        remembered_value(remembered(cache, p, first), p, later) == remembered_value(cache, p, first),
        q != p ==> remembered_value(remembered(cache, p, first), q, later) == remembered_value(
            cache,
            q,
            later,
        ),
        remembered_value(remove_kv(cache, p), p, later) == later,
        q != p ==> remembered_value(remove_kv(cache, p), q, later) == remembered_value(cache, q, later),
{
    crate::strmap::law_insert_lookup(cache, p, first, p);
    crate::strmap::law_insert_lookup(cache, p, first, q);
    crate::strmap::law_remove_lookup(cache, p, q);
    crate::strmap::lemma_key_index_bound(cache, p);
}

/// The paths of `paths` that a prefetch must ask about: those not in
/// `cache`, each once, in order, after `acc`.
pub open spec fn to_stat(
    cache: Seq<(Seq<char>, Option<u64>)>,
    paths: Seq<Seq<char>>,
    acc: Seq<Seq<char>>,
) -> Seq<Seq<char>>
    decreases paths.len(),
{
    if paths.len() == 0 {
        acc
    } else {
        let p = paths[0];
        let acc2 = if !has_key(cache, p) && !acc.contains(p) {
            acc.push(p)
        } else {
            acc
        };
        to_stat(cache, paths.drop_first(), acc2)
    }
}

impl MtimeCache {
    /// No path is cached twice.
    #[verifier::type_invariant]
    spec fn keys_distinct(self) -> bool {
        distinct_keys(self.cache@)
    }

    /// An empty cache.
    pub fn new() -> (c: Self)
        ensures
            c@ == Seq::<(Seq<char>, Option<u64>)>::empty(),
    {
        MtimeCache { cache: StrMap::new() }
    }

    /// The time of `path` as the cache gives it: the cached one when `path`
    /// was asked about before, else `read` (the time just read from disk),
    /// which is stored for the next question.
    pub fn remember(&mut self, path: String, read: Option<u64>) -> (r: Option<u64>)
        ensures
            r == remembered_value(old(self)@, path@, read),
            final(self)@ == remembered(old(self)@, path@, read),
            lookup(final(self)@, path@) == Some(r),
    {
        match self.get(path.as_str()) {
            Some(m) => m,
            None => {
                self.insert(path, read);
                read
            },
        }
    }

    /// The cached time of `path`: `None` when it has not been asked about.
    pub fn get(&self, path: &str) -> (r: Option<Option<u64>>)
        ensures
            r == lookup(self@, path@),
    {
        match self.cache.get(path) {
            Some(m) => Some(*m),
            None => None,
        }
    }

    /// Forgets the time of `path` (after it was built), so that the next
    /// question reads it again; every other path keeps its time.
    pub fn invalidate(&mut self, path: &str)
        ensures
            final(self)@ == remove_kv(old(self)@, path@),
            lookup(final(self)@, path@) is None,
            forall|other: Seq<char>|
                other != path@ ==> #[trigger] lookup(final(self)@, other) == lookup(old(self)@, other),
    {
        proof {
            use_type_invariant(&*self);
        }
        let ghost s0 = self.cache@;
        let mut c: StrMap<Option<u64>> = StrMap::new();
        std::mem::swap(&mut c, &mut self.cache);
        c.remove(path);
        proof {
            crate::strmap::law_remove_lookup(s0, path@, path@);
            assert forall|other: Seq<char>| other != path@ implies #[trigger] lookup(c@, other)
                == lookup(s0, other) by {
                crate::strmap::law_remove_lookup(s0, path@, other);
            }
        }
        self.cache = c;
    }

    /// The paths among `paths` whose times a prefetch must read: those not
    /// cached, each once, in order.
    pub fn prefetch(&self, paths: &Vec<String>) -> (r: Vec<String>)
        ensures
            views(r@) == to_stat(self@, views(paths@), Seq::empty()),
    {
        let ghost goal = to_stat(self@, views(paths@), Seq::empty());
        let mut r: Vec<String> = Vec::new();
        let mut i: usize = 0;
        proof {
            assert(views(paths@).skip(0) =~= views(paths@));
            assert(views(r@) =~= Seq::<Seq<char>>::empty());
        }
        while i < paths.len()
            invariant
                i <= paths@.len(),
                goal == to_stat(self@, views(paths@), Seq::empty()),
                goal == to_stat(self@, views(paths@).skip(i as int), views(r@)),
            decreases paths.len() - i,
        {
            let p = &paths[i];
            proof {
                let sk = views(paths@).skip(i as int);
                assert(sk[0] == p@);
                assert(sk.drop_first() =~= views(paths@).skip(i + 1));
            }
            if !self.cache.contains_key(p.as_str()) && !crate::graph::contains_str(&r, p.as_str()) {
                let ghost r0 = r@;
                r.push(p.clone());
                proof {
                    assert(views(r@) =~= views(r0).push(p@));
                }
            }
            i = i + 1;
        }
        proof {
            assert(views(paths@).skip(i as int) =~= Seq::<Seq<char>>::empty());
        }
        r
    }

    /// Stores the time of `path`; every other path keeps its time.
    pub fn insert(&mut self, path: String, mtime: Option<u64>)
        ensures
            final(self)@ == insert_kv(old(self)@, path@, mtime),
            lookup(final(self)@, path@) == Some(mtime),
            forall|other: Seq<char>|
                other != path@ ==> #[trigger] lookup(final(self)@, other) == lookup(old(self)@, other),
    {
        proof {
            use_type_invariant(&*self);
        }
        let ghost s0 = self.cache@;
        let ghost k = path@;
        let mut c: StrMap<Option<u64>> = StrMap::new();
        std::mem::swap(&mut c, &mut self.cache);
        c.insert(path, mtime);
        proof {
            crate::strmap::law_insert_lookup(s0, k, mtime, k);
            assert forall|other: Seq<char>| other != k implies #[trigger] lookup(c@, other)
                == lookup(s0, other) by {
                crate::strmap::law_insert_lookup(s0, k, mtime, other);
            }
        }
        self.cache = c;
    }
}

impl Default for MtimeCache {
    fn default() -> (c: Self)
        ensures
            c@ == Seq::<(Seq<char>, Option<u64>)>::empty(),
    {
        MtimeCache::new()
    }
}

/// The hash that `std::collections::hash_map::DefaultHasher::new()` gives
/// a string (hashed with `Hash for str`).
pub uninterp spec fn spec_hash_command(cmd: Seq<char>) -> u64;

/// Hashes `cmd` with a fresh `DefaultHasher` (whose keys are fixed, so the
/// result depends on the string alone); the result is named by
/// `spec_hash_command`.
#[verifier::external_body]
fn default_hash(cmd: &str) -> (h: u64)
    ensures
        h == spec_hash_command(cmd@),
{
    let mut hasher = std::collections::hash_map::DefaultHasher::new();
    cmd.hash(&mut hasher);
    hasher.finish()
}

/// The hash of a command string stored in the log.
pub fn hash_command(cmd: &str) -> (h: u64)
    ensures
        h == spec_hash_command(cmd@),
{
    default_hash(cmd)
}

/// The cached time of `p`: `None` when it is not cached or could not be
/// read.
pub open spec fn cached_mtime(cache: Seq<(Seq<char>, Option<u64>)>, p: Seq<char>) -> Option<u64> {
    match lookup(cache, p) {
        Some(m) => m,
        None => None,
    }
}

/// A dependency is no newer than the output time `om` (or its time is
/// unknown).
pub open spec fn dep_ok(cache: Seq<(Seq<char>, Option<u64>)>, d: Seq<char>, om: u64) -> bool {
    match cached_mtime(cache, d) {
        Some(dm) => dm <= om,
        None => true,
    }
}

/// A node is up to date: a source or phony node is; another needs its
/// output to exist, the logged hash of its command (if it has a command and
/// a log entry) to be its command's hash, and no dependency newer than the
/// output.
pub open spec fn node_uptodate(
    n: NodeView,
    log: Seq<(Seq<char>, LogEntryView)>,
    cache: Seq<(Seq<char>, Option<u64>)>,
) -> bool {
    n.is_source || n.is_phony || match cached_mtime(cache, n.path) {
        None => false,
        Some(om) => (n.command is Some ==> match lookup(log, n.path) {
            Some(e) => e.command_hash == n.command_hash,
            None => true,
        }) && forall|j: int| 0 <= j < n.deps.len() ==> dep_ok(cache, #[trigger] n.deps[j], om),
    }
}

/// Whether all the nodes needed for `targets` are up to date; false when
/// their order cannot be computed.
pub open spec fn all_uptodate(
    nodes: Seq<(Seq<char>, NodeView)>,
    targets: Seq<Seq<char>>,
    log: Seq<(Seq<char>, LogEntryView)>,
    cache: Seq<(Seq<char>, Option<u64>)>,
) -> bool {
    match topo_from(nodes, targets, 0, Seq::empty()) {
        Err(_) => false,
        Ok(o) => forall|i: int|
            0 <= i < nodes_of(nodes, o).len() ==> node_uptodate(#[trigger] nodes_of(nodes, o)[i], log, cache),
    }
}

/// The paths whose times an up-to-date check reads: the output and the
/// dependencies of each node of `ns` that is neither a source nor phony.
pub open spec fn check_paths(ns: Seq<NodeView>) -> Seq<Seq<char>>
    decreases ns.len(),
{
    if ns.len() == 0 {
        Seq::empty()
    } else {
        let n = ns.last();
        check_paths(ns.drop_last()) + if !n.is_source && !n.is_phony {
            seq![n.path] + n.deps
        } else {
            Seq::empty()
        }
    }
}

/// The paths whose modification times `quick_uptodate_check` reads for
/// `targets`, in order (none when the order of the targets cannot be
/// computed); the caller reads them into the cache beforehand.
pub fn uptodate_paths(graph: &Graph, targets: &[&str]) -> (r: Vec<String>)
    ensures
        views(r@) == match topo_from(graph@.nodes, str_views(targets@), 0, Seq::empty()) {
            Err(_) => Seq::empty(),
            Ok(o) => check_paths(nodes_of(graph@.nodes, o)),
        },
{
    let order = match graph.topo_order(targets) {
        Err(_) => {
            let r: Vec<String> = Vec::new();
            assert(views(r@) =~= Seq::<Seq<char>>::empty());
            return r;
        },
        Ok(o) => o,
    };
    let ghost ns = node_refs(order@);
    let mut r: Vec<String> = Vec::new();
    let mut i: usize = 0;
    proof {
        assert(ns.take(0) =~= Seq::<NodeView>::empty());
        assert(views(r@) =~= Seq::<Seq<char>>::empty());
    }
    while i < order.len()
        invariant
            i <= order@.len(),
            ns == node_refs(order@),
            views(r@) == check_paths(ns.take(i as int)),
        decreases order.len() - i,
    {
        let n = order[i];
        let ghost r0 = views(r@);
        if !n.is_source && !n.is_phony {
            r.push(n.path.clone());
            let mut j: usize = 0;
            while j < n.deps.len()
                invariant
                    j <= n.deps@.len(),
                    views(r@) == r0 + seq![n.path@] + views(n.deps@).take(j as int),
                decreases n.deps.len() - j,
            {
                let ghost r1 = r@;
                r.push(n.deps[j].clone());
                j = j + 1;
                proof {
                    assert(views(r@) =~= views(r1).push(n.deps@[j - 1]@));
                    assert(views(n.deps@).take(j as int) =~= views(n.deps@).take(j - 1).push(
                        n.deps@[j - 1]@,
                    ));
                }
            }
            proof {
                assert(views(n.deps@).take(j as int) =~= views(n.deps@));
            }
        }
        i = i + 1;
        proof {
            let t = ns.take(i as int);
            assert(t.drop_last() =~= ns.take(i - 1));
            assert(t.last() == n@);
            assert(views(r@) =~= check_paths(t));
        }
    }
    proof {
        assert(ns.take(i as int) =~= ns);
    }
    r
}

fn node_ok(n: &crate::graph::node::Node, log: &BuildLog, cache: &MtimeCache) -> (b: bool)
    ensures
        b == node_uptodate(n@, log@.entries, cache@),
{
    if n.is_source || n.is_phony {
        return true;
    }
    let om = match cache.get(n.path.as_str()) {
        Some(Some(m)) => m,
        _ => {
            return false;
        },
    };
    if n.command.is_some() {
        match log.get_command_hash(n.path.as_str()) {
            Some(h) => {
                if h != n.command_hash {
                    return false;
                }
            },
            None => {},
        }
    }
    let mut j: usize = 0;
    while j < n.deps.len()
        invariant
            j <= n.deps@.len(),
            !n.is_source,
            !n.is_phony,
            n@.command is Some ==> match lookup(log@.entries, n@.path) {
                Some(e) => e.command_hash == n@.command_hash,
                None => true,
            },
            cached_mtime(cache@, n@.path) == Some(om),
            forall|k: int| 0 <= k < j ==> dep_ok(cache@, #[trigger] n@.deps[k], om),
        decreases n.deps.len() - j,
    {
        assert(n@.deps[j as int] == n.deps@[j as int]@);
        match cache.get(n.deps[j].as_str()) {
            Some(Some(dm)) => {
                if dm > om {
                    assert(!dep_ok(cache@, n@.deps[j as int], om));
                    return false;
                }
            },
            _ => {},
        }
        j = j + 1;
    }
    true
}

/// Whether every node needed for `targets` is up to date, by the times in
/// `mtime_cache` (a path missing there counts as unreadable) and the
/// command hashes in `log`; false when the order of the targets cannot be
/// computed.
pub fn quick_uptodate_check(
    graph: &Graph,
    targets: &[&str],
    log: &BuildLog,
    mtime_cache: &MtimeCache,
) -> (b: bool)
    ensures
        b == all_uptodate(graph@.nodes, str_views(targets@), log@.entries, mtime_cache@),
{
    let order = match graph.topo_order(targets) {
        Err(_) => {
            return false;
        },
        Ok(o) => o,
    };
    let ghost ns = node_refs(order@);
    let ghost goal = all_uptodate(graph@.nodes, str_views(targets@), log@.entries, mtime_cache@);
    proof {
        match topo_from(graph@.nodes, str_views(targets@), 0, Seq::empty()) {
            Ok(o) => {
                assert(ns == nodes_of(graph@.nodes, o));
            },
            Err(_) => {},
        }
    }
    let mut i: usize = 0;
    while i < order.len()
        invariant
            i <= order@.len(),
            ns == node_refs(order@),
            goal == all_uptodate(graph@.nodes, str_views(targets@), log@.entries, mtime_cache@),
            goal == forall|k: int| 0 <= k < ns.len() ==> node_uptodate(#[trigger] ns[k], log@.entries, mtime_cache@),
            forall|k: int| 0 <= k < i ==> node_uptodate(#[trigger] ns[k], log@.entries, mtime_cache@),
        decreases order.len() - i,
    {
        if !node_ok(order[i], log, mtime_cache) {
            assert(!node_uptodate(ns[i as int], log@.entries, mtime_cache@));
            return false;
        }
        i = i + 1;
    }
    true
}

// ---------------------------------------------------------------------------
// What reading the log back gives
// ---------------------------------------------------------------------------

/// The line of an entry without its newline.
pub open spec fn entry_body(e: LogEntryView) -> Seq<char> {
    tab_join5(
        decimal(e.start_time_ms as nat),
        decimal(e.end_time_ms as nat),
        decimal(e.mtime_ns as nat),
        e.output,
        decimal(e.command_hash as nat),
    )
}

/// The lines of the entries, without newlines.
pub open spec fn bodies(es: Seq<(Seq<char>, LogEntryView)>) -> Seq<Seq<char>> {
    es.map_values(|p: (Seq<char>, LogEntryView)| entry_body(p.1))
}

/// Whether the entries can be written and read back: each is stored under
/// its output, no output twice, and no output holds a tab or a newline.
pub open spec fn log_entries_ok(es: Seq<(Seq<char>, LogEntryView)>) -> bool {
    &&& forall|i: int| 0 <= i < es.len() ==> (#[trigger] es[i]).0 == es[i].1.output
    &&& forall|i: int, j: int| 0 <= i < j < es.len() ==> (#[trigger] es[i]).0 != (#[trigger] es[j]).0
    &&& forall|i: int| 0 <= i < es.len() ==> free_of((#[trigger] es[i]).1.output, '\t') && free_of(es[i].1.output, '\n')
}

proof fn lemma_entry_line(e: LogEntryView)
    ensures
        entry_line(e) == entry_body(e).push('\n'),
{
    reveal_strlit("\t");
    reveal_strlit("\n");
    assert(entry_line(e) =~= entry_body(e).push('\n'));
}

proof fn lemma_digits_free(n: nat, c: char)
    requires
        !is_digit(c),
    ensures
        free_of(decimal(n), c),
        decimal(n).len() > 0,
        is_digit(decimal(n).last()),
{
    lemma_decimal(n);
    assert(is_digit(decimal(n)[decimal(n).len() - 1]));
}

proof fn lemma_free_concat(a: Seq<char>, b: Seq<char>, c: char)
    requires
        free_of(a, c),
        free_of(b, c),
    ensures
        free_of(a + b, c),
{
    assert forall|i: int| 0 <= i < (a + b).len() implies #[trigger] (a + b)[i] != c by {
        if i < a.len() {
            assert((a + b)[i] == a[i]);
        } else {
            assert((a + b)[i] == b[i - a.len()]);
        }
    }
}

proof fn lemma_body_parses(e: LogEntryView)
    requires
        free_of(e.output, '\t'),
    ensures
        log_line(entry_body(e)) == Some(e),
{
    lemma_digits_free(e.start_time_ms as nat, '\t');
    lemma_digits_free(e.end_time_ms as nat, '\t');
    lemma_digits_free(e.mtime_ns as nat, '\t');
    lemma_digits_free(e.command_hash as nat, '\t');
    lemma_split_five(
        decimal(e.start_time_ms as nat),
        decimal(e.end_time_ms as nat),
        decimal(e.mtime_ns as nat),
        e.output,
        decimal(e.command_hash as nat),
    );
    lemma_parse_decimal(e.start_time_ms as nat);
    lemma_parse_decimal(e.end_time_ms as nat);
    lemma_parse_decimal(e.mtime_ns as nat);
    lemma_parse_decimal(e.command_hash as nat);
}

proof fn lemma_body_shape(e: LogEntryView)
    requires
        free_of(e.output, '\n'),
    ensures
        free_of(entry_body(e), '\n'),
        entry_body(e).len() > 0,
        entry_body(e).last() != '\r',
{
    let t = seq!['\t'];
    lemma_digits_free(e.start_time_ms as nat, '\n');
    lemma_digits_free(e.end_time_ms as nat, '\n');
    lemma_digits_free(e.mtime_ns as nat, '\n');
    lemma_digits_free(e.command_hash as nat, '\n');
    assert(free_of(t, '\n'));
    let a = decimal(e.start_time_ms as nat);
    let b = decimal(e.end_time_ms as nat);
    let c = decimal(e.mtime_ns as nat);
    let h = decimal(e.command_hash as nat);
    lemma_free_concat(a, t, '\n');
    lemma_free_concat(a + t, b, '\n');
    lemma_free_concat(a + t + b, t, '\n');
    lemma_free_concat(a + t + b + t, c, '\n');
    lemma_free_concat(a + t + b + t + c, t, '\n');
    lemma_free_concat(a + t + b + t + c + t, e.output, '\n');
    lemma_free_concat(a + t + b + t + c + t + e.output, t, '\n');
    lemma_free_concat(a + t + b + t + c + t + e.output + t, h, '\n');
    let x = a + t + b + t + c + t + e.output + t;
    assert(entry_body(e) =~= x + h);
    assert((x + h).last() == h.last());
}

/// The lines of the text of a log: the header, then one per entry.
proof fn lemma_log_lines(es: Seq<(Seq<char>, LogEntryView)>)
    requires
        forall|i: int| 0 <= i < es.len() ==> free_of((#[trigger] es[i]).1.output, '\n'),
    ensures
        lines_acc(log_text(es)) == (seq!["# ninja log v5"@] + bodies(es), Seq::<char>::empty()),
    decreases es.len(),
{
    reveal_strlit("# ninja log v5\n");
    reveal_strlit("# ninja log v5");
    let h = "# ninja log v5"@;
    let z = Seq::<char>::empty();
    if es.len() == 0 {
        assert(log_text(es) =~= h.push('\n'));
        assert(free_of(h, '\n'));
        lemma_lines_append_free(z, h);
        assert(z + h =~= h);
        lemma_lines_push_nl(h);
        assert(strip_cr(h) == h);
        assert(seq![h] + bodies(es) =~= seq![h]);
    } else {
        let d = es.drop_last();
        assert forall|i: int| 0 <= i < d.len() implies free_of((#[trigger] d[i]).1.output, '\n') by {
            assert(d[i] == es[i]);
        }
        lemma_log_lines(d);
        let e = es.last().1;
        lemma_entry_line(e);
        lemma_body_shape(e);
        let x = log_text(d);
        let b = entry_body(e);
        assert(log_text(es) =~= (x + b).push('\n'));
        lemma_lines_append_free(x, b);
        lemma_lines_push_nl(x + b);
        assert(z + b =~= b);
        assert(strip_cr(b) == b);
        assert(bodies(es) =~= bodies(d).push(b));
        assert(seq![h] + bodies(es) =~= (seq![h] + bodies(d)).push(b));
    }
}

proof fn lemma_load_entries(
    ls: Seq<Option<Seq<char>>>,
    es: Seq<(Seq<char>, LogEntryView)>,
    k: int,
)
    requires
        log_entries_ok(es),
        ls.len() == es.len() + 1,
        forall|i: int| 0 <= i < es.len() ==> #[trigger] ls[i + 1] == Some(entry_body(es[i].1)),
        1 <= k <= es.len() + 1,
    ensures
        load_from(ls, k, es.take(k - 1)) == es,
    decreases es.len() + 1 - k,
{
    if k == es.len() + 1 {
        assert(es.take(k - 1) =~= es);
    } else {
        let e = es[k - 1].1;
        assert(ls[(k - 1) + 1] == Some(entry_body(e)));
        lemma_body_parses(e);
        let acc = es.take(k - 1);
        assert forall|j: int| 0 <= j < acc.len() implies (#[trigger] acc[j]).0 != e.output by {
            assert(acc[j] == es[j]);
        }
        crate::strmap::lemma_key_index(acc, e.output, acc.len() as int);
        assert(es[k - 1] == (e.output, e));
        assert(insert_kv(acc, e.output, e) =~= es.take(k));
        lemma_load_entries(ls, es, k + 1);
    }
}

/// Writing a log and reading it back gives its entries: the lines of
/// `log_text(es)` (what `to_text` writes), handed to `open` as read, load
/// as `es` (what the log held), when no output holds a tab or a newline.
pub proof fn law_log_roundtrip(es: Seq<(Seq<char>, LogEntryView)>)
    requires
        log_entries_ok(es),
    ensures
        load_log(Some(lines(log_text(es)).map_values(|l: Seq<char>| Some(l)))) == es,
{
    reveal_strlit("# ninja log v5");
    reveal_strlit("# ninja log v");
    let h = "# ninja log v5"@;
    assert forall|i: int| 0 <= i < es.len() implies free_of((#[trigger] es[i]).1.output, '\n') by {}
    lemma_log_lines(es);
    let ls_text = lines(log_text(es));
    assert(ls_text == seq![h] + bodies(es));
    let ls = ls_text.map_values(|l: Seq<char>| Some(l));
    assert(ls[0] == Some(h));
    assert(h.take(13) =~= "# ninja log v"@);
    assert(!bad_header(ls[0]));
    assert forall|i: int| 0 <= i < es.len() implies #[trigger] ls[i + 1] == Some(entry_body(es[i].1)) by {
        assert(ls_text[i + 1] == bodies(es)[i]);
    }
    lemma_load_entries(ls, es, 1);
    assert(es.take(0) =~= Seq::<(Seq<char>, LogEntryView)>::empty());
}

/// A changed command is never up to date: when a node that is neither a
/// source nor phony has a command and the build log records, for its path,
/// a command hash other than the hash of that command, the node is out of
/// date, and so is every check of targets that need it.
pub proof fn law_changed_command_not_uptodate(
    nodes: Seq<(Seq<char>, NodeView)>,
    targets: Seq<Seq<char>>,
    log: Seq<(Seq<char>, LogEntryView)>,
    cache: Seq<(Seq<char>, Option<u64>)>,
    n: NodeView,
)
    requires
        !n.is_source,
        !n.is_phony,
        n.command is Some,
        lookup(log, n.path) is Some,
        lookup(log, n.path)->0.command_hash != n.command_hash,
    ensures
        !node_uptodate(n, log, cache),
        match topo_from(nodes, targets, 0, Seq::empty()) {
            Ok(o) => nodes_of(nodes, o).contains(n) ==> !all_uptodate(nodes, targets, log, cache),
            Err(_) => !all_uptodate(nodes, targets, log, cache),
        },
{
    match topo_from(nodes, targets, 0, Seq::empty()) {
        Ok(o) => {
            if nodes_of(nodes, o).contains(n) {
                let i = choose|i: int| 0 <= i < nodes_of(nodes, o).len() && nodes_of(nodes, o)[i] == n;
                assert(!node_uptodate(nodes_of(nodes, o)[i], log, cache));
            }
        },
        Err(_) => {},
    }
}

} // verus!
