//! The daemon's shared state: its configuration and the manifests it keeps
//! parsed, per build directory.
use vstd::prelude::*;
use crate::buildlog::{BuildLog, BuildLogView};
use crate::graph::{Graph, GraphView};
use crate::metrics::basic::{instant_now, millis_since};
use crate::parser::manifest::{Manifest, ManifestView};
use crate::parser::{path_join, spec_path_join};
use crate::strmap::{distinct_keys, has_key, insert_kv, key_index, law_insert_lookup, law_remove_lookup, lookup, remove_kv, StrMap};
use crate::text::views;

verus! {

/// Configuration of the daemon.
#[derive(Debug, Clone, Copy)]
pub struct DaemonConfig {
    /// Maximum number of cached manifests.
    pub max_cached_manifests: usize,
    /// How long a manifest is kept before it is checked again (seconds).
    pub manifest_ttl_secs: u64,
    /// Maximum concurrent builds.
    pub max_concurrent_builds: usize,
}

impl Default for DaemonConfig {
    /// 100 manifests, kept 5 minutes; 4 concurrent builds.
    fn default() -> (c: Self)
        ensures
            c.max_cached_manifests == 100,
            c.manifest_ttl_secs == 300,
            c.max_concurrent_builds == 4,
    {
        DaemonConfig { max_cached_manifests: 100, manifest_ttl_secs: 300, max_concurrent_builds: 4 }
    }
}

/// A parsed manifest with its graph and build log.
pub struct CachedManifest {
    pub manifest: Manifest,
    pub graph: Graph,
    pub build_log: BuildLog,
    /// The fingerprint of the manifest file when it was parsed.
    pub fingerprint: u64,
    /// When it was last found current, in milliseconds since the daemon
    /// started.
    pub last_validated: u64,
    /// The manifest file and the files it includes (to watch).
    pub included_files: Vec<String>,
}

/// The mathematical value of a `CachedManifest`.
pub struct CachedView {
    pub manifest: ManifestView,
    pub graph: GraphView,
    pub build_log: BuildLogView,
    pub fingerprint: u64,
    pub last_validated: u64,
    pub included_files: Seq<Seq<char>>,
}

impl View for CachedManifest {
    type V = CachedView;

    open spec fn view(&self) -> CachedView {
        CachedView {
            manifest: self.manifest@,
            graph: self.graph@,
            build_log: self.build_log@,
            fingerprint: self.fingerprint,
            last_validated: self.last_validated,
            included_files: views(self.included_files@),
        }
    }
}

/// The value of a kept manifest.
pub open spec fn cached_view(
    manifest: ManifestView,
    graph: GraphView,
    build_log: BuildLogView,
    fingerprint: u64,
    last_validated: u64,
    included_files: Seq<Seq<char>>,
) -> CachedView {
    CachedView { manifest, graph, build_log, fingerprint, last_validated, included_files }
}

/// Whole seconds elapsed since `start`; nothing is promised of it.
#[verifier::external_body]
fn secs_elapsed(start: &std::time::Instant) -> u64 {
    start.elapsed().as_secs()
}

/// The daemon's state: the parsed manifests by build directory.
pub struct DaemonState {
    manifests: StrMap<CachedManifest>,
    start_time: std::time::Instant,
    config: DaemonConfig,
}

/// The mathematical value of a `DaemonState`.
pub struct DaemonStateView {
    pub manifests: Seq<(Seq<char>, CachedView)>,
    pub config: DaemonConfig,
}

impl View for DaemonState {
    type V = DaemonStateView;

    closed spec fn view(&self) -> DaemonStateView {
        DaemonStateView { manifests: self.manifests@, config: self.config }
    }
}

/// The index of the first entry with the smallest validation time.
pub open spec fn oldest_index(s: Seq<(Seq<char>, CachedView)>) -> int
    decreases s.len(),
{
    if s.len() <= 1 {
        0
    } else {
        let k = oldest_index(s.drop_last());
        if s.last().1.last_validated < s[k].1.last_validated {
            s.len() - 1
        } else {
            k
        }
    }
}

proof fn lemma_oldest_index(s: Seq<(Seq<char>, CachedView)>)
    requires
        s.len() > 0,
    ensures
        0 <= oldest_index(s) < s.len(),
    decreases s.len(),
{
    if s.len() > 1 {
        lemma_oldest_index(s.drop_last());
    }
}

/// The entries with the oldest one dropped, when there are at least `max`.
pub open spec fn make_room(s: Seq<(Seq<char>, CachedView)>, max: usize) -> Seq<(Seq<char>, CachedView)> {
    if s.len() >= max && s.len() > 0 {
        s.remove(oldest_index(s))
    } else {
        s
    }
}

/// The files of a manifest to watch: the manifest file itself, then each
/// included file, joined to the build directory.
pub open spec fn watched_files(build_dir: Seq<char>, build_file: Seq<char>, includes: Seq<Seq<char>>) -> Seq<
    Seq<char>,
> {
    seq![spec_path_join(build_dir, build_file)] + includes.map_values(
        |f: Seq<char>| spec_path_join(build_dir, f),
    )
}

/// The watched files of all entries, in order.
pub open spec fn all_watched(s: Seq<(Seq<char>, CachedView)>) -> Seq<Seq<char>>
    decreases s.len(),
{
    if s.len() == 0 {
        Seq::empty()
    } else {
        all_watched(s.drop_last()) + s.last().1.included_files
    }
}

/// The first entry whose watched files include `path`.
pub open spec fn dir_of_file(s: Seq<(Seq<char>, CachedView)>, path: Seq<char>) -> Option<Seq<char>>
    decreases s.len(),
{
    if s.len() == 0 {
        None
    } else if s[0].1.included_files.contains(path) {
        Some(s[0].0)
    } else {
        dir_of_file(s.drop_first(), path)
    }
}

impl DaemonState {
    /// A state with no manifests, started now.
    pub fn new(config: DaemonConfig) -> (s: Self)
        ensures
            s@.manifests == Seq::<(Seq<char>, CachedView)>::empty(),
            s@.config == config,
    {
        DaemonState { manifests: StrMap::new(), start_time: instant_now(), config }
    }

    /// Whole seconds since the daemon started; it depends on the clock.
    pub fn uptime_secs(&self) -> u64 {
        secs_elapsed(&self.start_time)
    }

    /// The number of manifests kept.
    pub fn cached_manifest_count(&self) -> (n: usize)
        ensures
            n == self@.manifests.len(),
    {
        self.manifests.len()
    }

    /// The manifest kept for `build_dir`.
    pub fn get(&self, build_dir: &str) -> (r: Option<&CachedManifest>)
        ensures
            match lookup(self@.manifests, build_dir@) {
                Some(c) => r is Some && r->0@ == c,
                None => r is None,
            },
    {
        self.manifests.get(build_dir)
    }

    /// Whether the manifest kept for `build_dir` is current: it has the
    /// fingerprint `fingerprint`.  A current entry is marked validated now
    /// (by the clock); nothing else changes.
    pub fn refresh_if_current(&mut self, build_dir: &str, fingerprint: u64) -> (b: bool)
        ensures
            b == (lookup(old(self)@.manifests, build_dir@) matches Some(c) && c.fingerprint
                == fingerprint),
            !b ==> final(self)@ == old(self)@,
            b ==> final(self)@.config == old(self)@.config && final(self)@.manifests.len()
                == old(self)@.manifests.len() && forall|k: Seq<char>|
                #[trigger] lookup(final(self)@.manifests, k) == (if k == build_dir@ {
                    match lookup(old(self)@.manifests, k) {
                        Some(c) => Some(
                            CachedView { last_validated: lookup(final(self)@.manifests, k)->0.last_validated, ..c },
                        ),
                        None => None,
                    }
                } else {
                    lookup(old(self)@.manifests, k)
                }),
            distinct_keys(old(self)@.manifests) ==> distinct_keys(final(self)@.manifests),
    {
        match self.manifests.find(build_dir) {
            Some(i) => {
                proof {
                    crate::strmap::lemma_key_index_bound(self@.manifests, build_dir@);
                }
                if self.manifests.value_at(i).fingerprint != fingerprint {
                    return false;
                }
                let now = millis_since(&self.start_time);
                let ghost s0 = self@.manifests;
                let (k, mut c) = self.manifests.remove_at(i);
                c.last_validated = now;
                let ghost cv = c@;
                self.manifests.insert_at(i, k, c);
                proof {
                    assert(self@.manifests =~= s0.update(i as int, (build_dir@, cv)));
                    assert(forall|j: int| 0 <= j < s0.len() ==> (#[trigger] self@.manifests[j]).0 == s0[j].0);
                    assert forall|key: Seq<char>| #[trigger] lookup(self@.manifests, key) == (if key == build_dir@ {
                        match lookup(s0, key) {
                            Some(c) => Some(CachedView { last_validated: lookup(self@.manifests, key)->0.last_validated, ..c }),
                            None => None,
                        }
                    } else {
                        lookup(s0, key)
                    }) by {
                        lemma_lookup_update(s0, i as int, (build_dir@, cv), key);
                    }
                }
                true
            },
            None => false,
        }
    }

    /// Keeps a freshly parsed manifest for `build_dir` (its file
    /// `build_file`), validated now (by the clock).  When the state holds
    /// its maximum, the entry validated longest ago goes first.
    pub fn insert_parsed(
        &mut self,
        build_dir: &str,
        build_file: &str,
        manifest: Manifest,
        graph: Graph,
        build_log: BuildLog,
        fingerprint: u64,
    )
        ensures
            final(self)@.config == old(self)@.config,
            exists|t: u64|
                final(self)@.manifests == insert_kv(
                    make_room(old(self)@.manifests, old(self)@.config.max_cached_manifests),
                    build_dir@,
                    #[trigger] cached_view(
                        manifest@,
                        graph@,
                        build_log@,
                        fingerprint,
                        t,
                        watched_files(build_dir@, build_file@, manifest@.includes),
                    ),
                ),
            distinct_keys(old(self)@.manifests) ==> distinct_keys(final(self)@.manifests),
    {
        let mut included: Vec<String> = Vec::new();
        included.push(path_join(build_dir, build_file));
        let mut j: usize = 0;
        let ghost incs = manifest@.includes;
        while j < manifest.includes.len()
            invariant
                j <= manifest.includes@.len(),
                incs == manifest@.includes,
                incs == views(manifest.includes@),
                views(included@) == seq![spec_path_join(build_dir@, build_file@)] + incs.take(j as int).map_values(
                    |f: Seq<char>| spec_path_join(build_dir@, f),
                ),
            decreases manifest.includes@.len() - j,
        {
            let ghost v0 = views(included@);
            included.push(path_join(build_dir, manifest.includes[j].as_str()));
            j = j + 1;
            proof {
                assert(views(included@) =~= v0.push(spec_path_join(build_dir@, incs[j - 1])));
                assert(incs.take(j as int).map_values(|f: Seq<char>| spec_path_join(build_dir@, f))
                    =~= incs.take(j - 1).map_values(|f: Seq<char>| spec_path_join(build_dir@, f)).push(
                    spec_path_join(build_dir@, incs[j - 1]),
                ));
            }
        }
        proof {
            assert(incs.take(j as int) =~= incs);
        }
        let now = millis_since(&self.start_time);
        let len = self.manifests.len();
        if len >= self.config.max_cached_manifests && len > 0 {
            let mut k: usize = 0;
            let mut i: usize = 1;
            let ghost s = self@.manifests;
            proof {
                assert(s.take(1).len() == 1);
            }
            while i < len
                invariant
                    1 <= i <= len,
                    len == s.len(),
                    s == self@.manifests,
                    k == oldest_index(s.take(i as int)),
                    k < i,
                decreases len - i,
            {
                proof {
                    let t = s.take(i + 1);
                    assert(t.drop_last() =~= s.take(i as int));
                    lemma_oldest_index(s.take(i as int));
                    assert(t[k as int] == s[k as int]);
                }
                if self.manifests.value_at(i).last_validated < self.manifests.value_at(k).last_validated {
                    k = i;
                }
                i = i + 1;
            }
            proof {
                assert(s.take(i as int) =~= s);
            }
            let _ = self.manifests.remove_at(k);
        }
        let c = CachedManifest {
            manifest,
            graph,
            build_log,
            fingerprint,
            last_validated: now,
            included_files: included,
        };
        let ghost cv = c@;
        let ghost before = self@.manifests;
        self.manifests.insert(crate::text::owned(build_dir), c);
        proof {
            if distinct_keys(old(self)@.manifests) {
                lemma_make_room_distinct(old(self)@.manifests, self.config.max_cached_manifests);
                law_insert_lookup(before, build_dir@, cv, build_dir@);
            }
            assert(cv == cached_view(
                manifest@,
                graph@,
                build_log@,
                fingerprint,
                now,
                watched_files(build_dir@, build_file@, manifest@.includes),
            ));
        }
    }

    /// Forgets the manifest of `build_dir`.
    pub fn invalidate(&mut self, build_dir: &str)
        ensures
            final(self)@.manifests == remove_kv(old(self)@.manifests, build_dir@),
            final(self)@.config == old(self)@.config,
            distinct_keys(old(self)@.manifests) ==> distinct_keys(final(self)@.manifests) && lookup(
                final(self)@.manifests,
                build_dir@,
            ) is None,
    {
        let _ = self.manifests.remove(build_dir);
        proof {
            if distinct_keys(old(self)@.manifests) {
                law_remove_lookup(old(self)@.manifests, build_dir@, build_dir@);
            }
        }
    }

    /// Forgets every manifest.
    pub fn invalidate_all(&mut self)
        ensures
            final(self)@.manifests == Seq::<(Seq<char>, CachedView)>::empty(),
            final(self)@.config == old(self)@.config,
    {
        self.manifests = StrMap::new();
    }

    /// The files to watch: those of every manifest, in order.
    pub fn watched_paths(&self) -> (r: Vec<String>)
        ensures
            views(r@) == all_watched(self@.manifests),
    {
        let ghost s = self@.manifests;
        let mut out: Vec<String> = Vec::new();
        let mut i: usize = 0;
        while i < self.manifests.len()
            invariant
                i <= s.len(),
                s == self@.manifests,
                views(out@) == all_watched(s.take(i as int)),
            decreases s.len() - i,
        {
            let files = &self.manifests.value_at(i).included_files;
            let ghost o0 = views(out@);
            let mut j: usize = 0;
            while j < files.len()
                invariant
                    j <= files@.len(),
                    views(out@) == o0 + views(files@).take(j as int),
                decreases files@.len() - j,
            {
                let ghost w0 = views(out@);
                out.push(files[j].clone());
                j = j + 1;
                proof {
                    assert(views(out@) =~= w0.push(files@[j - 1]@));
                    assert(views(files@).take(j as int) =~= views(files@).take(j - 1).push(files@[j - 1]@));
                }
            }
            proof {
                assert(views(files@).take(j as int) =~= views(files@));
                let t = s.take(i + 1);
                assert(t.drop_last() =~= s.take(i as int));
                assert(t.last().1.included_files == views(files@));
            }
            i = i + 1;
        }
        proof {
            assert(s.take(i as int) =~= s);
        }
        out
    }

    /// The build directory whose manifest watches `path` (the first such).
    pub fn find_build_dir_for_file(&self, path: &str) -> (r: Option<String>)
        ensures
            match dir_of_file(self@.manifests, path@) {
                Some(d) => r is Some && r->0@ == d,
                None => r is None,
            },
    {
        let ghost s = self@.manifests;
        let mut i: usize = 0;
        proof {
            assert(s.skip(0) =~= s);
        }
        while i < self.manifests.len()
            invariant
                i <= s.len(),
                s == self@.manifests,
                dir_of_file(s, path@) == dir_of_file(s.skip(i as int), path@),
            decreases s.len() - i,
        {
            proof {
                assert(s.skip(i as int)[0] == s[i as int]);
                assert(s.skip(i as int).drop_first() =~= s.skip(i + 1));
            }
            if crate::graph::contains_str(&self.manifests.value_at(i).included_files, path) {
                return Some(self.manifests.key_at(i).clone());
            }
            i = i + 1;
        }
        None
    }
}

proof fn lemma_lookup_update(s: Seq<(Seq<char>, CachedView)>, i: int, e: (Seq<char>, CachedView), key: Seq<char>)
    requires
        0 <= i < s.len(),
        s[i].0 == e.0,
        key_index(s, e.0) == Some(i),
    ensures
        lookup(s.update(i, e), key) == (if key == e.0 {
            Some(e.1)
        } else {
            lookup(s, key)
        }),
    decreases s.len(),
{
    let u = s.update(i, e);
    crate::strmap::lemma_key_index_first(s, e.0);
    if key == e.0 {
        assert forall|j: int| 0 <= j < i implies (#[trigger] u[j]).0 != key by {
            assert(u[j] == s[j]);
        }
        crate::strmap::lemma_key_index(u, key, i);
    } else {
        crate::strmap::lemma_key_index_bound(s, key);
        match key_index(s, key) {
            Some(m) => {
                crate::strmap::lemma_key_index_first(s, key);
                assert(m != i);
                assert forall|j: int| 0 <= j < m implies (#[trigger] u[j]).0 != key by {
                    if j != i {
                        assert(u[j] == s[j]);
                    }
                }
                assert(u[m] == s[m]);
                crate::strmap::lemma_key_index(u, key, m);
            },
            None => {
                assert forall|j: int| 0 <= j < u.len() implies (#[trigger] u[j]).0 != key by {
                    if j != i {
                        assert(u[j] == s[j]);
                    }
                }
                crate::strmap::lemma_key_index(u, key, u.len() as int);
            },
        }
    }
}

proof fn lemma_make_room_distinct(s: Seq<(Seq<char>, CachedView)>, max: usize)
    requires
        distinct_keys(s),
    ensures
        distinct_keys(make_room(s, max)),
{
    if s.len() >= max && s.len() > 0 {
        lemma_oldest_index(s);
        let i = oldest_index(s);
        let t = s.remove(i);
        assert forall|a: int, b: int| 0 <= a < b < t.len() implies (#[trigger] t[a]).0 != (#[trigger] t[b]).0 by {
            let a2 = if a < i { a } else { a + 1 };
            let b2 = if b < i { b } else { b + 1 };
            assert(t[a] == s[a2] && t[b] == s[b2]);
        }
    }
}

/// The daemon keeps one manifest per build directory: a manifest just
/// parsed is what the state then gives for its directory (after the oldest
/// entry made room), and an invalidated directory has no manifest kept;
/// both keep the directories distinct.
pub proof fn law_state_keep_and_invalidate(
    s: Seq<(Seq<char>, CachedView)>,
    max: usize,
    dir: Seq<char>,
    c: CachedView,
)
    requires
        distinct_keys(s),
    ensures
        lookup(insert_kv(make_room(s, max), dir, c), dir) == Some(c),
        distinct_keys(insert_kv(make_room(s, max), dir, c)),
        lookup(remove_kv(s, dir), dir) is None,
        distinct_keys(remove_kv(s, dir)),
{
    lemma_make_room_distinct(s, max);
    law_insert_lookup(make_room(s, max), dir, c, dir);
    law_remove_lookup(s, dir, dir);
}

} // verus!
