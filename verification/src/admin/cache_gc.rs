//! Cache garbage collection: which index entries have expired, which blobs
//! no entry refers to, and which entries to evict, oldest first, to bring the
//! cache under a size.
use vstd::prelude::*;
use crate::cache::entry::{parse_entry, CacheEntry, Timestamp};
use crate::graph::contains_str;
use crate::trace::pair_views;
use crate::text::views;

verus! {

/// The options of a collection.
#[derive(Debug, Clone, Copy)]
pub struct GcOptions {
    /// Only report what would be removed.
    pub dry_run: bool,
    /// Entries older than this many days expire (no limit when `None`).
    pub max_age_days: Option<u64>,
    /// The size the cache is brought under (no limit when `None`).
    pub max_size_bytes: Option<u64>,
    /// Remove blobs that no entry refers to.
    pub remove_orphans: bool,
}

impl Default for GcOptions {
    fn default() -> (o: Self)
        ensures
            o == (GcOptions {
                dry_run: false,
                max_age_days: None,
                max_size_bytes: None,
                remove_orphans: false,
            }),
    {
        GcOptions { dry_run: false, max_age_days: None, max_size_bytes: None, remove_orphans: false }
    }
}

/// What a collection removed (or would remove, in a dry run).
#[derive(Debug, Clone, Copy, PartialEq, Eq, Structural)]
pub struct GcReport {
    pub expired_entries: u64,
    pub expired_bytes: u64,
    pub orphan_blobs: u64,
    pub orphan_bytes: u64,
    pub evicted_entries: u64,
    pub evicted_bytes: u64,
    pub dry_run: bool,
}

impl Default for GcReport {
    fn default() -> (r: Self)
        ensures
            r == GcReport::empty_report(false),
    {
        GcReport::new(false)
    }
}

impl GcReport {
    /// The report of a collection that removed nothing.
    pub open spec fn empty_report(dry_run: bool) -> GcReport {
        GcReport {
            expired_entries: 0,
            expired_bytes: 0,
            orphan_blobs: 0,
            orphan_bytes: 0,
            evicted_entries: 0,
            evicted_bytes: 0,
            dry_run,
        }
    }

    /// A report with nothing removed yet.
    pub fn new(dry_run: bool) -> (r: Self)
        ensures
            r == GcReport::empty_report(dry_run),
    {
        GcReport {
            expired_entries: 0,
            expired_bytes: 0,
            orphan_blobs: 0,
            orphan_bytes: 0,
            evicted_entries: 0,
            evicted_bytes: 0,
            dry_run,
        }
    }

    /// Records the expired entries that a scan found.
    pub fn record_expired(&mut self, scan: &GcScan)
        ensures
            *final(self) == (GcReport {
                expired_entries: scan.expired_keys@.len() as u64,
                expired_bytes: scan.expired_bytes,
                ..*old(self)
            }),
    {
        self.expired_entries = scan.expired_keys.len() as u64;
        self.expired_bytes = scan.expired_bytes;
    }

    /// Records the orphaned blobs found: their number and total size.
    pub fn record_orphans(&mut self, orphans: &Vec<(String, u64)>)
        requires
            sum_sizes(pair_views(orphans@)) <= u64::MAX,
        ensures
            *final(self) == (GcReport {
                orphan_blobs: orphans@.len() as u64,
                orphan_bytes: sum_sizes(pair_views(orphans@)) as u64,
                ..*old(self)
            }),
    {
        let ghost ov = pair_views(orphans@);
        let mut bytes: u64 = 0;
        let mut i: usize = 0;
        while i < orphans.len()
            invariant
                i <= orphans@.len(),
                ov == pair_views(orphans@),
                sum_sizes(ov) <= u64::MAX,
                bytes == sum_sizes(ov.take(i as int)),
            decreases orphans@.len() - i,
        {
            proof {
                let t = ov.take(i + 1);
                assert(t.drop_last() =~= ov.take(i as int));
                lemma_sum_prefix(ov, i + 1);
            }
            bytes = bytes + orphans[i].1;
            i = i + 1;
        }
        proof {
            assert(ov.take(i as int) =~= ov);
        }
        self.orphan_blobs = orphans.len() as u64;
        self.orphan_bytes = bytes;
    }

    /// Records the entries evicted for size.
    pub fn record_evicted(&mut self, progress: &EvictProgress)
        ensures
            *final(self) == (GcReport {
                evicted_entries: progress.count,
                evicted_bytes: progress.freed,
                ..*old(self)
            }),
    {
        self.evicted_entries = progress.count;
        self.evicted_bytes = progress.freed;
    }
}

// ---------------------------------------------------------------------------
// Ages
// ---------------------------------------------------------------------------

/// A time stamp in nanoseconds since the Unix epoch.
pub open spec fn ts_nanos(t: Timestamp) -> int {
    t.secs * 1_000_000_000 + t.nanos
}

/// How long before `now` the time `created` lies, in nanoseconds (0 when it
/// lies after `now`).
pub open spec fn age_nanos(now: Timestamp, created: Timestamp) -> int {
    if ts_nanos(now) >= ts_nanos(created) {
        ts_nanos(now) - ts_nanos(created)
    } else {
        0
    }
}

/// A time stamp in nanoseconds since the Unix epoch.
pub fn timestamp_nanos(t: Timestamp) -> (n: u128)
    ensures
        n == ts_nanos(t),
{
    t.secs as u128 * 1_000_000_000 + t.nanos as u128
}

/// How long before `now` the time `created` lies, in nanoseconds.
pub fn age_of(now: Timestamp, created: Timestamp) -> (a: u128)
    ensures
        a == age_nanos(now, created),
{
    let n = timestamp_nanos(now);
    let c = timestamp_nanos(created);
    if n >= c {
        n - c
    } else {
        0
    }
}

// ---------------------------------------------------------------------------
// Phase 1: the index
// ---------------------------------------------------------------------------

/// `refs` with the content hashes of `outs` that it lacks appended, in
/// order.
pub open spec fn add_hashes(refs: Seq<Seq<char>>, outs: Seq<(Seq<char>, Seq<char>)>) -> Seq<Seq<char>>
    decreases outs.len(),
{
    if outs.len() == 0 {
        refs
    } else {
        let r = add_hashes(refs, outs.drop_last());
        if r.contains(outs.last().1) {
            r
        } else {
            r.push(outs.last().1)
        }
    }
}

/// The mathematical value of a `GcScan`.
pub struct GcScanView {
    pub expired_keys: Seq<Seq<u8>>,
    pub expired_bytes: int,
    pub referenced: Seq<Seq<char>>,
}

/// The scan of the index entries `items` (key, value) at the time `now`:
/// with an age limit, an entry older than the limit expires (its key and the
/// size of its value are counted); the blob hashes of every other entry are
/// referenced.  Values that do not hold an entry are passed over.
pub open spec fn scan_index(items: Seq<(Seq<u8>, Seq<u8>)>, now: Timestamp, max_age_secs: Option<int>) -> GcScanView
    decreases items.len(),
{
    if items.len() == 0 {
        GcScanView { expired_keys: Seq::empty(), expired_bytes: 0, referenced: Seq::empty() }
    } else {
        let s = scan_index(items.drop_last(), now, max_age_secs);
        let k = items.last().0;
        let v = items.last().1;
        match parse_entry(v) {
            None => s,
            Some(e) => if max_age_secs is Some && age_nanos(now, e.created) > max_age_secs->0
                * 1_000_000_000 {
                GcScanView {
                    expired_keys: s.expired_keys.push(k),
                    expired_bytes: s.expired_bytes + v.len(),
                    ..s
                }
            } else {
                GcScanView { referenced: add_hashes(s.referenced, e.outputs), ..s }
            },
        }
    }
}

/// The sum of the value sizes of `items`.
pub open spec fn sum_value_lens(items: Seq<(Seq<u8>, Seq<u8>)>) -> int
    decreases items.len(),
{
    if items.len() == 0 {
        0
    } else {
        sum_value_lens(items.drop_last()) + items.last().1.len()
    }
}

/// The views of index items.
pub open spec fn item_views(v: Seq<(Vec<u8>, Vec<u8>)>) -> Seq<(Seq<u8>, Seq<u8>)> {
    v.map_values(|e: (Vec<u8>, Vec<u8>)| (e.0@, e.1@))
}

/// The views of byte vectors.
pub open spec fn byte_views(v: Seq<Vec<u8>>) -> Seq<Seq<u8>> {
    v.map_values(|e: Vec<u8>| e@)
}

/// What a scan of the index found.
#[derive(Debug)]
pub struct GcScan {
    pub expired_keys: Vec<Vec<u8>>,
    pub expired_bytes: u64,
    pub referenced: Vec<String>,
}

/// The age limit in seconds of `days` days.
pub open spec fn days_secs(days: Option<u64>) -> Option<int> {
    match days {
        Some(d) => Some(d * 86400),
        None => None,
    }
}

proof fn lemma_expired_bytes_bound(items: Seq<(Seq<u8>, Seq<u8>)>, now: Timestamp, a: Option<int>)
    ensures
        0 <= scan_index(items, now, a).expired_bytes <= sum_value_lens(items),
    decreases items.len(),
{
    if items.len() > 0 {
        lemma_expired_bytes_bound(items.drop_last(), now, a);
    }
}

proof fn lemma_value_lens_prefix(items: Seq<(Seq<u8>, Seq<u8>)>, i: int)
    requires
        0 <= i <= items.len(),
    ensures
        sum_value_lens(items.take(i)) <= sum_value_lens(items),
    decreases items.len(),
{
    if i < items.len() {
        assert(items.take(i) =~= items.drop_last().take(i));
        lemma_value_lens_prefix(items.drop_last(), i);
    } else {
        assert(items.take(i) =~= items);
    }
}

fn add_hashes_exec(refs: &mut Vec<String>, outs: &Vec<(String, String)>)
    ensures
        views(final(refs)@) == add_hashes(views(old(refs)@), crate::cache::entry::pair_views(outs@)),
{
    let ghost ov = crate::cache::entry::pair_views(outs@);
    let ghost r0 = views(refs@);
    let mut i: usize = 0;
    while i < outs.len()
        invariant
            i <= outs@.len(),
            ov == crate::cache::entry::pair_views(outs@),
            views(refs@) == add_hashes(r0, ov.take(i as int)),
        decreases outs@.len() - i,
    {
        proof {
            let t = ov.take(i + 1);
            assert(t.drop_last() =~= ov.take(i as int));
            assert(t.last().1 == outs@[i as int].1@);
        }
        if !contains_str(refs, outs[i].1.as_str()) {
            let ghost v0 = views(refs@);
            refs.push(outs[i].1.clone());
            proof {
                assert(views(refs@) =~= v0.push(outs@[i as int].1@));
            }
        }
        i = i + 1;
    }
    proof {
        assert(ov.take(i as int) =~= ov);
    }
}

/// Scans the index entries `items` at the time `now` (see `scan_index`),
/// with an age limit of `max_age_days` days.
pub fn scan_index_entries(items: &Vec<(Vec<u8>, Vec<u8>)>, now: Timestamp, max_age_days: Option<u64>) -> (r: GcScan)
    requires
        max_age_days matches Some(d) ==> d * 86400 <= u64::MAX,
        sum_value_lens(item_views(items@)) <= u64::MAX,
    ensures
        byte_views(r.expired_keys@) == scan_index(item_views(items@), now, days_secs(max_age_days)).expired_keys,
        r.expired_bytes == scan_index(item_views(items@), now, days_secs(max_age_days)).expired_bytes,
        views(r.referenced@) == scan_index(item_views(items@), now, days_secs(max_age_days)).referenced,
{
    let ghost iv = item_views(items@);
    let ghost a = days_secs(max_age_days);
    let max_age_nanos: Option<u128> = match max_age_days {
        Some(d) => Some((d * 86400) as u128 * 1_000_000_000),
        None => None,
    };
    let mut keys: Vec<Vec<u8>> = Vec::new();
    let mut bytes: u64 = 0;
    let mut refs: Vec<String> = Vec::new();
    let mut i: usize = 0;
    while i < items.len()
        invariant
            i <= items@.len(),
            iv == item_views(items@),
            a == days_secs(max_age_days),
            sum_value_lens(iv) <= u64::MAX,
            match max_age_nanos {
                Some(n) => a is Some && n == a->0 * 1_000_000_000,
                None => a is None,
            },
            byte_views(keys@) == scan_index(iv.take(i as int), now, a).expired_keys,
            bytes == scan_index(iv.take(i as int), now, a).expired_bytes,
            views(refs@) == scan_index(iv.take(i as int), now, a).referenced,
        decreases items@.len() - i,
    {
        let ghost t = iv.take(i + 1);
        proof {
            assert(t.drop_last() =~= iv.take(i as int));
            assert(t.last() == (items@[i as int].0@, items@[i as int].1@));
            lemma_value_lens_prefix(iv, i + 1);
            lemma_expired_bytes_bound(iv.take(i as int), now, a);
        }
        let (key, value) = (&items[i].0, &items[i].1);
        match CacheEntry::deserialize(value.as_slice()) {
            Ok(entry) => {
                let expired = match max_age_nanos {
                    Some(limit) => age_of(now, entry.created) > limit,
                    None => false,
                };
                if expired {
                    let ghost k0 = byte_views(keys@);
                    keys.push(key.clone());
                    bytes = bytes + value.len() as u64;
                    proof {
                        assert(byte_views(keys@) =~= k0.push(key@));
                    }
                } else {
                    add_hashes_exec(&mut refs, &entry.outputs);
                }
            },
            Err(_) => {},
        }
        i = i + 1;
    }
    proof {
        assert(iv.take(i as int) =~= iv);
    }
    GcScan { expired_keys: keys, expired_bytes: bytes, referenced: refs }
}

// ---------------------------------------------------------------------------
// Phase 2: orphaned blobs
// ---------------------------------------------------------------------------

/// The blobs (file name, size) of `blobs` whose names no entry refers to, in
/// order.
pub open spec fn orphans(blobs: Seq<(Seq<char>, u64)>, refs: Seq<Seq<char>>) -> Seq<(Seq<char>, u64)>
    decreases blobs.len(),
{
    if blobs.len() == 0 {
        Seq::empty()
    } else {
        orphans(blobs.drop_last(), refs) + if refs.contains(blobs.last().0) {
            Seq::empty()
        } else {
            seq![blobs.last()]
        }
    }
}

/// The sum of the sizes of `s`.
pub open spec fn sum_sizes(s: Seq<(Seq<char>, u64)>) -> int
    decreases s.len(),
{
    if s.len() == 0 {
        0
    } else {
        sum_sizes(s.drop_last()) + s.last().1
    }
}

proof fn lemma_sum_prefix(s: Seq<(Seq<char>, u64)>, i: int)
    requires
        0 <= i <= s.len(),
    ensures
        sum_sizes(s.take(i)) <= sum_sizes(s),
    decreases s.len(),
{
    if i < s.len() {
        assert(s.take(i) =~= s.drop_last().take(i));
        lemma_sum_prefix(s.drop_last(), i);
    } else {
        assert(s.take(i) =~= s);
    }
}

/// The blobs (file name, size) that no entry refers to.
pub fn find_orphans(blobs: &Vec<(String, u64)>, referenced: &Vec<String>) -> (r: Vec<(String, u64)>)
    ensures
        pair_views(r@) == orphans(pair_views(blobs@), views(referenced@)),
{
    let ghost bv = pair_views(blobs@);
    let mut out: Vec<(String, u64)> = Vec::new();
    let mut i: usize = 0;
    while i < blobs.len()
        invariant
            i <= blobs@.len(),
            bv == pair_views(blobs@),
            pair_views(out@) == orphans(bv.take(i as int), views(referenced@)),
        decreases blobs@.len() - i,
    {
        proof {
            let t = bv.take(i + 1);
            assert(t.drop_last() =~= bv.take(i as int));
            assert(t.last() == (blobs@[i as int].0@, blobs@[i as int].1));
        }
        if !contains_str(referenced, blobs[i].0.as_str()) {
            let ghost o0 = pair_views(out@);
            out.push((blobs[i].0.clone(), blobs[i].1));
            proof {
                assert(pair_views(out@) =~= o0.push((blobs@[i as int].0@, blobs@[i as int].1)));
            }
        }
        i = i + 1;
    }
    proof {
        assert(bv.take(i as int) =~= bv);
    }
    out
}

// ---------------------------------------------------------------------------
// Phase 3: eviction for size
// ---------------------------------------------------------------------------

/// How many bytes to free to bring a cache of `current` bytes under `max`.
pub fn bytes_to_free(current: u64, max: u64) -> (r: Option<u64>)
    ensures
        current > max ==> r == Some((current - max) as u64),
        current <= max ==> r is None,
{
    if current > max {
        Some(current - max)
    } else {
        None
    }
}

/// An index entry that may be evicted.
#[derive(Debug, Clone)]
pub struct EvictCandidate {
    pub key: Vec<u8>,
    pub created: Timestamp,
    pub size: u64,
}

/// The mathematical value of an `EvictCandidate`.
pub struct EvictView {
    pub key: Seq<u8>,
    pub created: Timestamp,
    pub size: u64,
}

impl View for EvictCandidate {
    type V = EvictView;

    open spec fn view(&self) -> EvictView {
        EvictView { key: self.key@, created: self.created, size: self.size }
    }
}

/// The views of candidates.
pub open spec fn candidate_views(v: Seq<EvictCandidate>) -> Seq<EvictView> {
    v.map_values(|c: EvictCandidate| c@)
}

/// `x` put into `s` before the first candidate created later, so that an
/// ascending order of creation stays and equal times keep their order.
pub open spec fn insert_by_age(s: Seq<EvictView>, x: EvictView) -> Seq<EvictView>
    decreases s.len(),
{
    if s.len() == 0 {
        seq![x]
    } else if ts_nanos(x.created) < ts_nanos(s[0].created) {
        seq![x] + s
    } else {
        seq![s[0]] + insert_by_age(s.drop_first(), x)
    }
}

/// `s` sorted by creation time, oldest first, with equal times in their
/// order in `s`: what a stable sort by creation time gives.
pub open spec fn oldest_first(s: Seq<EvictView>) -> Seq<EvictView>
    decreases s.len(),
{
    if s.len() == 0 {
        s
    } else {
        insert_by_age(oldest_first(s.drop_last()), s.last())
    }
}

proof fn lemma_insert_by_age(s: Seq<EvictView>, x: EvictView, p: int)
    requires
        0 <= p <= s.len(),
        forall|j: int| 0 <= j < p ==> !(ts_nanos(x.created) < ts_nanos(#[trigger] s[j].created)),
        p < s.len() ==> ts_nanos(x.created) < ts_nanos(s[p].created),
    ensures
        insert_by_age(s, x) == s.take(p) + seq![x] + s.skip(p),
    decreases s.len(),
{
    if s.len() == 0 {
        assert(s.take(p) + seq![x] + s.skip(p) =~= seq![x]);
    } else if p == 0 {
        assert(s.take(p) + seq![x] + s.skip(p) =~= seq![x] + s);
    } else {
        let t = s.drop_first();
        assert forall|j: int| 0 <= j < p - 1 implies !(ts_nanos(x.created) < ts_nanos(
            #[trigger] t[j].created,
        )) by {
            assert(t[j] == s[j + 1]);
        }
        lemma_insert_by_age(t, x, p - 1);
        assert(s.take(p) + seq![x] + s.skip(p) =~= seq![s[0]] + (t.take(p - 1) + seq![x] + t.skip(
            p - 1,
        )));
    }
}

/// The candidates sorted oldest first (a stable insertion sort).
pub fn eviction_order(c: &Vec<EvictCandidate>) -> (r: Vec<EvictCandidate>)
    ensures
        candidate_views(r@) == oldest_first(candidate_views(c@)),
{
    let ghost cv = candidate_views(c@);
    let mut r: Vec<EvictCandidate> = Vec::new();
    let mut i: usize = 0;
    proof {
        assert(cv.take(0) =~= Seq::<EvictView>::empty());
        assert(candidate_views(r@) =~= Seq::<EvictView>::empty());
    }
    while i < c.len()
        invariant
            i <= c@.len(),
            cv == candidate_views(c@),
            candidate_views(r@) == oldest_first(cv.take(i as int)),
        decreases c@.len() - i,
    {
        let key = timestamp_nanos(c[i].created);
        let mut p: usize = 0;
        while p < r.len() && !(key < timestamp_nanos(r[p].created))
            invariant
                p <= r@.len(),
                key == ts_nanos(c@[i as int].created),
                forall|j: int| 0 <= j < p ==> !(key < ts_nanos(#[trigger] r@[j].created)),
            decreases r@.len() - p,
        {
            p = p + 1;
        }
        let ghost s0 = candidate_views(r@);
        let x = EvictCandidate { key: c[i].key.clone(), created: c[i].created, size: c[i].size };
        let ghost xv = x@;
        proof {
            assert(xv == cv[i as int]);
            assert forall|j: int| 0 <= j < p implies !(ts_nanos(xv.created) < ts_nanos(
                #[trigger] s0[j].created,
            )) by {
                assert(s0[j].created == r@[j].created);
            }
            lemma_insert_by_age(s0, xv, p as int);
            let t = cv.take(i + 1);
            assert(t.drop_last() =~= cv.take(i as int));
            assert(t.last() == xv);
        }
        r.insert(p, x);
        proof {
            assert(candidate_views(r@) =~= s0.take(p as int) + seq![xv] + s0.skip(p as int));
        }
        i = i + 1;
    }
    proof {
        assert(cv.take(i as int) =~= cv);
    }
    r
}

/// The progress of an eviction: the bytes to free, and the bytes and
/// entries freed so far.
#[derive(Debug, Clone, Copy, PartialEq, Eq, Structural)]
pub struct EvictProgress {
    pub target: u64,
    pub freed: u64,
    pub count: u64,
}

impl EvictProgress {
    /// Nothing freed yet of `target` bytes.
    pub fn new(target: u64) -> (p: Self)
        ensures
            p == (EvictProgress { target, freed: 0, count: 0 }),
    {
        EvictProgress { target, freed: 0, count: 0 }
    }

    /// Whether enough has been freed.
    pub fn is_done(&self) -> (b: bool)
        ensures
            b == (self.freed >= self.target),
    {
        self.freed >= self.target
    }

    /// Counts an entry of `size` bytes, when its removal succeeded.
    pub fn record(&mut self, size: u64, removed: bool)
        requires
            removed ==> old(self).freed + size <= u64::MAX && old(self).count < u64::MAX,
        ensures
            removed ==> *final(self) == (EvictProgress {
                freed: (old(self).freed + size) as u64,
                count: (old(self).count + 1) as u64,
                ..*old(self)
            }),
            !removed ==> *final(self) == *old(self),
    {
        if removed {
            self.freed = self.freed + size;
            self.count = self.count + 1;
        }
    }
}

} // verus!
