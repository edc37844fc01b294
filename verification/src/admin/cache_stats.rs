//! Cache statistics: the counts and sizes of the index and blob store, and
//! the ages of the entries.
use vstd::prelude::*;
use crate::cache::entry::{parse_entry, CacheEntry, Timestamp};
use super::cache_gc::{age_nanos, age_of, byte_views};

verus! {

/// A number of entries and their total size.
#[derive(Debug, Default, Clone, Copy, PartialEq, Eq, Structural)]
pub struct EntryBucket {
    pub count: u64,
    pub size_bytes: u64,
}

/// The entries by age: under an hour, a day, a week, and older.
#[derive(Debug, Default, Clone, Copy, PartialEq, Eq, Structural)]
pub struct AgeDistribution {
    pub under_1h: EntryBucket,
    pub under_1d: EntryBucket,
    pub under_1w: EntryBucket,
    pub over_1w: EntryBucket,
}

/// The statistics of a cache.
#[derive(Debug)]
pub struct CacheStatsReport {
    pub cache_dir: String,
    pub index_entries: u64,
    pub index_size_bytes: u64,
    pub blob_count: u64,
    pub blob_size_bytes: u64,
    pub age_distribution: AgeDistribution,
}

/// One hour in nanoseconds.
pub open spec fn hour_nanos() -> int {
    3600int * 1_000_000_000
}

/// One day in nanoseconds.
pub open spec fn day_nanos() -> int {
    86400int * 1_000_000_000
}

/// One week in nanoseconds.
pub open spec fn week_nanos() -> int {
    604800int * 1_000_000_000
}

/// `b` with one more entry of `size` bytes.
pub open spec fn bump(b: EntryBucket, size: u64) -> EntryBucket {
    EntryBucket { count: (b.count + 1) as u64, size_bytes: (b.size_bytes + size) as u64 }
}

/// `d` with an entry of the age `age` (nanoseconds) and `size` bytes counted
/// in its bucket.
pub open spec fn add_entry(d: AgeDistribution, age: int, size: u64) -> AgeDistribution {
    if age < hour_nanos() {
        AgeDistribution { under_1h: bump(d.under_1h, size), ..d }
    } else if age < day_nanos() {
        AgeDistribution { under_1d: bump(d.under_1d, size), ..d }
    } else if age < week_nanos() {
        AgeDistribution { under_1w: bump(d.under_1w, size), ..d }
    } else {
        AgeDistribution { over_1w: bump(d.over_1w, size), ..d }
    }
}

/// Whether counting an entry of `size` bytes in any bucket of `d` stays in
/// range.
pub open spec fn room_for(d: AgeDistribution, size: u64) -> bool {
    &&& d.under_1h.count < u64::MAX && d.under_1h.size_bytes + size <= u64::MAX
    &&& d.under_1d.count < u64::MAX && d.under_1d.size_bytes + size <= u64::MAX
    &&& d.under_1w.count < u64::MAX && d.under_1w.size_bytes + size <= u64::MAX
    &&& d.over_1w.count < u64::MAX && d.over_1w.size_bytes + size <= u64::MAX
}

impl EntryBucket {
    fn add(&mut self, size: u64)
        requires
            old(self).count < u64::MAX,
            old(self).size_bytes + size <= u64::MAX,
        ensures
            *final(self) == bump(*old(self), size),
    {
        self.count = self.count + 1;
        self.size_bytes = self.size_bytes + size;
    }
}

impl AgeDistribution {
    /// No entries.
    pub fn new() -> (d: Self)
        ensures
            d == (AgeDistribution {
                under_1h: EntryBucket { count: 0, size_bytes: 0 },
                under_1d: EntryBucket { count: 0, size_bytes: 0 },
                under_1w: EntryBucket { count: 0, size_bytes: 0 },
                over_1w: EntryBucket { count: 0, size_bytes: 0 },
            }),
    {
        AgeDistribution {
            under_1h: EntryBucket { count: 0, size_bytes: 0 },
            under_1d: EntryBucket { count: 0, size_bytes: 0 },
            under_1w: EntryBucket { count: 0, size_bytes: 0 },
            over_1w: EntryBucket { count: 0, size_bytes: 0 },
        }
    }

    /// Counts an entry of the age `age` (nanoseconds) and `size` bytes.
    pub fn add(&mut self, age: u128, size: u64)
        requires
            room_for(*old(self), size),
        ensures
            *final(self) == add_entry(*old(self), age as int, size),
    {
        if age < 3600 * 1_000_000_000 {
            self.under_1h.add(size);
        } else if age < 86400 * 1_000_000_000 {
            self.under_1d.add(size);
        } else if age < 604800 * 1_000_000_000 {
            self.under_1w.add(size);
        } else {
            self.over_1w.add(size);
        }
    }
}

/// The distribution of the index values `values` by age at the time `now`;
/// values that do not hold an entry are passed over.
pub open spec fn distribution(values: Seq<Seq<u8>>, now: Timestamp) -> AgeDistribution
    decreases values.len(),
{
    if values.len() == 0 {
        AgeDistribution {
            under_1h: EntryBucket { count: 0, size_bytes: 0 },
            under_1d: EntryBucket { count: 0, size_bytes: 0 },
            under_1w: EntryBucket { count: 0, size_bytes: 0 },
            over_1w: EntryBucket { count: 0, size_bytes: 0 },
        }
    } else {
        let d = distribution(values.drop_last(), now);
        match parse_entry(values.last()) {
            Some(e) => add_entry(d, age_nanos(now, e.created), values.last().len() as u64),
            None => d,
        }
    }
}

/// The total size of `values`.
pub open spec fn total_len(values: Seq<Seq<u8>>) -> int
    decreases values.len(),
{
    if values.len() == 0 {
        0
    } else {
        total_len(values.drop_last()) + values.last().len()
    }
}

/// Every bucket of `d` counts at most `n` entries of at most `bytes` bytes.
pub open spec fn bounded(d: AgeDistribution, n: int, bytes: int) -> bool {
    &&& d.under_1h.count <= n && d.under_1h.size_bytes <= bytes
    &&& d.under_1d.count <= n && d.under_1d.size_bytes <= bytes
    &&& d.under_1w.count <= n && d.under_1w.size_bytes <= bytes
    &&& d.over_1w.count <= n && d.over_1w.size_bytes <= bytes
}

proof fn lemma_distribution_bounded(values: Seq<Seq<u8>>, now: Timestamp)
    requires
        total_len(values) <= u64::MAX,
        values.len() <= u64::MAX,
    ensures
        bounded(distribution(values, now), values.len() as int, total_len(values)),
    decreases values.len(),
{
    if values.len() > 0 {
        lemma_distribution_bounded(values.drop_last(), now);
    }
}

proof fn lemma_total_len_prefix(values: Seq<Seq<u8>>, i: int)
    requires
        0 <= i <= values.len(),
    ensures
        total_len(values.take(i)) <= total_len(values),
    decreases values.len(),
{
    if i < values.len() {
        assert(values.take(i) =~= values.drop_last().take(i));
        lemma_total_len_prefix(values.drop_last(), i);
    } else {
        assert(values.take(i) =~= values);
    }
}

/// The age distribution of the index values `values` at the time `now`.
pub fn age_distribution(values: &Vec<Vec<u8>>, now: Timestamp) -> (d: AgeDistribution)
    requires
        total_len(byte_views(values@)) <= u64::MAX,
    ensures
        d == distribution(byte_views(values@), now),
{
    let ghost vv = byte_views(values@);
    let mut d = AgeDistribution::new();
    let mut i: usize = 0;
    proof {
        assert(vv.take(0) =~= Seq::<Seq<u8>>::empty());
    }
    while i < values.len()
        invariant
            i <= values@.len(),
            vv == byte_views(values@),
            total_len(vv) <= u64::MAX,
            d == distribution(vv.take(i as int), now),
        decreases values@.len() - i,
    {
        proof {
            let t = vv.take(i + 1);
            assert(t.drop_last() =~= vv.take(i as int));
            assert(t.last() == values@[i as int]@);
            lemma_total_len_prefix(vv, i + 1);
            lemma_distribution_bounded(vv.take(i as int), now);
        }
        match CacheEntry::deserialize(values[i].as_slice()) {
            Ok(entry) => {
                let age = age_of(now, entry.created);
                d.add(age, values[i].len() as u64);
            },
            Err(_) => {},
        }
        i = i + 1;
    }
    proof {
        assert(vv.take(i as int) =~= vv);
    }
    d
}

} // verus!
