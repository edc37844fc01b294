//! The byte format of a cache entry.
//!
//! Layout: a version byte `1`; the command as a 32-bit little-endian byte
//! length and its UTF-8 bytes; the creation time as 64-bit seconds and
//! 32-bit nanoseconds since the Unix epoch; the number of outputs as 32
//! bits; then each output's path and content hash, each as a 32-bit length
//! and UTF-8 bytes.
use vstd::prelude::*;
use vstd::utf8::{decode_utf8, encode_utf8, valid_utf8};
use crate::error::ExecError;

verus! {

/// A time as seconds and nanoseconds since the Unix epoch.
#[derive(Debug, Clone, Copy, PartialEq, Eq)]
pub struct Timestamp {
    pub secs: u64,
    pub nanos: u32,
}

/// A cache entry: a cached build result.
#[derive(Debug)]
pub struct CacheEntry {
    /// The command that was executed.
    pub command: String,
    /// Output files and their content hashes.
    pub outputs: Vec<(String, String)>,
    /// When this entry was created.
    pub created: Timestamp,
}

/// The mathematical value of a `CacheEntry`.
pub struct CacheEntryView {
    pub command: Seq<char>,
    pub outputs: Seq<(Seq<char>, Seq<char>)>,
    pub created: Timestamp,
}

/// The views of a vector of string pairs.
pub open spec fn pair_views(v: Seq<(String, String)>) -> Seq<(Seq<char>, Seq<char>)> {
    v.map_values(|e: (String, String)| (e.0@, e.1@))
}

impl View for CacheEntry {
    type V = CacheEntryView;

    open spec fn view(&self) -> CacheEntryView {
        CacheEntryView {
            command: self.command@,
            outputs: pair_views(self.outputs@),
            created: self.created,
        }
    }
}

/// The four little-endian bytes of `n`.
pub open spec fn le32(n: u32) -> Seq<u8> {
    seq![
        (n & 0xff) as u8,
        ((n >> 8u32) & 0xff) as u8,
        ((n >> 16u32) & 0xff) as u8,
        ((n >> 24u32) & 0xff) as u8,
    ]
}

/// The eight little-endian bytes of `n`.
pub open spec fn le64(n: u64) -> Seq<u8> {
    seq![
        (n & 0xff) as u8,
        ((n >> 8u64) & 0xff) as u8,
        ((n >> 16u64) & 0xff) as u8,
        ((n >> 24u64) & 0xff) as u8,
        ((n >> 32u64) & 0xff) as u8,
        ((n >> 40u64) & 0xff) as u8,
        ((n >> 48u64) & 0xff) as u8,
        ((n >> 56u64) & 0xff) as u8,
    ]
}

/// The `u32` whose little-endian bytes are `b0..b3` (`u32::from_le_bytes`).
pub open spec fn u32_of(b0: u8, b1: u8, b2: u8, b3: u8) -> u32 {
    (b0 as u32) | ((b1 as u32) << 8u32) | ((b2 as u32) << 16u32) | ((b3 as u32) << 24u32)
}

/// The `u64` whose little-endian bytes are `b0..b7` (`u64::from_le_bytes`).
pub open spec fn u64_of(b0: u8, b1: u8, b2: u8, b3: u8, b4: u8, b5: u8, b6: u8, b7: u8) -> u64 {
    (b0 as u64) | ((b1 as u64) << 8u64) | ((b2 as u64) << 16u64) | ((b3 as u64) << 24u64) | ((
    b4 as u64) << 32u64) | ((b5 as u64) << 40u64) | ((b6 as u64) << 48u64) | ((b7 as u64) << 56u64)
}

/// The `u32` read little-endian at `pos` in `d`.
pub open spec fn read32(d: Seq<u8>, pos: int) -> u32 {
    u32_of(d[pos], d[pos + 1], d[pos + 2], d[pos + 3])
}

/// The `u64` read little-endian at `pos` in `d`.
pub open spec fn read64(d: Seq<u8>, pos: int) -> u64 {
    u64_of(d[pos], d[pos + 1], d[pos + 2], d[pos + 3], d[pos + 4], d[pos + 5], d[pos + 6], d[pos + 7])
}

/// A string as its 32-bit byte length (truncated to 32 bits) and its UTF-8
/// bytes.
pub open spec fn field(s: Seq<char>) -> Seq<u8> {
    le32(encode_utf8(s).len() as u32) + encode_utf8(s)
}

/// The bytes of the outputs, in order.
pub open spec fn outputs_bytes(outs: Seq<(Seq<char>, Seq<char>)>) -> Seq<u8>
    decreases outs.len(),
{
    if outs.len() == 0 {
        Seq::empty()
    } else {
        outputs_bytes(outs.drop_last()) + field(outs.last().0) + field(outs.last().1)
    }
}

/// The bytes of a cache entry.
pub open spec fn entry_bytes(e: CacheEntryView) -> Seq<u8> {
    seq![1u8] + field(e.command) + le64(e.created.secs) + le32(e.created.nanos) + le32(
        e.outputs.len() as u32,
    ) + outputs_bytes(e.outputs)
}

/// The text of `String::from_utf8_lossy` on `b`.
pub uninterp spec fn spec_utf8_lossy(b: Seq<u8>) -> Seq<char>;

/// Calls `String::from_utf8_lossy`; its result is named by
/// `spec_utf8_lossy`.  On valid UTF-8 it decodes the bytes.
#[verifier::external_body]
fn utf8_lossy(b: &[u8]) -> (s: String)
    ensures
        s@ == spec_utf8_lossy(b@),
        valid_utf8(b@) ==> s@ == decode_utf8(b@),
{
    String::from_utf8_lossy(b).to_string()
}

/// The text of `String::from_utf8_lossy` on `b`: the decoded characters
/// when `b` is valid UTF-8.
pub open spec fn lossy_text(b: Seq<u8>) -> Seq<char> {
    if valid_utf8(b) {
        decode_utf8(b)
    } else {
        spec_utf8_lossy(b)
    }
}

/// The string read from `d[pos..pos + n]`.
pub open spec fn text_at(d: Seq<u8>, pos: int, n: int) -> Seq<char> {
    lossy_text(d.subrange(pos, pos + n))
}

/// A length-prefixed string read at `pos`: the string and the position
/// after it, if the bytes hold one.
pub open spec fn field_at(d: Seq<u8>, pos: int) -> Option<(Seq<char>, int)> {
    if pos + 4 > d.len() {
        None
    } else {
        let n = read32(d, pos) as int;
        if pos + 4 + n > d.len() {
            None
        } else {
            Some((text_at(d, pos + 4, n), pos + 4 + n))
        }
    }
}

/// The `k` outputs read at `pos`, after `acc`.
pub open spec fn outputs_at(d: Seq<u8>, pos: int, k: nat, acc: Seq<(Seq<char>, Seq<char>)>) -> Option<
    Seq<(Seq<char>, Seq<char>)>,
>
    decreases k,
{
    if k == 0 {
        Some(acc)
    } else {
        match field_at(d, pos) {
            None => None,
            Some((path, p2)) => match field_at(d, p2) {
                None => None,
                Some((hash, p3)) => outputs_at(d, p3, (k - 1) as nat, acc.push((path, hash))),
            },
        }
    }
}

/// Whether `secs` seconds and `nanos` nanoseconds after the Unix epoch is a
/// time that the system clock can hold: the whole seconds, with those that
/// the nanoseconds make up, fit in a signed 64-bit number.
pub open spec fn time_fits(secs: u64, nanos: u32) -> bool {
    secs + nanos / 1_000_000_000 <= i64::MAX
}

/// The time `secs` seconds and `nanos` nanoseconds after the Unix epoch,
/// with whole seconds carried out of the nanoseconds.
pub open spec fn normal_time(secs: u64, nanos: u32) -> Timestamp {
    Timestamp {
        secs: (secs + nanos / 1_000_000_000) as u64,
        nanos: (nanos % 1_000_000_000) as u32,
    }
}

/// The time `secs` seconds and `nanos` nanoseconds after the Unix epoch,
/// with whole seconds carried out of the nanoseconds, or `None` when the
/// system clock cannot hold it.
pub fn checked_time(secs: u64, nanos: u32) -> (r: Option<Timestamp>)
    ensures
        time_fits(secs, nanos) ==> r == Some(normal_time(secs, nanos)),
        !time_fits(secs, nanos) ==> r is None,
{
    let carry = (nanos / 1_000_000_000) as u64;
    if secs > 0x7fff_ffff_ffff_ffffu64 - carry {
        None
    } else {
        Some(Timestamp { secs: secs + carry, nanos: nanos % 1_000_000_000 })
    }
}

/// Whether `t` is a time as the system clock gives it: its nanoseconds are
/// under one second and its seconds fit in a signed 64-bit number.
pub open spec fn valid_time(t: Timestamp) -> bool {
    t.nanos < 1_000_000_000 && t.secs <= i64::MAX
}

/// The cache entry that the bytes `d` hold, if they hold one (bytes after it
/// are ignored).  A creation time that the system clock cannot hold makes
/// the bytes invalid.
pub open spec fn parse_entry(d: Seq<u8>) -> Option<CacheEntryView> {
    if d.len() == 0 || d[0] != 1 {
        None
    } else {
        match field_at(d, 1) {
            None => None,
            Some((command, p)) => if p + 12 > d.len() {
                None
            } else {
                let secs = read64(d, p);
                let nanos = read32(d, p + 8);
                if !time_fits(secs, nanos) {
                    None
                } else if p + 16 > d.len() {
                    None
                } else {
                    let n = read32(d, p + 12);
                    match outputs_at(d, p + 16, n as nat, Seq::empty()) {
                        None => None,
                        Some(outputs) => Some(
                            CacheEntryView {
                                command,
                                outputs,
                                created: normal_time(secs, nanos),
                            },
                        ),
                    }
                }
            },
        }
    }
}

pub(crate) fn push_bytes(v: &mut Vec<u8>, b: &[u8])
    ensures
        final(v)@ == old(v)@ + b@,
{
    let mut i: usize = 0;
    while i < b.len()
        invariant
            i <= b@.len(),
            v@ == old(v)@ + b@.take(i as int),
        decreases b.len() - i,
    {
        v.push(b[i]);
        i = i + 1;
        proof {
            assert(b@.take(i as int) =~= b@.take(i - 1).push(b@[i - 1]));
        }
    }
    proof {
        assert(b@.take(i as int) =~= b@);
    }
}

fn push_u32(v: &mut Vec<u8>, n: u32)
    ensures
        final(v)@ == old(v)@ + le32(n),
{
    v.push((n & 0xff) as u8);
    v.push(((n >> 8u32) & 0xff) as u8);
    v.push(((n >> 16u32) & 0xff) as u8);
    v.push(((n >> 24u32) & 0xff) as u8);
    assert(final(v)@ =~= old(v)@ + le32(n));
}

fn push_u64(v: &mut Vec<u8>, n: u64)
    ensures
        final(v)@ == old(v)@ + le64(n),
{
    v.push((n & 0xff) as u8);
    v.push(((n >> 8u64) & 0xff) as u8);
    v.push(((n >> 16u64) & 0xff) as u8);
    v.push(((n >> 24u64) & 0xff) as u8);
    v.push(((n >> 32u64) & 0xff) as u8);
    v.push(((n >> 40u64) & 0xff) as u8);
    v.push(((n >> 48u64) & 0xff) as u8);
    v.push(((n >> 56u64) & 0xff) as u8);
    assert(final(v)@ =~= old(v)@ + le64(n));
}

fn push_field(v: &mut Vec<u8>, s: &str)
    ensures
        final(v)@ == old(v)@ + field(s@),
{
    let b = s.as_bytes();
    #[verifier::truncate]
    let n = b.len() as u32;
    push_u32(v, n);
    push_bytes(v, b);
    assert(final(v)@ =~= old(v)@ + field(s@));
}

fn read_u32(d: &[u8], pos: usize) -> (r: u32)
    requires
        pos + 4 <= d@.len(),
    ensures
        r == read32(d@, pos as int),
{
    (d[pos] as u32) | ((d[pos + 1] as u32) << 8u32) | ((d[pos + 2] as u32) << 16u32) | ((d[pos
        + 3] as u32) << 24u32)
}

fn read_u64(d: &[u8], pos: usize) -> (r: u64)
    requires
        pos + 8 <= d@.len(),
    ensures
        r == read64(d@, pos as int),
{
    (d[pos] as u64) | ((d[pos + 1] as u64) << 8u64) | ((d[pos + 2] as u64) << 16u64) | ((d[pos
        + 3] as u64) << 24u64) | ((d[pos + 4] as u64) << 32u64) | ((d[pos + 5] as u64) << 40u64)
        | ((d[pos + 6] as u64) << 48u64) | ((d[pos + 7] as u64) << 56u64)
}

fn copy_bytes(d: &[u8], lo: usize, hi: usize) -> (r: Vec<u8>)
    requires
        lo <= hi <= d@.len(),
    ensures
        r@ == d@.subrange(lo as int, hi as int),
{
    let mut r: Vec<u8> = Vec::new();
    let mut i = lo;
    while i < hi
        invariant
            lo <= i <= hi,
            hi <= d@.len(),
            r@ == d@.subrange(lo as int, i as int),
        decreases hi - i,
    {
        r.push(d[i]);
        i = i + 1;
        proof {
            assert(d@.subrange(lo as int, i as int) =~= d@.subrange(lo as int, i - 1).push(d@[i - 1]));
        }
    }
    r
}

fn read_field(d: &[u8], pos: usize) -> (r: Option<(String, usize)>)
    requires
        pos <= d@.len(),
    ensures
        match r {
            Some((s, p)) => field_at(d@, pos as int) == Some((s@, p as int)) && p <= d@.len(),
            None => field_at(d@, pos as int) is None,
        },
{
    if d.len() - pos < 4 {
        return None;
    }
    let n = read_u32(d, pos) as usize;
    if d.len() - (pos + 4) < n {
        return None;
    }
    let b = copy_bytes(d, pos + 4, pos + 4 + n);
    let s = utf8_lossy(&b);
    assert(s@ == lossy_text(b@));
    Some((s, pos + 4 + n))
}

/// The error that a malformed cache entry gives.
#[verifier::external_body]
fn invalid_entry_error() -> (e: std::io::Error) {
    std::io::Error::new(std::io::ErrorKind::InvalidData, "invalid cache entry")
}

impl CacheEntry {
    /// The entry's bytes (see the module's layout).  Lengths are written as
    /// 32 bits, truncated as `as u32` truncates.
    pub fn serialize(&self) -> (r: Result<Vec<u8>, ExecError>)
        ensures
            r is Ok && r->Ok_0@ == entry_bytes(self@),
    {
        let mut data: Vec<u8> = Vec::new();
        data.push(1u8);
        push_field(&mut data, self.command.as_str());
        push_u64(&mut data, self.created.secs);
        push_u32(&mut data, self.created.nanos);
        #[verifier::truncate]
        let n = self.outputs.len() as u32;
        push_u32(&mut data, n);
        let ghost head = data@;
        let ghost outs = self@.outputs;
        let mut i: usize = 0;
        proof {
            assert(outs.take(0) =~= Seq::<(Seq<char>, Seq<char>)>::empty());
            assert(data@ =~= head + outputs_bytes(outs.take(0)));
        }
        while i < self.outputs.len()
            invariant
                i <= self.outputs@.len(),
                outs == self@.outputs,
                data@ == head + outputs_bytes(outs.take(i as int)),
            decreases self.outputs.len() - i,
        {
            let ghost d0 = data@;
            push_field(&mut data, self.outputs[i].0.as_str());
            push_field(&mut data, self.outputs[i].1.as_str());
            i = i + 1;
            proof {
                let t = outs.take(i as int);
                assert(t.drop_last() =~= outs.take(i - 1));
                assert(t.last() == (self.outputs@[i - 1].0@, self.outputs@[i - 1].1@));
                assert(data@ =~= head + outputs_bytes(t));
            }
        }
        proof {
            assert(outs.take(i as int) =~= outs);
            assert(data@ =~= entry_bytes(self@));
        }
        Ok(data)
    }

    /// Reads an entry from bytes; fails with an invalid-data I/O error when
    /// they do not hold one.
    pub fn deserialize(data: &[u8]) -> (r: Result<CacheEntry, ExecError>)
        ensures
            match parse_entry(data@) {
                Some(e) => r is Ok && r->Ok_0@ == e,
                None => r is Err && r->Err_0 is SpawnError,
            },
    {
        if data.len() == 0 || data[0] != 1 {
            return Err(ExecError::SpawnError(invalid_entry_error()));
        }
        let (command, p) = match read_field(data, 1) {
            None => {
                return Err(ExecError::SpawnError(invalid_entry_error()));
            },
            Some(x) => x,
        };
        if data.len() - p < 12 {
            return Err(ExecError::SpawnError(invalid_entry_error()));
        }
        let secs = read_u64(data, p);
        let nanos = read_u32(data, p + 8);
        let created = match checked_time(secs, nanos) {
            Some(t) => t,
            None => {
                return Err(ExecError::SpawnError(invalid_entry_error()));
            },
        };
        if data.len() - p < 16 {
            return Err(ExecError::SpawnError(invalid_entry_error()));
        }
        let n = read_u32(data, p + 12);
        let mut outputs: Vec<(String, String)> = Vec::new();
        let mut pos: usize = p + 16;
        let mut k: u32 = 0;
        let ghost d = data@;
        proof {
            assert(pair_views(outputs@) =~= Seq::<(Seq<char>, Seq<char>)>::empty());
        }
        while k < n
            invariant
                d == data@,
                k <= n,
                pos <= d.len(),
                parse_entry(d) == match outputs_at(d, p + 16, n as nat, Seq::empty()) {
                    None => None::<CacheEntryView>,
                    Some(outputs) => Some(
                        CacheEntryView { command: command@, outputs, created },
                    ),
                },
                outputs_at(d, p + 16, n as nat, Seq::empty()) == outputs_at(
                    d,
                    pos as int,
                    (n - k) as nat,
                    pair_views(outputs@),
                ),
            decreases n - k,
        {
            let (path, p2) = match read_field(data, pos) {
                None => {
                    return Err(ExecError::SpawnError(invalid_entry_error()));
                },
                Some(x) => x,
            };
            let (hash, p3) = match read_field(data, p2) {
                None => {
                    return Err(ExecError::SpawnError(invalid_entry_error()));
                },
                Some(x) => x,
            };
            let ghost o0 = pair_views(outputs@);
            outputs.push((path, hash));
            proof {
                assert(pair_views(outputs@) =~= o0.push((path@, hash@)));
            }
            pos = p3;
            k = k + 1;
        }
        Ok(CacheEntry { command, outputs, created })
    }
}

// ---------------------------------------------------------------------------
// The round trip
// ---------------------------------------------------------------------------

proof fn lemma_le32(n: u32)
    ensures
        u32_of(
            (n & 0xff) as u8,
            ((n >> 8u32) & 0xff) as u8,
            ((n >> 16u32) & 0xff) as u8,
            ((n >> 24u32) & 0xff) as u8,
        ) == n,
{
    assert(((((n & 0xff) as u8) as u32) | (((((n >> 8u32) & 0xff) as u8) as u32) << 8u32) | ((
    (((n >> 16u32) & 0xff) as u8) as u32) << 16u32) | (((((n >> 24u32) & 0xff) as u8) as u32)
        << 24u32)) == n) by (bit_vector);
}

proof fn lemma_le64(n: u64)
    ensures
        u64_of(
            (n & 0xff) as u8,
            ((n >> 8u64) & 0xff) as u8,
            ((n >> 16u64) & 0xff) as u8,
            ((n >> 24u64) & 0xff) as u8,
            ((n >> 32u64) & 0xff) as u8,
            ((n >> 40u64) & 0xff) as u8,
            ((n >> 48u64) & 0xff) as u8,
            ((n >> 56u64) & 0xff) as u8,
        ) == n,
{
    assert(((((n & 0xff) as u8) as u64) | (((((n >> 8u64) & 0xff) as u8) as u64) << 8u64) | ((
    (((n >> 16u64) & 0xff) as u8) as u64) << 16u64) | (((((n >> 24u64) & 0xff) as u8) as u64)
        << 24u64) | (((((n >> 32u64) & 0xff) as u8) as u64) << 32u64) | (((((n >> 40u64) & 0xff)
        as u8) as u64) << 40u64) | (((((n >> 48u64) & 0xff) as u8) as u64) << 48u64) | (((((n
        >> 56u64) & 0xff) as u8) as u64) << 56u64)) == n) by (bit_vector);
}

proof fn lemma_read32(d: Seq<u8>, pos: int, n: u32)
    requires
        0 <= pos,
        pos + 4 <= d.len(),
        d.subrange(pos, pos + 4) == le32(n),
    ensures
        read32(d, pos) == n,
{
    assert(d[pos] == d.subrange(pos, pos + 4)[0]);
    assert(d[pos + 1] == d.subrange(pos, pos + 4)[1]);
    assert(d[pos + 2] == d.subrange(pos, pos + 4)[2]);
    assert(d[pos + 3] == d.subrange(pos, pos + 4)[3]);
    lemma_le32(n);
}

proof fn lemma_read64(d: Seq<u8>, pos: int, n: u64)
    requires
        0 <= pos,
        pos + 8 <= d.len(),
        d.subrange(pos, pos + 8) == le64(n),
    ensures
        read64(d, pos) == n,
{
    let w = d.subrange(pos, pos + 8);
    assert(d[pos] == w[0]);
    assert(d[pos + 1] == w[1]);
    assert(d[pos + 2] == w[2]);
    assert(d[pos + 3] == w[3]);
    assert(d[pos + 4] == w[4]);
    assert(d[pos + 5] == w[5]);
    assert(d[pos + 6] == w[6]);
    assert(d[pos + 7] == w[7]);
    lemma_le64(n);
}

/// Whether a string's UTF-8 bytes are fewer than 2^32, so that its length
/// prefix holds it.
pub open spec fn fits(s: Seq<char>) -> bool {
    encode_utf8(s).len() < 0x1_0000_0000
}

proof fn lemma_field_at(d: Seq<u8>, pos: int, s: Seq<char>)
    requires
        0 <= pos,
        fits(s),
        pos + field(s).len() <= d.len(),
        d.subrange(pos, pos + field(s).len()) == field(s),
    ensures
        field_at(d, pos) == Some((s, pos + field(s).len())),
{
    let b = encode_utf8(s);
    let n = b.len() as u32;
    assert(n as int == b.len());
    assert(d.subrange(pos, pos + 4) =~= field(s).subrange(0, 4));
    assert(field(s).subrange(0, 4) =~= le32(n));
    lemma_read32(d, pos, n);
    assert(d.subrange(pos + 4, pos + 4 + n) =~= field(s).subrange(4, 4 + n as int));
    assert(field(s).subrange(4, 4 + n as int) =~= b);
    vstd::utf8::encode_utf8_valid_utf8(s);
    vstd::utf8::encode_utf8_decode_utf8(s);
}

proof fn lemma_outputs_bytes_front(outs: Seq<(Seq<char>, Seq<char>)>)
    requires
        outs.len() > 0,
    ensures
        outputs_bytes(outs) == field(outs[0].0) + field(outs[0].1) + outputs_bytes(outs.drop_first()),
    decreases outs.len(),
{
    if outs.len() == 1 {
        assert(outs.drop_last() =~= Seq::<(Seq<char>, Seq<char>)>::empty());
        assert(outs.drop_first() =~= Seq::<(Seq<char>, Seq<char>)>::empty());
        assert(outputs_bytes(outs.drop_last()) =~= Seq::<u8>::empty());
        assert(outputs_bytes(outs.drop_first()) =~= Seq::<u8>::empty());
        assert(outs.last() == outs[0]);
        assert(outputs_bytes(outs) == outputs_bytes(outs.drop_last()) + field(outs.last().0) + field(
            outs.last().1,
        ));
        assert(outputs_bytes(outs) =~= field(outs[0].0) + field(outs[0].1));
    } else {
        lemma_outputs_bytes_front(outs.drop_last());
        assert(outs.drop_last().drop_first() =~= outs.drop_first().drop_last());
        assert(outs.drop_first().last() == outs.last());
        assert(outs.drop_last()[0] == outs[0]);
        let a = field(outs[0].0) + field(outs[0].1);
        let m = outputs_bytes(outs.drop_first().drop_last());
        let z = field(outs.last().0) + field(outs.last().1);
        assert(outputs_bytes(outs) =~= a + m + field(outs.last().0) + field(outs.last().1));
        assert(outputs_bytes(outs.drop_first()) =~= m + field(outs.last().0) + field(outs.last().1));
        assert(outputs_bytes(outs) =~= a + outputs_bytes(outs.drop_first()));
    }
}

/// Every path and hash of `outs` fits its length prefix.
pub open spec fn outputs_fit(outs: Seq<(Seq<char>, Seq<char>)>) -> bool {
    forall|i: int| 0 <= i < outs.len() ==> fits(#[trigger] outs[i].0) && fits(outs[i].1)
}

proof fn lemma_outputs_at(
    d: Seq<u8>,
    pos: int,
    outs: Seq<(Seq<char>, Seq<char>)>,
    acc: Seq<(Seq<char>, Seq<char>)>,
)
    requires
        0 <= pos,
        outputs_fit(outs),
        pos + outputs_bytes(outs).len() <= d.len(),
        d.subrange(pos, pos + outputs_bytes(outs).len()) == outputs_bytes(outs),
    ensures
        outputs_at(d, pos, outs.len(), acc) == Some(acc + outs),
    decreases outs.len(),
{
    if outs.len() == 0 {
        assert(acc + outs =~= acc);
    } else {
        lemma_outputs_bytes_front(outs);
        let f0 = field(outs[0].0);
        let f1 = field(outs[0].1);
        let rest = outputs_bytes(outs.drop_first());
        let all = outputs_bytes(outs);
        assert(all == f0 + f1 + rest);
        assert(fits(outs[0].0) && fits(outs[0].1));
        assert(d.subrange(pos, pos + f0.len()) =~= all.subrange(0, f0.len() as int));
        assert(all.subrange(0, f0.len() as int) =~= f0);
        lemma_field_at(d, pos, outs[0].0);
        let l0: int = f0.len() as int;
        let l1: int = f1.len() as int;
        let lr: int = rest.len() as int;
        let p2: int = pos + l0;
        assert(d.subrange(p2, p2 + l1) =~= all.subrange(l0, l0 + l1));
        assert(all.subrange(l0, l0 + l1) =~= f1);
        lemma_field_at(d, p2, outs[0].1);
        let p3: int = p2 + l1;
        assert(d.subrange(p3, p3 + lr) =~= all.subrange(l0 + l1, all.len() as int));
        assert(all.subrange(l0 + l1, all.len() as int) =~= rest);
        assert forall|i: int| 0 <= i < outs.drop_first().len() implies fits(
            #[trigger] outs.drop_first()[i].0,
        ) && fits(outs.drop_first()[i].1) by {
            assert(outs.drop_first()[i] == outs[i + 1]);
        }
        lemma_outputs_at(d, p3, outs.drop_first(), acc.push(outs[0]));
        assert(acc.push(outs[0]) + outs.drop_first() =~= acc + outs);
    }
}

/// Reading the bytes of an entry gives the entry back, when its creation
/// time is one the system clock gives and each string's bytes and the
/// number of outputs fit their 32-bit length fields.
pub proof fn law_entry_roundtrip(e: CacheEntryView)
    requires
        valid_time(e.created),
        fits(e.command),
        e.outputs.len() < 0x1_0000_0000,
        outputs_fit(e.outputs),
    ensures
        parse_entry(entry_bytes(e)) == Some(e),
{
    let d = entry_bytes(e);
    let fc = field(e.command);
    let n = e.outputs.len() as u32;
    let ob = outputs_bytes(e.outputs);
    assert(d =~= seq![1u8] + fc + le64(e.created.secs) + le32(e.created.nanos) + le32(n) + ob);
    assert(d[0] == 1u8);
    let lc: int = fc.len() as int;
    assert(d.subrange(1, 1 + lc) =~= fc);
    lemma_field_at(d, 1, e.command);
    let p: int = 1 + lc;
    assert(d.subrange(p, p + 8) =~= le64(e.created.secs));
    lemma_read64(d, p, e.created.secs);
    assert(d.subrange(p + 8, p + 12) =~= le32(e.created.nanos));
    lemma_read32(d, p + 8, e.created.nanos);
    assert(d.subrange(p + 12, p + 16) =~= le32(n));
    lemma_read32(d, p + 12, n);
    assert(d.subrange(p + 16, p + 16 + ob.len() as int) =~= ob);
    lemma_outputs_at(d, p + 16, e.outputs, Seq::empty());
    assert(Seq::<(Seq<char>, Seq<char>)>::empty() + e.outputs =~= e.outputs);
}

} // verus!
