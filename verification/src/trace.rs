//! A build trace in the Chrome tracing event model, with the statistics and
//! rankings drawn from it.  Writing the trace out as JSON is the caller's
//! business: `export_events` hands out the events to write.
use vstd::prelude::*;
use crate::metrics::basic::instant_now;
use crate::strmap::{lookup, str_eq, StrMap};
use crate::text::{chars_of, owned, string_of};

verus! {

/// The phase of a trace event.
#[derive(Debug, Clone, Copy, PartialEq, Eq, Structural)]
pub enum TracePhase {
    /// `B`: a target began.
    Begin,
    /// `E`: a target ended.
    End,
    /// `X`: a complete event with a duration.
    Complete,
    /// `M`: metadata.
    Metadata,
    /// `i`: an instant.
    Instant,
}

impl TracePhase {
    /// The phase's letter in the tracing format.
    pub fn code(&self) -> (s: &'static str)
        ensures
            s@ == phase_code(*self),
    {
        proof {
            reveal_strlit("B");
            reveal_strlit("E");
            reveal_strlit("X");
            reveal_strlit("M");
            reveal_strlit("i");
        }
        match self {
            TracePhase::Begin => "B",
            TracePhase::End => "E",
            TracePhase::Complete => "X",
            TracePhase::Metadata => "M",
            TracePhase::Instant => "i",
        }
    }
}

/// The phase's letter in the tracing format.
pub open spec fn phase_code(p: TracePhase) -> Seq<char> {
    match p {
        TracePhase::Begin => seq!['B'],
        TracePhase::End => seq!['E'],
        TracePhase::Complete => seq!['X'],
        TracePhase::Metadata => seq!['M'],
        TracePhase::Instant => seq!['i'],
    }
}

/// One trace event.  An empty `args` map is written as no arguments.
#[derive(Debug)]
pub struct TraceEvent {
    pub name: String,
    pub category: String,
    pub phase: TracePhase,
    pub timestamp_us: u64,
    pub duration_us: Option<u64>,
    pub pid: u32,
    pub tid: u32,
    pub args: StrMap<String>,
}

/// The mathematical value of a `TraceEvent`.
pub struct TraceEventView {
    pub name: Seq<char>,
    pub category: Seq<char>,
    pub phase: TracePhase,
    pub timestamp_us: u64,
    pub duration_us: Option<u64>,
    pub pid: u32,
    pub tid: u32,
    pub args: Seq<(Seq<char>, Seq<char>)>,
}

impl View for TraceEvent {
    type V = TraceEventView;

    open spec fn view(&self) -> TraceEventView {
        TraceEventView {
            name: self.name@,
            category: self.category@,
            phase: self.phase,
            timestamp_us: self.timestamp_us,
            duration_us: self.duration_us,
            pid: self.pid,
            tid: self.tid,
            args: self.args@,
        }
    }
}

/// The views of a sequence of events.
pub open spec fn event_views(v: Seq<TraceEvent>) -> Seq<TraceEventView> {
    v.map_values(|e: TraceEvent| e@)
}

/// The arguments of a target event: its command, then the cache mark.
pub open spec fn target_args(command: Option<Seq<char>>, cache_hit: bool) -> Seq<
    (Seq<char>, Seq<char>),
> {
    (match command {
        Some(c) => seq![("command"@, c)],
        None => Seq::empty(),
    }) + (if cache_hit {
        seq![("cache"@, "hit"@)]
    } else {
        Seq::empty()
    })
}

/// The event of a target in the category `build`.
pub open spec fn build_event(
    name: Seq<char>,
    phase: TracePhase,
    ts: u64,
    dur: Option<u64>,
    tid: u32,
    args: Seq<(Seq<char>, Seq<char>)>,
) -> TraceEventView {
    TraceEventView {
        name,
        category: "build"@,
        phase,
        timestamp_us: ts,
        duration_us: dur,
        pid: 1,
        tid,
        args,
    }
}

/// The view of an optional `&str`.
pub open spec fn opt_str(o: Option<&str>) -> Option<Seq<char>> {
    match o {
        Some(s) => Some(s@),
        None => None,
    }
}

/// The metadata event `name` with the value `value`.
pub open spec fn metadata_event(name: Seq<char>, value: Seq<char>) -> TraceEventView {
    TraceEventView {
        name,
        category: "__metadata"@,
        phase: TracePhase::Metadata,
        timestamp_us: 0,
        duration_us: None,
        pid: 1,
        tid: 0,
        args: seq![("name"@, value)],
    }
}

/// The mathematical value of a `BuildTrace`.
pub struct BuildTraceView {
    pub events: Seq<TraceEventView>,
    pub next_tid: u64,
    pub enabled: bool,
}

/// A collector of trace events.  When it is disabled, recording does
/// nothing.
pub struct BuildTrace {
    events: Vec<TraceEvent>,
    start_time: std::time::Instant,
    start_timestamp: u64,
    next_tid: u64,
    enabled: bool,
}

impl View for BuildTrace {
    type V = BuildTraceView;

    closed spec fn view(&self) -> BuildTraceView {
        BuildTraceView {
            events: event_views(self.events@),
            next_tid: self.next_tid,
            enabled: self.enabled,
        }
    }
}

/// Microseconds since the Unix epoch (0 before it); nothing is promised of it.
#[verifier::external_body]
fn unix_now_micros() -> u64 {
    std::time::SystemTime::now().duration_since(std::time::UNIX_EPOCH).map(|d| d.as_micros() as u64).unwrap_or(0)
}

/// Microseconds elapsed since `start`, cut to 64 bits; nothing is promised
/// of it.
#[verifier::external_body]
fn micros_since(start: &std::time::Instant) -> u64 {
    start.elapsed().as_micros() as u64
}

fn make_args(command: Option<&str>, cache_hit: bool) -> (m: StrMap<String>)
    ensures
        m@ == target_args(opt_str(command), cache_hit),
{
    proof {
        reveal_strlit("command");
        reveal_strlit("cache");
        reveal_strlit("hit");
    }
    let mut m: StrMap<String> = StrMap::new();
    match command {
        Some(c) => {
            m.insert(owned("command"), owned(c));
        },
        None => {},
    }
    proof {
        assert(m@ =~= target_args(opt_str(command), false));
    }
    if cache_hit {
        let ghost m0 = m@;
        proof {
            assert("command"@.len() == 7);
            assert("cache"@.len() == 5);
            if m0.len() > 0 {
                assert(m0[0].0 == "command"@);
                assert(m0[0].0 != "cache"@);
                assert(m0.drop_first().len() == 0);
                assert(crate::strmap::key_index(m0.drop_first(), "cache"@) is None);
            }
        }
        m.insert(owned("cache"), owned("hit"));
    }
    proof {
        assert(m@ =~= target_args(opt_str(command), cache_hit));
    }
    m
}

impl BuildTrace {
    /// A trace started now, with no events; thread ids are handed out from 1.
    pub fn new(enabled: bool) -> (t: Self)
        ensures
            t@.events == Seq::<TraceEventView>::empty(),
            t@.next_tid == 1,
            t@.enabled == enabled,
    {
        let start_timestamp = unix_now_micros();
        let t = BuildTrace {
            events: Vec::new(),
            start_time: instant_now(),
            start_timestamp,
            next_tid: 1,
            enabled,
        };
        proof {
            assert(t@.events =~= Seq::<TraceEventView>::empty());
        }
        t
    }

    /// Whether the trace records events.
    pub fn is_enabled(&self) -> (b: bool)
        ensures
            b == self@.enabled,
    {
        self.enabled
    }

    /// The wall-clock time at which the trace started, in microseconds since
    /// the Unix epoch.
    pub fn start_timestamp(&self) -> u64 {
        self.start_timestamp
    }

    /// A thread id for a worker: the next one, cut to 32 bits; the counter
    /// wraps.
    pub fn allocate_tid(&mut self) -> (tid: u32)
        ensures
            tid == old(self)@.next_tid as u32,
            final(self)@.next_tid == (if old(self)@.next_tid == u64::MAX {
                0
            } else {
                old(self)@.next_tid + 1
            }),
            final(self)@.events == old(self)@.events,
            final(self)@.enabled == old(self)@.enabled,
    {
        let tid = self.next_tid as u32;
        self.next_tid = self.next_tid.wrapping_add(1);
        tid
    }

    /// Microseconds since the trace started; it depends on the clock.
    pub fn timestamp(&self) -> u64 {
        micros_since(&self.start_time)
    }

    /// The wall time of the build so far, in microseconds; it depends on the
    /// clock.
    pub fn total_duration_us(&self) -> u64 {
        micros_since(&self.start_time)
    }

    fn push_event(&mut self, e: TraceEvent)
        ensures
            final(self)@.events == old(self)@.events.push(e@),
            final(self)@.next_tid == old(self)@.next_tid,
            final(self)@.enabled == old(self)@.enabled,
    {
        self.events.push(e);
        proof {
            assert(event_views(self.events@) =~= event_views(old(self).events@).push(e@));
        }
    }

    /// Records that `target` began at `ts`, returning `ts` (0 when disabled).
    pub fn begin_target_at(&mut self, target: &str, command: Option<&str>, tid: u32, ts: u64) -> (r:
        u64)
        ensures
            old(self)@.enabled ==> r == ts && final(self)@.events == old(self)@.events.push(
                build_event(target@, TracePhase::Begin, ts, None, tid, target_args(opt_str(command), false)),
            ),
            !old(self)@.enabled ==> r == 0 && final(self)@.events == old(self)@.events,
            final(self)@.next_tid == old(self)@.next_tid,
            final(self)@.enabled == old(self)@.enabled,
    {
        if !self.enabled {
            return 0;
        }
        proof {
            reveal_strlit("build");
        }
        let e = TraceEvent {
            name: owned(target),
            category: owned("build"),
            phase: TracePhase::Begin,
            timestamp_us: ts,
            duration_us: None,
            pid: 1,
            tid,
            args: make_args(command, false),
        };
        self.push_event(e);
        ts
    }

    /// Records that `target` began now, returning the time stamp (0 when
    /// disabled).
    pub fn begin_target(&mut self, target: &str, command: Option<&str>, tid: u32) -> (r: u64)
        ensures
            old(self)@.enabled ==> final(self)@.events == old(self)@.events.push(
                build_event(target@, TracePhase::Begin, r, None, tid, target_args(opt_str(command), false)),
            ),
            !old(self)@.enabled ==> r == 0 && final(self)@.events == old(self)@.events,
            final(self)@.next_tid == old(self)@.next_tid,
            final(self)@.enabled == old(self)@.enabled,
    {
        if !self.enabled {
            return 0;
        }
        let ts = micros_since(&self.start_time);
        self.begin_target_at(target, command, tid, ts)
    }

    /// Records that `target` ended at `ts`, marking a cache hit.
    pub fn end_target_at(&mut self, target: &str, tid: u32, cache_hit: bool, ts: u64)
        ensures
            old(self)@.enabled ==> final(self)@.events == old(self)@.events.push(
                build_event(target@, TracePhase::End, ts, None, tid, target_args(None, cache_hit)),
            ),
            !old(self)@.enabled ==> final(self)@.events == old(self)@.events,
            final(self)@.next_tid == old(self)@.next_tid,
            final(self)@.enabled == old(self)@.enabled,
    {
        if !self.enabled {
            return;
        }
        proof {
            reveal_strlit("build");
        }
        let e = TraceEvent {
            name: owned(target),
            category: owned("build"),
            phase: TracePhase::End,
            timestamp_us: ts,
            duration_us: None,
            pid: 1,
            tid,
            args: make_args(None, cache_hit),
        };
        self.push_event(e);
    }

    /// Records that `target` ended now, marking a cache hit.
    pub fn end_target(&mut self, target: &str, tid: u32, cache_hit: bool)
        ensures
            old(self)@.enabled ==> exists|ts: u64|
                final(self)@.events == old(self)@.events.push(
                    #[trigger] build_event(target@, TracePhase::End, ts, None, tid, target_args(None, cache_hit)),
                ),
            !old(self)@.enabled ==> final(self)@.events == old(self)@.events,
            final(self)@.next_tid == old(self)@.next_tid,
            final(self)@.enabled == old(self)@.enabled,
    {
        if !self.enabled {
            return;
        }
        let ts = micros_since(&self.start_time);
        self.end_target_at(target, tid, cache_hit, ts);
        proof {
            let _ = build_event(target@, TracePhase::End, ts, None, tid, target_args(None, cache_hit));
        }
    }

    /// Records the complete run of `target`: its start, duration, command and
    /// cache mark.
    pub fn complete_target(
        &mut self,
        target: &str,
        start_us: u64,
        duration_us: u64,
        tid: u32,
        command: Option<&str>,
        cache_hit: bool,
    )
        ensures
            old(self)@.enabled ==> final(self)@.events == old(self)@.events.push(
                build_event(
                    target@,
                    TracePhase::Complete,
                    start_us,
                    Some(duration_us),
                    tid,
                    target_args(opt_str(command), cache_hit),
                ),
            ),
            !old(self)@.enabled ==> final(self)@.events == old(self)@.events,
            final(self)@.next_tid == old(self)@.next_tid,
            final(self)@.enabled == old(self)@.enabled,
    {
        if !self.enabled {
            return;
        }
        proof {
            reveal_strlit("build");
        }
        let e = TraceEvent {
            name: owned(target),
            category: owned("build"),
            phase: TracePhase::Complete,
            timestamp_us: start_us,
            duration_us: Some(duration_us),
            pid: 1,
            tid,
            args: make_args(command, cache_hit),
        };
        self.push_event(e);
    }

    /// Records the metadata `name` with the value `value`.
    pub fn add_metadata(&mut self, name: &str, value: &str)
        ensures
            old(self)@.enabled ==> final(self)@.events == old(self)@.events.push(
                metadata_event(name@, value@),
            ),
            !old(self)@.enabled ==> final(self)@.events == old(self)@.events,
            final(self)@.next_tid == old(self)@.next_tid,
            final(self)@.enabled == old(self)@.enabled,
    {
        if !self.enabled {
            return;
        }
        let e = metadata(name, value);
        self.push_event(e);
    }

    /// Records an instant event at `ts`.
    pub fn instant_at(&mut self, name: &str, category: &str, tid: u32, ts: u64)
        ensures
            old(self)@.enabled ==> final(self)@.events == old(self)@.events.push(
                instant_event(name@, category@, tid, ts),
            ),
            !old(self)@.enabled ==> final(self)@.events == old(self)@.events,
            final(self)@.next_tid == old(self)@.next_tid,
            final(self)@.enabled == old(self)@.enabled,
    {
        if !self.enabled {
            return;
        }
        let e = TraceEvent {
            name: owned(name),
            category: owned(category),
            phase: TracePhase::Instant,
            timestamp_us: ts,
            duration_us: None,
            pid: 1,
            tid,
            args: StrMap::new(),
        };
        self.push_event(e);
    }

    /// Records an instant event now (such as a cache miss).
    pub fn instant(&mut self, name: &str, category: &str, tid: u32)
        ensures
            old(self)@.enabled ==> exists|ts: u64|
                final(self)@.events == old(self)@.events.push(
                    #[trigger] instant_event(name@, category@, tid, ts),
                ),
            !old(self)@.enabled ==> final(self)@.events == old(self)@.events,
            final(self)@.next_tid == old(self)@.next_tid,
            final(self)@.enabled == old(self)@.enabled,
    {
        if !self.enabled {
            return;
        }
        let ts = micros_since(&self.start_time);
        self.instant_at(name, category, tid, ts);
        proof {
            let _ = instant_event(name@, category@, tid, ts);
        }
    }

    /// The events to write out: nothing when disabled, else the process-name
    /// metadata followed by the recorded events.
    pub fn export_events(&self) -> (r: Option<Vec<TraceEvent>>)
        ensures
            !self@.enabled ==> r is None,
            self@.enabled ==> r is Some && event_views(r->0@) == seq![
                metadata_event("process_name"@, "rninja"@),
            ] + self@.events,
    {
        if !self.enabled {
            return None;
        }
        let mut out: Vec<TraceEvent> = Vec::new();
        out.push(metadata("process_name", "rninja"));
        let mut i: usize = 0;
        while i < self.events.len()
            invariant
                i <= self.events@.len(),
                event_views(out@) == seq![metadata_event("process_name"@, "rninja"@)]
                    + event_views(self.events@).take(i as int),
            decreases self.events@.len() - i,
        {
            let ghost o0 = event_views(out@);
            let e = copy_event(&self.events[i]);
            out.push(e);
            i = i + 1;
            proof {
                assert(event_views(out@) =~= o0.push(self.events@[i - 1]@));
                assert(event_views(self.events@).take(i as int) =~= event_views(self.events@).take(
                    i - 1,
                ).push(self.events@[i - 1]@));
            }
        }
        proof {
            assert(event_views(self.events@).take(i as int) =~= event_views(self.events@));
        }
        Some(out)
    }
}

/// The instant event `name` of `category` at `ts`.
pub open spec fn instant_event(name: Seq<char>, category: Seq<char>, tid: u32, ts: u64) -> TraceEventView {
    TraceEventView {
        name,
        category,
        phase: TracePhase::Instant,
        timestamp_us: ts,
        duration_us: None,
        pid: 1,
        tid,
        args: Seq::empty(),
    }
}

fn metadata(name: &str, value: &str) -> (e: TraceEvent)
    ensures
        e@ == metadata_event(name@, value@),
{
    proof {
        reveal_strlit("__metadata");
        reveal_strlit("name");
    }
    let mut args: StrMap<String> = StrMap::new();
    args.insert(owned("name"), owned(value));
    let e = TraceEvent {
        name: owned(name),
        category: owned("__metadata"),
        phase: TracePhase::Metadata,
        timestamp_us: 0,
        duration_us: None,
        pid: 1,
        tid: 0,
        args,
    };
    proof {
        assert(e@.args =~= seq![("name"@, value@)]);
    }
    e
}

fn copy_event(e: &TraceEvent) -> (r: TraceEvent)
    ensures
        r@ == e@,
{
    TraceEvent {
        name: e.name.clone(),
        category: e.category.clone(),
        phase: e.phase,
        timestamp_us: e.timestamp_us,
        duration_us: e.duration_us,
        pid: e.pid,
        tid: e.tid,
        args: e.args.duplicate(),
    }
}

// ---------------------------------------------------------------------------
// Statistics and rankings
// ---------------------------------------------------------------------------

/// Statistics of the complete (`X`) events of a trace.
#[derive(Debug, Clone, Copy)]
pub struct TraceStats {
    pub total_targets: usize,
    pub cache_hits: usize,
    pub total_time_us: u64,
    pub avg_time_us: u64,
    pub max_time_us: u64,
    pub wall_time_us: u64,
}

/// Whether `e` is a complete event.
pub open spec fn is_complete(e: TraceEventView) -> bool {
    e.phase == TracePhase::Complete
}

/// The duration of `e`, or 0 when it has none.
pub open spec fn dur_or_zero(e: TraceEventView) -> u64 {
    match e.duration_us {
        Some(d) => d,
        None => 0,
    }
}

/// Whether `e` carries the cache-hit mark.
pub open spec fn is_cache_hit(e: TraceEventView) -> bool {
    lookup(e.args, "cache"@) == Some("hit"@)
}

/// The number of complete events.
pub open spec fn count_complete(es: Seq<TraceEventView>) -> nat
    decreases es.len(),
{
    if es.len() == 0 {
        0
    } else {
        count_complete(es.drop_last()) + if is_complete(es.last()) {
            1nat
        } else {
            0nat
        }
    }
}

/// The number of complete events with the cache-hit mark.
pub open spec fn count_hits(es: Seq<TraceEventView>) -> nat
    decreases es.len(),
{
    if es.len() == 0 {
        0
    } else {
        count_hits(es.drop_last()) + if is_complete(es.last()) && is_cache_hit(es.last()) {
            1nat
        } else {
            0nat
        }
    }
}

/// The sum of the durations of the complete events.
pub open spec fn total_time(es: Seq<TraceEventView>) -> nat
    decreases es.len(),
{
    if es.len() == 0 {
        0
    } else {
        total_time(es.drop_last()) + if is_complete(es.last()) {
            dur_or_zero(es.last()) as nat
        } else {
            0nat
        }
    }
}

/// The longest duration of a complete event, or 0.
pub open spec fn max_time(es: Seq<TraceEventView>) -> nat
    decreases es.len(),
{
    if es.len() == 0 {
        0
    } else {
        let m = max_time(es.drop_last());
        if is_complete(es.last()) && dur_or_zero(es.last()) > m {
            dur_or_zero(es.last()) as nat
        } else {
            m
        }
    }
}

/// The complete events longer than `threshold_us`, as (name, whole
/// milliseconds), in order.
pub open spec fn slow_list(es: Seq<TraceEventView>, threshold_us: int) -> Seq<(Seq<char>, u64)>
    decreases es.len(),
{
    if es.len() == 0 {
        Seq::empty()
    } else {
        slow_list(es.drop_last(), threshold_us) + if is_complete(es.last()) && dur_or_zero(es.last())
            > threshold_us {
            seq![(es.last().name, (dur_or_zero(es.last()) / 1000) as u64)]
        } else {
            Seq::empty()
        }
    }
}

/// The complete events that have a duration, as (name, duration), in order.
pub open spec fn timed_list(es: Seq<TraceEventView>) -> Seq<(Seq<char>, u64)>
    decreases es.len(),
{
    if es.len() == 0 {
        Seq::empty()
    } else {
        timed_list(es.drop_last()) + if is_complete(es.last()) && es.last().duration_us is Some {
            seq![(es.last().name, es.last().duration_us->0)]
        } else {
            Seq::empty()
        }
    }
}

/// `x` put into `s` before the first element with a smaller key, so that a
/// descending order stays and equal keys keep their order.
pub open spec fn insert_desc(s: Seq<(Seq<char>, u64)>, x: (Seq<char>, u64)) -> Seq<(Seq<char>, u64)>
    decreases s.len(),
{
    if s.len() == 0 {
        seq![x]
    } else if s[0].1 < x.1 {
        seq![x] + s
    } else {
        seq![s[0]] + insert_desc(s.drop_first(), x)
    }
}

/// `s` sorted by key, largest first, with equal keys in their order in `s`:
/// what a stable sort by descending key gives.
pub open spec fn sort_desc(s: Seq<(Seq<char>, u64)>) -> Seq<(Seq<char>, u64)>
    decreases s.len(),
{
    if s.len() == 0 {
        s
    } else {
        insert_desc(sort_desc(s.drop_last()), s.last())
    }
}

/// The names of the first ten pairs of `s` (or all, when fewer).
pub open spec fn first_ten_names(s: Seq<(Seq<char>, u64)>) -> Seq<Seq<char>> {
    s.take(if s.len() < 10 { s.len() as int } else { 10 }).map_values(|p: (Seq<char>, u64)| p.0)
}

/// The views of (name, number) pairs.
pub open spec fn pair_views(v: Seq<(String, u64)>) -> Seq<(Seq<char>, u64)> {
    v.map_values(|p: (String, u64)| (p.0@, p.1))
}

proof fn lemma_insert_desc(s: Seq<(Seq<char>, u64)>, x: (Seq<char>, u64), p: int)
    requires
        0 <= p <= s.len(),
        forall|j: int| 0 <= j < p ==> !(#[trigger] s[j].1 < x.1),
        p < s.len() ==> s[p].1 < x.1,
    ensures
        insert_desc(s, x) == s.take(p) + seq![x] + s.skip(p),
    decreases s.len(),
{
    if s.len() == 0 {
        assert(s.take(p) + seq![x] + s.skip(p) =~= seq![x]);
    } else if p == 0 {
        assert(s.take(p) + seq![x] + s.skip(p) =~= seq![x] + s);
    } else {
        let t = s.drop_first();
        assert forall|j: int| 0 <= j < p - 1 implies !(#[trigger] t[j].1 < x.1) by {
            assert(t[j] == s[j + 1]);
        }
        lemma_insert_desc(t, x, p - 1);
        assert(s.take(p) + seq![x] + s.skip(p) =~= seq![s[0]] + (t.take(p - 1) + seq![x] + t.skip(
            p - 1,
        )));
    }
}

/// The index before which `insert_desc` puts `x`.
pub open spec fn first_smaller(s: Seq<(Seq<char>, u64)>, x: (Seq<char>, u64)) -> int
    decreases s.len(),
{
    if s.len() == 0 || s[0].1 < x.1 {
        0
    } else {
        1 + first_smaller(s.drop_first(), x)
    }
}

proof fn lemma_first_smaller(s: Seq<(Seq<char>, u64)>, x: (Seq<char>, u64))
    ensures
        0 <= first_smaller(s, x) <= s.len(),
        forall|j: int| 0 <= j < first_smaller(s, x) ==> !(#[trigger] s[j].1 < x.1),
        first_smaller(s, x) < s.len() ==> s[first_smaller(s, x)].1 < x.1,
    decreases s.len(),
{
    if s.len() > 0 && !(s[0].1 < x.1) {
        let t = s.drop_first();
        lemma_first_smaller(t, x);
        assert forall|j: int| 0 <= j < first_smaller(s, x) implies !(#[trigger] s[j].1 < x.1) by {
            if j > 0 {
                assert(s[j] == t[j - 1]);
            }
        }
    }
}

/// Whether the keys of `s` never grow from left to right.
pub open spec fn sorted_desc(s: Seq<(Seq<char>, u64)>) -> bool {
    forall|i: int, j: int| 0 <= i < j < s.len() ==> #[trigger] s[i].1 >= #[trigger] s[j].1
}

/// Sorting slowest first keeps exactly the elements it was given, each as
/// often, and puts no key after a smaller one.
pub proof fn law_sort_desc(s: Seq<(Seq<char>, u64)>)
    ensures
        sort_desc(s).to_multiset() == s.to_multiset(),
        sorted_desc(sort_desc(s)),
    decreases s.len(),
{
    broadcast use vstd::seq_lib::group_to_multiset_ensures;

    if s.len() > 0 {
        let t = sort_desc(s.drop_last());
        let x = s.last();
        law_sort_desc(s.drop_last());
        lemma_first_smaller(t, x);
        let p = first_smaller(t, x);
        lemma_insert_desc(t, x, p);
        let r = insert_desc(t, x);
        assert(r =~= t.insert(p, x));
        assert(s =~= s.drop_last().push(x));
        assert forall|i: int, j: int| 0 <= i < j < r.len() implies #[trigger] r[i].1 >= #[trigger] r[j].1 by {
            if j < p {
                assert(r[i] == t[i] && r[j] == t[j]);
            } else if j == p {
                assert(r[i] == t[i] && r[j] == x);
            } else if i < p {
                assert(r[i] == t[i] && r[j] == t[j - 1]);
                assert(t[i].1 >= t[j - 1].1);
            } else if i == p {
                assert(r[i] == x && r[j] == t[j - 1]);
                assert(t[p].1 >= t[j - 1].1);
            } else {
                assert(r[i] == t[i - 1] && r[j] == t[j - 1]);
            }
        }
    }
}

/// Sorts `v` by the second component, largest first; equal keys keep their
/// order (a stable insertion sort).
pub fn sort_pairs_desc(v: &Vec<(String, u64)>) -> (r: Vec<(String, u64)>)
    ensures
        pair_views(r@) == sort_desc(pair_views(v@)),
{
    let ghost vs = pair_views(v@);
    let mut r: Vec<(String, u64)> = Vec::new();
    let mut i: usize = 0;
    proof {
        assert(vs.take(0) =~= Seq::<(Seq<char>, u64)>::empty());
        assert(pair_views(r@) =~= Seq::<(Seq<char>, u64)>::empty());
    }
    while i < v.len()
        invariant
            i <= v@.len(),
            vs == pair_views(v@),
            pair_views(r@) == sort_desc(vs.take(i as int)),
        decreases v@.len() - i,
    {
        let key = v[i].1;
        let mut p: usize = 0;
        while p < r.len() && !(r[p].1 < key)
            invariant
                p <= r@.len(),
                forall|j: int| 0 <= j < p ==> !(#[trigger] r@[j].1 < key),
            decreases r@.len() - p,
        {
            p = p + 1;
        }
        let ghost s0 = pair_views(r@);
        let x = (v[i].0.clone(), key);
        let ghost xv = (x.0@, x.1);
        proof {
            assert(xv == vs[i as int]);
            assert forall|j: int| 0 <= j < p implies !(#[trigger] s0[j].1 < xv.1) by {
                assert(s0[j].1 == r@[j].1);
            }
            lemma_insert_desc(s0, xv, p as int);
            let t = vs.take(i + 1);
            assert(t.drop_last() =~= vs.take(i as int));
            assert(t.last() == xv);
        }
        r.insert(p, x);
        proof {
            assert(pair_views(r@) =~= s0.take(p as int) + seq![xv] + s0.skip(p as int));
        }
        i = i + 1;
    }
    proof {
        assert(vs.take(i as int) =~= vs);
    }
    r
}

proof fn lemma_total_prefix(es: Seq<TraceEventView>, i: int)
    requires
        0 <= i <= es.len(),
    ensures
        total_time(es.take(i)) <= total_time(es),
    decreases es.len(),
{
    if i < es.len() {
        assert(es.take(i) =~= es.drop_last().take(i));
        lemma_total_prefix(es.drop_last(), i);
    } else {
        assert(es.take(i) =~= es);
    }
}

proof fn lemma_counts_bounded(es: Seq<TraceEventView>)
    ensures
        count_hits(es) <= count_complete(es) <= es.len(),
    decreases es.len(),
{
    if es.len() > 0 {
        lemma_counts_bounded(es.drop_last());
    }
}

fn cache_hit_exec(e: &TraceEvent) -> (b: bool)
    ensures
        b == is_cache_hit(e@),
{
    proof {
        reveal_strlit("hit");
    }
    match e.args.get("cache") {
        Some(v) => str_eq(v.as_str(), "hit"),
        None => false,
    }
}

fn is_complete_exec(e: &TraceEvent) -> (b: bool)
    ensures
        b == is_complete(e@),
{
    match e.phase {
        TracePhase::Complete => true,
        _ => false,
    }
}

impl BuildTrace {
    /// The statistics of the complete events, with `wall_time_us` as the wall
    /// time.
    pub fn stats_at(&self, wall_time_us: u64) -> (s: TraceStats)
        requires
            total_time(self@.events) <= u64::MAX,
        ensures
            s.total_targets == count_complete(self@.events),
            s.cache_hits == count_hits(self@.events),
            s.total_time_us == total_time(self@.events),
            s.avg_time_us == (if count_complete(self@.events) > 0 {
                total_time(self@.events) / count_complete(self@.events)
            } else {
                0
            }),
            s.max_time_us == max_time(self@.events),
            s.wall_time_us == wall_time_us,
    {
        let ghost es = self@.events;
        let mut n: usize = 0;
        let mut hits: usize = 0;
        let mut total: u64 = 0;
        let mut max: u64 = 0;
        let mut i: usize = 0;
        while i < self.events.len()
            invariant
                i <= self.events@.len(),
                es == event_views(self.events@),
                total_time(es) <= u64::MAX,
                n == count_complete(es.take(i as int)),
                hits == count_hits(es.take(i as int)),
                total == total_time(es.take(i as int)),
                max == max_time(es.take(i as int)),
            decreases self.events@.len() - i,
        {
            let e = &self.events[i];
            proof {
                let t = es.take(i + 1);
                assert(t.drop_last() =~= es.take(i as int));
                assert(t.last() == e@);
                lemma_total_prefix(es, i + 1);
                lemma_counts_bounded(t);
            }
            if is_complete_exec(e) {
                n = n + 1;
                if cache_hit_exec(e) {
                    hits = hits + 1;
                }
                let d = match e.duration_us {
                    Some(d) => d,
                    None => 0,
                };
                total = total + d;
                if d > max {
                    max = d;
                }
            }
            i = i + 1;
        }
        proof {
            assert(es.take(i as int) =~= es);
        }
        let avg = if n > 0 {
            total / (n as u64)
        } else {
            0
        };
        TraceStats {
            total_targets: n,
            cache_hits: hits,
            total_time_us: total,
            avg_time_us: avg,
            max_time_us: max,
            wall_time_us,
        }
    }

    /// The statistics of the complete events, with the time since the trace
    /// started as the wall time (which depends on the clock).
    pub fn stats(&self) -> (s: TraceStats)
        requires
            total_time(self@.events) <= u64::MAX,
        ensures
            s.total_targets == count_complete(self@.events),
            s.cache_hits == count_hits(self@.events),
            s.total_time_us == total_time(self@.events),
            s.avg_time_us == (if count_complete(self@.events) > 0 {
                total_time(self@.events) / count_complete(self@.events)
            } else {
                0
            }),
            s.max_time_us == max_time(self@.events),
    {
        let wall = micros_since(&self.start_time);
        self.stats_at(wall)
    }

    /// The targets that took longer than `threshold_ms` milliseconds, as
    /// (name, whole milliseconds), slowest first.
    pub fn slow_targets(&self, threshold_ms: u64) -> (r: Vec<(String, u64)>)
        requires
            threshold_ms * 1000 <= u64::MAX,
        ensures
            pair_views(r@) == sort_desc(slow_list(self@.events, threshold_ms * 1000)),
    {
        let threshold_us = threshold_ms * 1000;
        let ghost es = self@.events;
        let mut slow: Vec<(String, u64)> = Vec::new();
        let mut i: usize = 0;
        while i < self.events.len()
            invariant
                i <= self.events@.len(),
                es == event_views(self.events@),
                threshold_us == threshold_ms * 1000,
                pair_views(slow@) == slow_list(es.take(i as int), threshold_us as int),
            decreases self.events@.len() - i,
        {
            let e = &self.events[i];
            let ghost s0 = pair_views(slow@);
            proof {
                let t = es.take(i + 1);
                assert(t.drop_last() =~= es.take(i as int));
                assert(t.last() == e@);
            }
            let d = match e.duration_us {
                Some(d) => d,
                None => 0,
            };
            if is_complete_exec(e) && d > threshold_us {
                slow.push((e.name.clone(), d / 1000));
                proof {
                    assert(pair_views(slow@) =~= s0.push((e@.name, (d / 1000) as u64)));
                }
            }
            i = i + 1;
        }
        proof {
            assert(es.take(i as int) =~= es);
        }
        sort_pairs_desc(&slow)
    }

    /// The names of the ten longest complete targets, longest first (equal
    /// durations in the order recorded).
    pub fn critical_path(&self) -> (r: Vec<String>)
        ensures
            crate::text::views(r@) == first_ten_names(sort_desc(timed_list(self@.events))),
    {
        let ghost es = self@.events;
        let mut timed: Vec<(String, u64)> = Vec::new();
        let mut i: usize = 0;
        while i < self.events.len()
            invariant
                i <= self.events@.len(),
                es == event_views(self.events@),
                pair_views(timed@) == timed_list(es.take(i as int)),
            decreases self.events@.len() - i,
        {
            let e = &self.events[i];
            let ghost s0 = pair_views(timed@);
            proof {
                let t = es.take(i + 1);
                assert(t.drop_last() =~= es.take(i as int));
                assert(t.last() == e@);
            }
            if is_complete_exec(e) {
                match e.duration_us {
                    Some(d) => {
                        timed.push((e.name.clone(), d));
                        proof {
                            assert(pair_views(timed@) =~= s0.push((e@.name, d)));
                        }
                    },
                    None => {},
                }
            }
            i = i + 1;
        }
        proof {
            assert(es.take(i as int) =~= es);
        }
        let sorted = sort_pairs_desc(&timed);
        let ghost ss = pair_views(sorted@);
        let n: usize = if sorted.len() < 10 {
            sorted.len()
        } else {
            10
        };
        let mut names: Vec<String> = Vec::new();
        let mut j: usize = 0;
        while j < n
            invariant
                j <= n,
                n <= sorted@.len(),
                n == (if ss.len() < 10 { ss.len() as int } else { 10 }),
                ss == pair_views(sorted@),
                crate::text::views(names@) == ss.take(j as int).map_values(|p: (Seq<char>, u64)| p.0),
            decreases n - j,
        {
            let ghost n0 = crate::text::views(names@);
            names.push(sorted[j].0.clone());
            j = j + 1;
            proof {
                assert(crate::text::views(names@) =~= n0.push(sorted@[j - 1].0@));
                assert(ss.take(j as int).map_values(|p: (Seq<char>, u64)| p.0) =~= ss.take(j - 1).map_values(
                    |p: (Seq<char>, u64)| p.0,
                ).push(ss[j - 1].0));
            }
        }
        names
    }
}

} // verus!
