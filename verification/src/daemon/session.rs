//! Build sessions of the daemon: each client build request is a session
//! that records its progress as responses for the client.
use vstd::prelude::*;
use crate::daemon::protocol::{BuildRequest, BuildStats, DaemonResponse};
use crate::metrics::basic::{instant_now, millis_since};
use crate::strmap::{has_key, insert_kv, key_index, lookup, remove_kv, StrMap};
use crate::text::{decimal, push_decimal, push_str, string_of};

verus! {

/// The state of a build session.
#[derive(Debug, Clone, Copy, PartialEq, Eq, Structural)]
pub enum SessionState {
    /// The build is running.
    Running,
    /// The build completed successfully.
    Completed,
    /// The build failed.
    Failed,
    /// The build was cancelled.
    Cancelled,
}

/// A build session.
pub struct BuildSession {
    /// The session's id (that of its request).
    pub id: String,
    /// The request that started it.
    pub request: BuildRequest,
    /// Its state.
    pub state: SessionState,
    /// When it started.
    pub started: std::time::Instant,
    /// The statistics of its build.
    pub stats: BuildStats,
    /// The responses not yet sent to the client, oldest first.
    pub responses: Vec<DaemonResponse>,
}

/// The statistics of a build with nothing counted.
pub open spec fn zero_stats() -> BuildStats {
    BuildStats {
        targets_built: 0,
        targets_skipped: 0,
        targets_failed: 0,
        cache_hits: 0,
        cache_misses: 0,
        duration_ms: 0,
    }
}

impl BuildSession {
    /// The responses queued for the client, oldest first.
    pub open spec fn queued(&self) -> Seq<DaemonResponse> {
        self.responses@
    }

    /// A running session for `request`, with nothing counted or queued.
    pub fn new(request: BuildRequest) -> (s: Self)
        ensures
            s.id@ == request.session_id@,
            s.request == request,
            s.state == SessionState::Running,
            s.stats == zero_stats(),
            s.queued() == Seq::<DaemonResponse>::empty(),
    {
        let id = request.session_id.clone();
        BuildSession {
            id,
            request,
            state: SessionState::Running,
            started: instant_now(),
            stats: BuildStats {
                targets_built: 0,
                targets_skipped: 0,
                targets_failed: 0,
                cache_hits: 0,
                cache_misses: 0,
                duration_ms: 0,
            },
            responses: Vec::new(),
        }
    }

    /// The session's id.
    pub fn id(&self) -> (s: &str)
        ensures
            s@ == self.id@,
    {
        self.id.as_str()
    }

    /// Whether the build is still running.
    pub fn is_running(&self) -> (b: bool)
        ensures
            b == (self.state == SessionState::Running),
    {
        self.state == SessionState::Running
    }

    /// Ends the session as completed or failed, recording its duration
    /// (which depends on the clock).
    pub fn complete(&mut self, success: bool)
        ensures
            final(self).state == (if success {
                SessionState::Completed
            } else {
                SessionState::Failed
            }),
            final(self).stats == (BuildStats {
                duration_ms: final(self).stats.duration_ms,
                ..old(self).stats
            }),
            final(self).id == old(self).id,
            final(self).request == old(self).request,
            final(self).queued() == old(self).queued(),
    {
        self.state = if success {
            SessionState::Completed
        } else {
            SessionState::Failed
        };
        self.stats.duration_ms = millis_since(&self.started);
    }

    /// Cancels the session.
    pub fn cancel(&mut self)
        ensures
            final(self).state == SessionState::Cancelled,
            final(self).stats == old(self).stats,
            final(self).id == old(self).id,
            final(self).request == old(self).request,
            final(self).queued() == old(self).queued(),
    {
        self.state = SessionState::Cancelled;
    }

    /// Queues a response for the client.
    pub fn queue_response(&mut self, response: DaemonResponse)
        ensures
            final(self).queued() == old(self).queued().push(response),
            final(self).state == old(self).state,
            final(self).stats == old(self).stats,
            final(self).id == old(self).id,
            final(self).request == old(self).request,
    {
        self.responses.push(response);
    }

    /// Takes the queued responses, oldest first.
    pub fn take_responses(&mut self) -> (r: Vec<DaemonResponse>)
        ensures
            r@ == old(self).queued(),
            final(self).queued() == Seq::<DaemonResponse>::empty(),
            final(self).state == old(self).state,
            final(self).stats == old(self).stats,
            final(self).id == old(self).id,
            final(self).request == old(self).request,
    {
        let mut out: Vec<DaemonResponse> = Vec::new();
        std::mem::swap(&mut out, &mut self.responses);
        out
    }

    /// Records that a target started.
    pub fn target_started(&mut self, target: &str, index: usize, total: usize, command: Option<String>)
        ensures
            final(self).queued().len() == old(self).queued().len() + 1,
            final(self).queued().drop_last() == old(self).queued(),
            final(self).queued().last() matches DaemonResponse::TargetStarted {
                target: t,
                index: i,
                total: n,
                command: c,
            } && t@ == target@ && i == index && n == total && c == command,
            final(self).state == old(self).state,
            final(self).stats == old(self).stats,
            final(self).id == old(self).id,
            final(self).request == old(self).request,
    {
        let ghost q0 = self.responses@;
        self.queue_response(
            DaemonResponse::TargetStarted { target: crate::text::owned(target), index, total, command },
        );
        proof {
            assert(self.responses@.drop_last() =~= q0);
        }
    }

    /// Records the output of a target, when it has any.
    pub fn target_output(&mut self, target: &str, stdout: Vec<u8>, stderr: Vec<u8>)
        ensures
            stdout@.len() == 0 && stderr@.len() == 0 ==> final(self).queued() == old(self).queued(),
            stdout@.len() > 0 || stderr@.len() > 0 ==> final(self).queued().drop_last()
                == old(self).queued() && final(self).queued().len() == old(self).queued().len() + 1
                && (final(self).queued().last() matches DaemonResponse::TargetOutput {
                target: t,
                stdout: o,
                stderr: e,
            } && t@ == target@ && o@ == stdout@ && e@ == stderr@),
            final(self).state == old(self).state,
            final(self).stats == old(self).stats,
            final(self).id == old(self).id,
            final(self).request == old(self).request,
    {
        if stdout.len() > 0 || stderr.len() > 0 {
            let ghost q0 = self.responses@;
            self.queue_response(
                DaemonResponse::TargetOutput { target: crate::text::owned(target), stdout, stderr },
            );
            proof {
                assert(self.responses@.drop_last() =~= q0);
            }
        }
    }

    /// Records that a target finished: a success counts as built, and as a
    /// cache hit or miss; a failure counts as failed.
    pub fn target_finished(
        &mut self,
        target: &str,
        index: usize,
        total: usize,
        success: bool,
        cached: bool,
        duration_ms: u64,
    )
        requires
            success ==> old(self).stats.targets_built < usize::MAX && old(self).stats.cache_hits
                < usize::MAX && old(self).stats.cache_misses < usize::MAX,
            !success ==> old(self).stats.targets_failed < usize::MAX,
        ensures
            final(self).stats == (if success {
                if cached {
                    BuildStats {
                        targets_built: (old(self).stats.targets_built + 1) as usize,
                        cache_hits: (old(self).stats.cache_hits + 1) as usize,
                        ..old(self).stats
                    }
                } else {
                    BuildStats {
                        targets_built: (old(self).stats.targets_built + 1) as usize,
                        cache_misses: (old(self).stats.cache_misses + 1) as usize,
                        ..old(self).stats
                    }
                }
            } else {
                BuildStats {
                    targets_failed: (old(self).stats.targets_failed + 1) as usize,
                    ..old(self).stats
                }
            }),
            final(self).queued().len() == old(self).queued().len() + 1,
            final(self).queued().drop_last() == old(self).queued(),
            final(self).queued().last() matches DaemonResponse::TargetFinished {
                target: t,
                index: i,
                total: n,
                success: s,
                cached: c,
                duration_ms: d,
            } && t@ == target@ && i == index && n == total && s == success && c == cached && d
                == duration_ms,
            final(self).state == old(self).state,
            final(self).id == old(self).id,
            final(self).request == old(self).request,
    {
        if success {
            self.stats.targets_built = self.stats.targets_built + 1;
            if cached {
                self.stats.cache_hits = self.stats.cache_hits + 1;
            } else {
                self.stats.cache_misses = self.stats.cache_misses + 1;
            }
        } else {
            self.stats.targets_failed = self.stats.targets_failed + 1;
        }
        let ghost q0 = self.responses@;
        self.queue_response(
            DaemonResponse::TargetFinished {
                target: crate::text::owned(target),
                index,
                total,
                success,
                cached,
                duration_ms,
            },
        );
        proof {
            assert(self.responses@.drop_last() =~= q0);
        }
    }

    /// Ends the build: completes the session and queues the final response
    /// with the statistics.
    pub fn build_finished(&mut self, success: bool)
        ensures
            final(self).state == (if success {
                SessionState::Completed
            } else {
                SessionState::Failed
            }),
            final(self).stats == (BuildStats {
                duration_ms: final(self).stats.duration_ms,
                ..old(self).stats
            }),
            final(self).queued().len() == old(self).queued().len() + 1,
            final(self).queued().drop_last() == old(self).queued(),
            final(self).queued().last() matches DaemonResponse::BuildFinished {
                session_id: sid,
                success: s,
                stats: st,
            } && sid@ == old(self).id@ && s == success && st == final(self).stats,
            final(self).id == old(self).id,
            final(self).request == old(self).request,
    {
        self.complete(success);
        let stats = self.stats;
        let ghost q0 = self.responses@;
        self.queue_response(
            DaemonResponse::BuildFinished { session_id: self.id.clone(), success, stats },
        );
        proof {
            assert(self.responses@.drop_last() =~= q0);
        }
    }

    /// Milliseconds since the session started; it depends on the clock.
    pub fn elapsed_ms(&self) -> u64 {
        millis_since(&self.started)
    }
}

/// The mathematical value of a session: everything but the instant it
/// started (a reading of the clock).
pub struct SessionView {
    pub id: Seq<char>,
    pub request: BuildRequest,
    pub state: SessionState,
    pub stats: BuildStats,
    pub responses: Seq<DaemonResponse>,
}

impl View for BuildSession {
    type V = SessionView;

    open spec fn view(&self) -> SessionView {
        SessionView {
            id: self.id@,
            request: self.request,
            state: self.state,
            stats: self.stats,
            responses: self.responses@,
        }
    }
}

/// The session that `request` starts: running, with nothing counted or
/// queued.
pub open spec fn new_session(request: BuildRequest) -> SessionView {
    SessionView {
        id: request.session_id@,
        request,
        state: SessionState::Running,
        stats: zero_stats(),
        responses: Seq::empty(),
    }
}

/// The session `v` once ended as completed or failed, its build having
/// taken `duration_ms` milliseconds.
pub open spec fn ended_session(v: SessionView, success: bool, duration_ms: u64) -> SessionView {
    SessionView {
        state: if success {
            SessionState::Completed
        } else {
            SessionState::Failed
        },
        stats: BuildStats { duration_ms, ..v.stats },
        ..v
    }
}

/// The number of running sessions.
pub open spec fn running_count(s: Seq<(Seq<char>, SessionView)>) -> nat
    decreases s.len(),
{
    if s.len() == 0 {
        0
    } else {
        running_count(s.drop_last()) + if s.last().1.state == SessionState::Running {
            1nat
        } else {
            0nat
        }
    }
}

/// 1 for a running session, else 0.
pub open spec fn running_one(e: (Seq<char>, SessionView)) -> nat {
    if e.1.state == SessionState::Running {
        1
    } else {
        0
    }
}

proof fn lemma_running_update(s: Seq<(Seq<char>, SessionView)>, i: int, e: (Seq<char>, SessionView))
    requires
        0 <= i < s.len(),
    ensures
        running_count(s.update(i, e)) + running_one(s[i]) == running_count(s) + running_one(e),
    decreases s.len(),
{
    let u = s.update(i, e);
    if i == s.len() - 1 {
        assert(u.drop_last() =~= s.drop_last());
    } else {
        lemma_running_update(s.drop_last(), i, e);
        assert(u.drop_last() =~= s.drop_last().update(i, e));
    }
}

/// The sessions never run more builds than their limit: a session starts
/// only while fewer builds run than the limit, and a session that completes,
/// fails or is cancelled adds no running build.
pub proof fn law_running_within_limit(s: Seq<(Seq<char>, SessionView)>, max: usize, id: Seq<char>, v: SessionView)
    ensures
        running_count(s) < max ==> running_count(insert_kv(s, id, v)) <= max,
        v.state != SessionState::Running ==> running_count(insert_kv(s, id, v)) <= running_count(s),
{
    crate::strmap::lemma_key_index_bound(s, id);
    match key_index(s, id) {
        Some(i) => {
            lemma_running_update(s, i, (id, v));
        },
        None => {
            assert(s.push((id, v)).drop_last() =~= s);
        },
    }
}

/// Whether a session is kept by a clean-up that drops finished sessions of
/// at least `max_age_secs` seconds: it is running, or its build started
/// fewer than `max_age_secs` seconds (`elapsed_ms` milliseconds) ago.
pub open spec fn keeps_session(v: SessionView, elapsed_ms: u64, max_age_secs: u64) -> bool {
    v.state == SessionState::Running || elapsed_ms < max_age_secs * 1000
}

/// The sessions of `s` that a clean-up keeps, in order, when the `k`-th
/// session started `el[k]` milliseconds ago.
pub open spec fn sessions_kept(
    s: Seq<(Seq<char>, SessionView)>,
    el: Seq<u64>,
    max_age_secs: u64,
) -> Seq<(Seq<char>, SessionView)>
    decreases s.len(),
{
    if s.len() == 0 {
        Seq::empty()
    } else {
        sessions_kept(s.drop_last(), el.drop_last(), max_age_secs) + if keeps_session(
            s.last().1,
            el[s.len() - 1],
            max_age_secs,
        ) {
            seq![s.last()]
        } else {
            Seq::empty()
        }
    }
}

/// A clean-up keeps every running session and every session younger than
/// the age limit, drops the rest, and keeps the order; with an age of 0
/// only the running sessions stay.
pub proof fn law_cleanup_keeps_running(s: Seq<(Seq<char>, SessionView)>, el: Seq<u64>, max_age_secs: u64)
    requires
        el.len() == s.len(),
    ensures
        forall|j: int|
            0 <= j < s.len() ==> (sessions_kept(s, el, max_age_secs).contains(#[trigger] s[j])
                <== keeps_session(s[j].1, el[j], max_age_secs)),
        forall|k: int|
            0 <= k < sessions_kept(s, el, max_age_secs).len() ==> s.contains(
                #[trigger] sessions_kept(s, el, max_age_secs)[k],
            ),
        max_age_secs == 0 ==> forall|k: int|
            0 <= k < sessions_kept(s, el, max_age_secs).len() ==> (#[trigger] sessions_kept(
                s,
                el,
                max_age_secs,
            )[k]).1.state == SessionState::Running,
        (forall|j: int| 0 <= j < s.len() ==> #[trigger] keeps_session(s[j].1, el[j], max_age_secs))
            ==> sessions_kept(s, el, max_age_secs) == s,
    decreases s.len(),
{
    if s.len() > 0 {
        let p = s.drop_last();
        let ep = el.drop_last();
        law_cleanup_keeps_running(p, ep, max_age_secs);
        let kp = sessions_kept(p, ep, max_age_secs);
        let k = sessions_kept(s, el, max_age_secs);
        let last = s.len() - 1;
        assert forall|j: int|
            0 <= j < s.len() && keeps_session(s[j].1, el[j], max_age_secs) implies k.contains(
            #[trigger] s[j],
        ) by {
            if j < last {
                assert(p[j] == s[j] && ep[j] == el[j]);
                let q = choose|q: int| 0 <= q < kp.len() && kp[q] == p[j];
                assert(k[q] == kp[q]);
            } else {
                assert(k[kp.len() as int] == s.last());
            }
        }
        assert forall|q: int| 0 <= q < k.len() implies s.contains(#[trigger] k[q]) by {
            if q < kp.len() {
                assert(k[q] == kp[q]);
                let j = choose|j: int| 0 <= j < p.len() && p[j] == kp[q];
                assert(s[j] == p[j]);
            } else {
                assert(k[q] == s[last]);
            }
        }
        if max_age_secs == 0 {
            assert forall|q: int| 0 <= q < k.len() implies (#[trigger] k[q]).1.state
                == SessionState::Running by {
                if q < kp.len() {
                    assert(k[q] == kp[q]);
                }
            }
        }
        if forall|j: int| 0 <= j < s.len() ==> #[trigger] keeps_session(s[j].1, el[j], max_age_secs) {
            assert forall|j: int| 0 <= j < p.len() implies #[trigger] keeps_session(
                p[j].1,
                ep[j],
                max_age_secs,
            ) by {
                assert(keeps_session(s[j].1, el[j], max_age_secs));
            }
            assert(keeps_session(s[last].1, el[last], max_age_secs));
            assert(k =~= s);
        }
    }
}

/// The keeper of the daemon's sessions.
pub struct SessionManager {
    sessions: StrMap<BuildSession>,
    max_concurrent: usize,
}

/// The mathematical value of a `SessionManager`: the sessions by id and
/// the limit of concurrent builds.
pub struct SessionManagerView {
    pub sessions: Seq<(Seq<char>, SessionView)>,
    pub max_concurrent: usize,
}

impl View for SessionManager {
    type V = SessionManagerView;

    closed spec fn view(&self) -> SessionManagerView {
        SessionManagerView { sessions: self.sessions@, max_concurrent: self.max_concurrent }
    }
}

/// The message of a refused session.
pub open spec fn limit_message(max: usize) -> Seq<char> {
    "Maximum concurrent builds ("@ + decimal(max as nat) + ") reached"@
}

proof fn lemma_running_bound(s: Seq<(Seq<char>, SessionView)>)
    ensures
        running_count(s) <= s.len(),
    decreases s.len(),
{
    if s.len() > 0 {
        lemma_running_bound(s.drop_last());
    }
}

impl SessionManager {
    /// No sessions, with at most `max_concurrent` builds at once.
    pub fn new(max_concurrent: usize) -> (m: Self)
        ensures
            m@.sessions == Seq::<(Seq<char>, SessionView)>::empty(),
            m@.max_concurrent == max_concurrent,
    {
        SessionManager { sessions: StrMap::new(), max_concurrent }
    }

    /// The number of running builds.
    pub fn active_build_count(&self) -> (n: usize)
        ensures
            n == running_count(self@.sessions),
    {
        let ghost s = self@.sessions;
        let mut n: usize = 0;
        let mut i: usize = 0;
        while i < self.sessions.len()
            invariant
                i <= s.len(),
                s == self@.sessions,
                n == running_count(s.take(i as int)),
            decreases s.len() - i,
        {
            proof {
                let t = s.take(i + 1);
                assert(t.drop_last() =~= s.take(i as int));
                lemma_running_bound(t);
            }
            if self.sessions.value_at(i).is_running() {
                n = n + 1;
            }
            i = i + 1;
        }
        proof {
            assert(s.take(i as int) =~= s);
        }
        n
    }

    /// Starts a session for `request` and returns its id, unless the limit
    /// of running builds is reached; a session with the same id is replaced.
    pub fn create_session(&mut self, request: BuildRequest) -> (r: Result<String, String>)
        ensures
            running_count(old(self)@.sessions) >= old(self)@.max_concurrent ==> (r matches Err(
                msg,
            ) && msg@ == limit_message(old(self)@.max_concurrent)) && final(self)@ == old(self)@,
            running_count(old(self)@.sessions) < old(self)@.max_concurrent ==> (r matches Ok(id)
                && id@ == request.session_id@) && final(self)@.sessions == insert_kv(
                old(self)@.sessions,
                request.session_id@,
                new_session(request),
            ) && final(self)@.max_concurrent == old(self)@.max_concurrent,
    {
        let active = self.active_build_count();
        if active >= self.max_concurrent {
            let mut v: Vec<char> = Vec::new();
            push_str(&mut v, "Maximum concurrent builds (");
            push_decimal(&mut v, self.max_concurrent as u64);
            push_str(&mut v, ") reached");
            return Err(string_of(&v));
        }
        let session = BuildSession::new(request);
        let id = session.id.clone();
        self.sessions.insert(session.id.clone(), session);
        Ok(id)
    }

    /// The session `id`.
    pub fn get_session(&self, id: &str) -> (r: Option<&BuildSession>)
        ensures
            match lookup(self@.sessions, id@) {
                Some(v) => r is Some && r->0@ == v,
                None => r is None,
            },
    {
        self.sessions.get(id)
    }

    /// Removes the session `id` and hands it back.
    pub fn remove_session(&mut self, id: &str) -> (r: Option<BuildSession>)
        ensures
            final(self)@.sessions == remove_kv(old(self)@.sessions, id@),
            final(self)@.max_concurrent == old(self)@.max_concurrent,
            match lookup(old(self)@.sessions, id@) {
                Some(v) => r is Some && r->0@ == v,
                None => r is None,
            },
    {
        self.sessions.remove(id)
    }

    /// Ends the session `id` as completed or failed, recording how long its
    /// build took (a reading of the clock); false when there is none.
    pub fn complete_session(&mut self, id: &str, success: bool) -> (b: bool)
        ensures
            b == has_key(old(self)@.sessions, id@),
            b ==> exists|d: u64|
                final(self)@.sessions == insert_kv(
                    old(self)@.sessions,
                    id@,
                    #[trigger] ended_session(lookup(old(self)@.sessions, id@)->0, success, d),
                ),
            !b ==> final(self)@.sessions == old(self)@.sessions,
            final(self)@.max_concurrent == old(self)@.max_concurrent,
    {
        match self.sessions.find(id) {
            Some(i) => {
                proof {
                    crate::strmap::lemma_key_index_bound(self@.sessions, id@);
                }
                let ghost s0 = self@.sessions;
                let (k, mut s) = self.sessions.remove_at(i);
                s.complete(success);
                self.sessions.insert_at(i, k, s);
                proof {
                    let d = s.stats.duration_ms;
                    assert(s@ == ended_session(s0[i as int].1, success, d));
                    assert(self@.sessions =~= s0.update(i as int, (id@, ended_session(s0[i as int].1, success, d))));
                    assert(lookup(s0, id@)->0 == s0[i as int].1);
                    assert(self@.sessions == insert_kv(s0, id@, ended_session(lookup(s0, id@)->0, success, d)));
                }
                true
            },
            None => false,
        }
    }

    /// Cancels the session `id`; false when there is none.
    pub fn cancel_session(&mut self, id: &str) -> (b: bool)
        ensures
            b == has_key(old(self)@.sessions, id@),
            b ==> final(self)@.sessions == insert_kv(
                old(self)@.sessions,
                id@,
                SessionView { state: SessionState::Cancelled, ..lookup(old(self)@.sessions, id@)->0 },
            ),
            !b ==> final(self)@.sessions == old(self)@.sessions,
            final(self)@.max_concurrent == old(self)@.max_concurrent,
    {
        match self.sessions.find(id) {
            Some(i) => {
                proof {
                    crate::strmap::lemma_key_index_bound(self@.sessions, id@);
                }
                let ghost s0 = self@.sessions;
                let (k, mut s) = self.sessions.remove_at(i);
                s.cancel();
                self.sessions.insert_at(i, k, s);
                proof {
                    assert(self@.sessions =~= s0.update(i as int, (id@, SessionView { state: SessionState::Cancelled, ..s0[i as int].1 })));
                }
                true
            },
            None => false,
        }
    }

    /// The number of sessions.
    pub fn session_count(&self) -> (n: usize)
        ensures
            n == self@.sessions.len(),
    {
        self.sessions.len()
    }

    /// For each session in order, the milliseconds since it started (a
    /// reading of the clock).
    pub fn session_ages_ms(&self) -> (r: Vec<u64>)
        ensures
            r@.len() == self@.sessions.len(),
    {
        let mut r: Vec<u64> = Vec::new();
        let mut i: usize = 0;
        while i < self.sessions.len()
            invariant
                i <= self@.sessions.len(),
                r@.len() == i,
            decreases self@.sessions.len() - i,
        {
            r.push(millis_since(&self.sessions.value_at(i).started));
            i = i + 1;
        }
        r
    }

    /// Drops the sessions that are no longer running and whose build started
    /// at least `max_age_secs` seconds ago, the `k`-th session having started
    /// `elapsed_ms[k]` milliseconds ago; the kept ones keep their order.
    pub fn drop_finished_sessions(&mut self, max_age_secs: u64, elapsed_ms: &Vec<u64>)
        requires
            elapsed_ms@.len() == old(self)@.sessions.len(),
        ensures
            final(self)@.sessions == sessions_kept(old(self)@.sessions, elapsed_ms@, max_age_secs),
            final(self)@.max_concurrent == old(self)@.max_concurrent,
    {
        let ghost s0 = self@.sessions;
        let ghost el = elapsed_ms@;
        let mut i: usize = 0;
        let mut j: usize = 0;
        proof {
            assert(s0.take(0) =~= Seq::<(Seq<char>, SessionView)>::empty());
            assert(s0.skip(0) =~= s0);
            assert(self@.sessions =~= sessions_kept(s0.take(0), el.take(0), max_age_secs) + s0.skip(0));
        }
        while j < elapsed_ms.len()
            invariant
                s0 == old(self)@.sessions,
                el == elapsed_ms@,
                el.len() == s0.len(),
                j <= s0.len(),
                i == sessions_kept(s0.take(j as int), el.take(j as int), max_age_secs).len(),
                self@.sessions == sessions_kept(s0.take(j as int), el.take(j as int), max_age_secs)
                    + s0.skip(j as int),
                self@.max_concurrent == old(self)@.max_concurrent,
            decreases el.len() - j,
        {
            let ghost kj = sessions_kept(s0.take(j as int), el.take(j as int), max_age_secs);
            let ghost cur = self@.sessions;
            proof {
                assert(s0.take(j + 1).drop_last() =~= s0.take(j as int));
                assert(el.take(j + 1).drop_last() =~= el.take(j as int));
                assert(cur[i as int] == s0[j as int]);
            }
            let n_now = self.sessions.len();
            proof {
                assert(i < n_now);
            }
            let running = self.sessions.value_at(i).is_running();
            let keep = running || (elapsed_ms[j] as u128) < (max_age_secs as u128) * 1000;
            proof {
                assert(keep == keeps_session(s0[j as int].1, el[j as int], max_age_secs));
            }
            if keep {
                i = i + 1;
                proof {
                    assert(self@.sessions =~= kj.push(s0[j as int]) + s0.skip(j + 1));
                    assert(kj + seq![s0[j as int]] =~= kj.push(s0[j as int]));
                }
            } else {
                let _ = self.sessions.remove_at(i);
                proof {
                    assert(self@.sessions =~= kj + s0.skip(j + 1));
                    assert(kj + Seq::<(Seq<char>, SessionView)>::empty() =~= kj);
                }
            }
            j = j + 1;
        }
        proof {
            assert(s0.take(j as int) =~= s0);
            assert(el.take(j as int) =~= el);
            assert(s0.skip(j as int) =~= Seq::<(Seq<char>, SessionView)>::empty());
            assert(self@.sessions =~= sessions_kept(s0, el, max_age_secs));
        }
    }

    /// Drops the sessions that are no longer running and started at least
    /// `max_age_secs` seconds ago by the clock (see `drop_finished_sessions`,
    /// with the ages read now); with an age of 0 every session that is not
    /// running goes.
    pub fn cleanup_old_sessions(&mut self, max_age_secs: u64)
        ensures
            final(self)@.max_concurrent == old(self)@.max_concurrent,
            exists|el: Seq<u64>|
                el.len() == old(self)@.sessions.len() && final(self)@.sessions == #[trigger] sessions_kept(
                    old(self)@.sessions,
                    el,
                    max_age_secs,
                ),
    {
        let ages = self.session_ages_ms();
        self.drop_finished_sessions(max_age_secs, &ages);
    }
}

} // verus!
