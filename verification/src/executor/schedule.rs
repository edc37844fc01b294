//! The decisions of a parallel build: which nodes need building, the state
//! of each node, which pending nodes may start, when to stop, and the
//! final statistics.  The program spawns the commands and reports back.
use vstd::prelude::*;
use crate::graph::node::{Node, NodeView};
use crate::graph::Graph;
use crate::error::ExecError;
use super::Stats;
use crate::strmap::{insert_kv, key_index, lookup, StrMap};
use crate::text::views;

verus! {

/// The state of a node during a build.
#[derive(Debug, Clone, Copy, PartialEq, Eq, Structural)]
pub enum NodeState {
    /// Waiting for dependencies.
    Pending,
    /// Dependencies satisfied, waiting for a job slot.
    Ready,
    /// Executing.
    Running,
    /// Finished successfully.
    Completed,
    /// Its command failed.
    Failed,
    /// Skipped because the build stopped or was cancelled.
    Cancelled,
}

impl View for NodeState {
    type V = NodeState;

    open spec fn view(&self) -> NodeState {
        *self
    }
}

/// A refused change of state.
#[derive(Debug, Clone, Copy, PartialEq, Eq, Structural)]
pub struct InvalidTransition {
    pub from: NodeState,
    pub to: NodeState,
}

/// Whether a node may go from `from` to `to`: forward along
/// pending → ready → running → completed, failed or cancelled from any of
/// the first three (a node whose dependency failed fails without running),
/// and any state to itself.
pub open spec fn allowed(from: NodeState, to: NodeState) -> bool {
    match (from, to) {
        (NodeState::Pending, NodeState::Ready) => true,
        (NodeState::Pending, NodeState::Running) => true,
        (NodeState::Pending, NodeState::Failed) => true,
        (NodeState::Pending, NodeState::Cancelled) => true,
        (NodeState::Ready, NodeState::Running) => true,
        (NodeState::Ready, NodeState::Failed) => true,
        (NodeState::Ready, NodeState::Cancelled) => true,
        (NodeState::Running, NodeState::Completed) => true,
        (NodeState::Running, NodeState::Failed) => true,
        (NodeState::Running, NodeState::Cancelled) => true,
        _ => from == to,
    }
}

impl NodeState {
    /// The state after moving to `new`, or the refused change.
    pub fn transition(self, new: NodeState) -> (r: Result<NodeState, InvalidTransition>)
        ensures
            allowed(self, new) ==> r == Ok::<NodeState, InvalidTransition>(new),
            !allowed(self, new) ==> r == Err::<NodeState, InvalidTransition>(
                InvalidTransition { from: self, to: new },
            ),
    {
        match (self, new) {
            (NodeState::Pending, NodeState::Ready)
            | (NodeState::Pending, NodeState::Running)
            | (NodeState::Pending, NodeState::Failed)
            | (NodeState::Pending, NodeState::Cancelled) => Ok(new),
            (NodeState::Ready, NodeState::Running)
            | (NodeState::Ready, NodeState::Failed)
            | (NodeState::Ready, NodeState::Cancelled) => Ok(new),
            (NodeState::Running, NodeState::Completed)
            | (NodeState::Running, NodeState::Failed)
            | (NodeState::Running, NodeState::Cancelled) => Ok(new),
            (old, new) => {
                if old == new {
                    Ok(new)
                } else {
                    Err(InvalidTransition { from: old, to: new })
                }
            },
        }
    }
}

/// Whether `s` is a state that a node does not leave.
pub open spec fn is_terminal(s: NodeState) -> bool {
    s == NodeState::Completed || s == NodeState::Failed || s == NodeState::Cancelled
}

/// A node that completed, failed or was cancelled keeps its state: every
/// other change is refused.
pub proof fn law_terminal_states_stay(from: NodeState, to: NodeState)
    requires
        is_terminal(from),
        allowed(from, to),
    ensures
        to == from,
{
}

// ---------------------------------------------------------------------------
// What needs building
// ---------------------------------------------------------------------------

/// The paths marked for building after visiting the nodes of `order` from the
/// last back to index `k`: a node that is not a source file is marked when
/// its own flag says it needs rebuilding or when one of its dependencies was
/// marked before it in that walk.
pub open spec fn marked_from(order: Seq<NodeView>, flags: Seq<bool>, k: int) -> Set<Seq<char>>
    decreases order.len() - k,
{
    if k < 0 || k >= order.len() {
        Set::empty()
    } else {
        let m = marked_from(order, flags, k + 1);
        let n = order[k];
        if (flags[k] || exists|d: Seq<char>| n.deps.contains(d) && m.contains(d)) && !n.is_source {
            m.insert(n.path)
        } else {
            m
        }
    }
}

/// The nodes of `order` that are marked, in order.
pub open spec fn work_list(order: Seq<NodeView>, marked: Set<Seq<char>>) -> Seq<Seq<char>>
    decreases order.len(),
{
    if order.len() == 0 {
        Seq::empty()
    } else {
        work_list(order.drop_last(), marked) + if marked.contains(order.last().path) {
            seq![order.last().path]
        } else {
            Seq::empty()
        }
    }
}

/// The views of node references.
pub open spec fn ref_views(v: Seq<&Node>) -> Seq<NodeView> {
    v.map_values(|n: &Node| n@)
}

fn any_dep_in(deps: &Vec<String>, marked: &Vec<String>) -> (b: bool)
    ensures
        b == exists|d: Seq<char>| views(deps@).contains(d) && views(marked@).contains(d),
{
    let mut i: usize = 0;
    while i < deps.len()
        invariant
            i <= deps@.len(),
            forall|j: int| 0 <= j < i ==> !views(marked@).contains(#[trigger] deps@[j]@),
        decreases deps@.len() - i,
    {
        if crate::graph::contains_str(marked, deps[i].as_str()) {
            proof {
                assert(views(deps@)[i as int] == deps@[i as int]@);
            }
            return true;
        }
        i = i + 1;
    }
    proof {
        assert forall|d: Seq<char>| !(views(deps@).contains(d) && views(marked@).contains(d)) by {
            if views(deps@).contains(d) {
                let j = choose|j: int| 0 <= j < views(deps@).len() && views(deps@)[j] == d;
                assert(deps@[j]@ == d);
            }
        }
    }
    false
}

/// The nodes of `order` (a topological order) that need building, in that
/// order.  `rebuild[i]` says whether the `i`-th node needs rebuilding by
/// itself (`Node::needs_rebuild`); the marks are then spread from the last
/// node back to the first.
pub fn nodes_to_build(order: &Vec<&Node>, rebuild: &Vec<bool>) -> (r: Vec<String>)
    requires
        rebuild@.len() == order@.len(),
    ensures
        views(r@) == work_list(ref_views(order@), marked_from(ref_views(order@), rebuild@, 0)),
{
    let ghost ov = ref_views(order@);
    let mut marked: Vec<String> = Vec::new();
    let mut k: usize = order.len();
    while k > 0
        invariant
            k <= order@.len(),
            ov == ref_views(order@),
            rebuild@.len() == order@.len(),
            forall|x: Seq<char>| #[trigger] views(marked@).contains(x) <==> marked_from(ov, rebuild@, k as int).contains(x),
        decreases k,
    {
        k = k - 1;
        let n = order[k];
        let ghost m0 = views(marked@);
        let ghost m = marked_from(ov, rebuild@, k + 1);
        proof {
            assert(ov[k as int] == n@);
        }
        let hit = any_dep_in(&n.deps, &marked);
        proof {
            assert(hit == exists|d: Seq<char>| n@.deps.contains(d) && m.contains(d)) by {
                if hit {
                    let d = choose|d: Seq<char>| views(n.deps@).contains(d) && m0.contains(d);
                    assert(m.contains(d));
                }
                if exists|d: Seq<char>| n@.deps.contains(d) && m.contains(d) {
                    let d = choose|d: Seq<char>| n@.deps.contains(d) && m.contains(d);
                    assert(m0.contains(d));
                }
            }
        }
        if (rebuild[k] || hit) && !n.is_source {
            marked.push(n.path.clone());
            proof {
                assert(views(marked@) =~= m0.push(n@.path));
                assert forall|x: Seq<char>| #[trigger] views(marked@).contains(x) <==> m.insert(n@.path).contains(x) by {
                    if views(marked@).contains(x) {
                        let j = choose|j: int| 0 <= j < views(marked@).len() && views(marked@)[j] == x;
                        if j < m0.len() {
                            assert(m0[j] == x);
                            assert(m0.contains(x));
                        }
                    }
                    if m0.contains(x) {
                        let j = choose|j: int| 0 <= j < m0.len() && m0[j] == x;
                        assert(views(marked@)[j] == x);
                    }
                    if x == n@.path {
                        assert(views(marked@)[m0.len() as int] == x);
                    }
                }
            }
        }
    }
    let ghost ms = marked_from(ov, rebuild@, 0);
    let mut work: Vec<String> = Vec::new();
    let mut i: usize = 0;
    while i < order.len()
        invariant
            i <= order@.len(),
            ov == ref_views(order@),
            forall|x: Seq<char>| #[trigger] views(marked@).contains(x) <==> ms.contains(x),
            views(work@) == work_list(ov.take(i as int), ms),
        decreases order@.len() - i,
    {
        let n = order[i];
        let ghost w0 = views(work@);
        proof {
            let t = ov.take(i + 1);
            assert(t.drop_last() =~= ov.take(i as int));
            assert(t.last() == n@);
        }
        if crate::graph::contains_str(&marked, n.path.as_str()) {
            work.push(n.path.clone());
            proof {
                assert(views(marked@).contains(n@.path));
                assert(views(work@) =~= w0.push(n@.path));
            }
        } else {
            proof {
                assert(!views(marked@).contains(n@.path));
            }
        }
        i = i + 1;
    }
    proof {
        assert(ov.take(i as int) =~= ov);
    }
    work
}

// ---------------------------------------------------------------------------
// The state of a build
// ---------------------------------------------------------------------------

/// The number of entries of `s` in the failed state.
pub open spec fn count_failed(s: Seq<(Seq<char>, NodeState)>) -> nat
    decreases s.len(),
{
    if s.len() == 0 {
        0
    } else {
        count_failed(s.drop_last()) + if s.last().1 == NodeState::Failed {
            1nat
        } else {
            0nat
        }
    }
}

proof fn lemma_count_failed_bound(s: Seq<(Seq<char>, NodeState)>)
    ensures
        count_failed(s) <= s.len(),
    decreases s.len(),
{
    if s.len() > 0 {
        lemma_count_failed_bound(s.drop_last());
    }
}

proof fn lemma_count_failed_push(s: Seq<(Seq<char>, NodeState)>, e: (Seq<char>, NodeState))
    ensures
        count_failed(s.push(e)) == count_failed(s) + if e.1 == NodeState::Failed {
            1nat
        } else {
            0nat
        },
{
    assert(s.push(e).drop_last() =~= s);
}

proof fn lemma_count_failed_update(s: Seq<(Seq<char>, NodeState)>, i: int, e: (Seq<char>, NodeState))
    requires
        0 <= i < s.len(),
    ensures
        count_failed(s.update(i, e)) + (if s[i].1 == NodeState::Failed {
            1nat
        } else {
            0nat
        }) == count_failed(s) + if e.1 == NodeState::Failed {
            1nat
        } else {
            0nat
        },
    decreases s.len(),
{
    if i == s.len() - 1 {
        assert(s.update(i, e).drop_last() =~= s.drop_last());
    } else {
        lemma_count_failed_update(s.drop_last(), i, e);
        assert(s.update(i, e).drop_last() =~= s.drop_last().update(i, e));
    }
}

/// The state of `path`: pending until it is first set.
pub open spec fn state_of(states: Seq<(Seq<char>, NodeState)>, path: Seq<char>) -> NodeState {
    match lookup(states, path) {
        Some(s) => s,
        None => NodeState::Pending,
    }
}

/// The mathematical value of a `BuildState`.
pub struct BuildStateView {
    pub states: Seq<(Seq<char>, NodeState)>,
    pub fail_count: usize,
    pub progress: usize,
    pub total: usize,
    pub cache_hits: usize,
    pub cache_misses: usize,
}

/// The shared state of a build: each node's state, the number of failed
/// nodes, the progress counter and the cache counters.
pub struct BuildState {
    states: StrMap<NodeState>,
    fail_count: usize,
    progress: usize,
    total: usize,
    cache_hits: usize,
    cache_misses: usize,
}

impl View for BuildState {
    type V = BuildStateView;

    closed spec fn view(&self) -> BuildStateView {
        BuildStateView {
            states: self.states@,
            fail_count: self.fail_count,
            progress: self.progress,
            total: self.total,
            cache_hits: self.cache_hits,
            cache_misses: self.cache_misses,
        }
    }
}

/// The states after moving `path` to `new` where that is allowed (a refused
/// change leaves them as they are).
pub open spec fn apply(states: Seq<(Seq<char>, NodeState)>, path: Seq<char>, new: NodeState) -> Seq<
    (Seq<char>, NodeState),
> {
    if allowed(state_of(states, path), new) {
        insert_kv(states, path, new)
    } else {
        states
    }
}

impl BuildState {
    /// The invariant: the failure counter counts the failed nodes.
    pub open spec fn wf(&self) -> bool {
        self@.fail_count == count_failed(self@.states)
    }

    /// A build of `total` nodes with nothing done yet.
    pub fn new(total: usize) -> (s: Self)
        ensures
            s.wf(),
            s@.states == Seq::<(Seq<char>, NodeState)>::empty(),
            s@.fail_count == 0,
            s@.progress == 0,
            s@.total == total,
            s@.cache_hits == 0,
            s@.cache_misses == 0,
    {
        BuildState {
            states: StrMap::new(),
            fail_count: 0,
            progress: 0,
            total,
            cache_hits: 0,
            cache_misses: 0,
        }
    }

    /// The number of nodes in the build.
    pub fn total(&self) -> (n: usize)
        ensures
            n == self@.total,
    {
        self.total
    }

    /// The number of failed nodes.
    pub fn fail_count(&self) -> (n: usize)
        ensures
            n == self@.fail_count,
    {
        self.fail_count
    }

    /// The number of nodes that have taken a progress number.
    pub fn progress(&self) -> (n: usize)
        ensures
            n == self@.progress,
    {
        self.progress
    }

    /// The number of cache hits.
    pub fn cache_hits(&self) -> (n: usize)
        ensures
            n == self@.cache_hits,
    {
        self.cache_hits
    }

    /// The number of cache misses.
    pub fn cache_misses(&self) -> (n: usize)
        ensures
            n == self@.cache_misses,
    {
        self.cache_misses
    }

    /// The state of `path`.
    pub fn state(&self, path: &str) -> (s: NodeState)
        ensures
            s == state_of(self@.states, path@),
    {
        match self.states.get(path) {
            Some(s) => *s,
            None => NodeState::Pending,
        }
    }

    /// Moves `path` to `new` where the change is allowed, counting a newly
    /// failed node; a refused change is ignored.
    pub fn apply_transition(&mut self, path: &str, new: NodeState)
        requires
            old(self).wf(),
        ensures
            final(self).wf(),
            final(self)@.states == apply(old(self)@.states, path@, new),
            final(self)@.fail_count == old(self)@.fail_count + if allowed(
                state_of(old(self)@.states, path@),
                new,
            ) && new == NodeState::Failed && state_of(old(self)@.states, path@)
                != NodeState::Failed {
                1int
            } else {
                0int
            },
            final(self)@.progress == old(self)@.progress,
            final(self)@.total == old(self)@.total,
            final(self)@.cache_hits == old(self)@.cache_hits,
            final(self)@.cache_misses == old(self)@.cache_misses,
    {
        let current = self.state(path);
        match current.transition(new) {
            Ok(final_state) => {
                let ghost s0 = self.states@;
                let key = crate::text::owned(path);
                proof {
                    lemma_count_failed_bound(s0);
                    match key_index(s0, path@) {
                        Some(i) => {
                            crate::strmap::lemma_key_index_bound(s0, path@);
                            lemma_count_failed_update(s0, i, (path@, final_state));
                        },
                        None => {
                            lemma_count_failed_push(s0, (path@, final_state));
                        },
                    }
                }
                self.states.insert(key, final_state);
                let n_entries = self.states.len();
                if final_state == NodeState::Failed && current != NodeState::Failed {
                    proof {
                        lemma_count_failed_bound(self.states@);
                        assert(self.fail_count < n_entries);
                    }
                    self.fail_count = self.fail_count + 1;
                }
            },
            Err(_) => {},
        }
    }

    /// Marks `path` ready.
    pub fn mark_ready(&mut self, path: &str)
        requires
            old(self).wf(),
        ensures
            final(self).wf(),
            final(self)@.states == apply(old(self)@.states, path@, NodeState::Ready),
            final(self)@.fail_count == old(self)@.fail_count,
            final(self)@.progress == old(self)@.progress,
            final(self)@.total == old(self)@.total,
            final(self)@.cache_hits == old(self)@.cache_hits,
            final(self)@.cache_misses == old(self)@.cache_misses,
    {
        self.apply_transition(path, NodeState::Ready);
    }

    /// Marks `path` running.
    pub fn mark_running(&mut self, path: &str)
        requires
            old(self).wf(),
        ensures
            final(self).wf(),
            final(self)@.states == apply(old(self)@.states, path@, NodeState::Running),
            final(self)@.fail_count == old(self)@.fail_count,
            final(self)@.progress == old(self)@.progress,
            final(self)@.total == old(self)@.total,
            final(self)@.cache_hits == old(self)@.cache_hits,
            final(self)@.cache_misses == old(self)@.cache_misses,
    {
        self.apply_transition(path, NodeState::Running);
    }

    /// Marks `path` completed.
    pub fn mark_completed(&mut self, path: &str)
        requires
            old(self).wf(),
        ensures
            final(self).wf(),
            final(self)@.states == apply(old(self)@.states, path@, NodeState::Completed),
            final(self)@.fail_count == old(self)@.fail_count,
            final(self)@.progress == old(self)@.progress,
            final(self)@.total == old(self)@.total,
            final(self)@.cache_hits == old(self)@.cache_hits,
            final(self)@.cache_misses == old(self)@.cache_misses,
    {
        self.apply_transition(path, NodeState::Completed);
    }

    /// Marks `path` failed (counted once, when it was not failed before).
    pub fn mark_failed(&mut self, path: &str)
        requires
            old(self).wf(),
        ensures
            final(self).wf(),
            final(self)@.states == apply(old(self)@.states, path@, NodeState::Failed),
            final(self)@.progress == old(self)@.progress,
            final(self)@.total == old(self)@.total,
            final(self)@.cache_hits == old(self)@.cache_hits,
            final(self)@.cache_misses == old(self)@.cache_misses,
    {
        self.apply_transition(path, NodeState::Failed);
    }

    /// Marks `path` cancelled.
    pub fn mark_cancelled(&mut self, path: &str)
        requires
            old(self).wf(),
        ensures
            final(self).wf(),
            final(self)@.states == apply(old(self)@.states, path@, NodeState::Cancelled),
            final(self)@.fail_count == old(self)@.fail_count,
            final(self)@.progress == old(self)@.progress,
            final(self)@.total == old(self)@.total,
            final(self)@.cache_hits == old(self)@.cache_hits,
            final(self)@.cache_misses == old(self)@.cache_misses,
    {
        self.apply_transition(path, NodeState::Cancelled);
    }

    /// Whether one of `deps` failed or was cancelled.
    pub fn has_failed_dep(&self, deps: &Vec<String>) -> (b: bool)
        ensures
            b == exists|j: int|
                0 <= j < deps@.len() && #[trigger] dep_failed(self@.states, deps@[j]@),
    {
        let mut i: usize = 0;
        while i < deps.len()
            invariant
                i <= deps@.len(),
                forall|j: int| 0 <= j < i ==> !#[trigger] dep_failed(self@.states, deps@[j]@),
            decreases deps@.len() - i,
        {
            match self.states.get(deps[i].as_str()) {
                Some(NodeState::Failed) | Some(NodeState::Cancelled) => {
                    assert(dep_failed(self@.states, deps@[i as int]@));
                    return true;
                },
                _ => {},
            }
            i = i + 1;
        }
        false
    }

    /// Whether every one of `deps` is done, or is a source file (a path with
    /// no node counts as one).
    pub fn deps_ready(&self, deps: &Vec<String>, graph: &Graph) -> (b: bool)
        ensures
            b == forall|j: int|
                0 <= j < deps@.len() ==> #[trigger] dep_ready(self@.states, graph@.nodes, deps@[j]@),
    {
        let mut i: usize = 0;
        while i < deps.len()
            invariant
                i <= deps@.len(),
                forall|j: int|
                    0 <= j < i ==> #[trigger] dep_ready(self@.states, graph@.nodes, deps@[j]@),
            decreases deps@.len() - i,
        {
            let d = deps[i].as_str();
            let done = match self.states.get(d) {
                Some(NodeState::Completed) => true,
                _ => false,
            };
            let source = match graph.get_node(d) {
                Some(n) => n.is_source,
                None => true,
            };
            if !(done || source) {
                assert(!dep_ready(self@.states, graph@.nodes, deps@[i as int]@));
                return false;
            }
            i = i + 1;
        }
        true
    }

    /// Takes the next progress number (counting from 1).
    pub fn next_progress(&mut self) -> (n: usize)
        requires
            old(self).wf(),
            old(self)@.progress < usize::MAX,
        ensures
            final(self).wf(),
            n == old(self)@.progress + 1,
            final(self)@ == (BuildStateView { progress: n, ..old(self)@ }),
    {
        self.progress = self.progress + 1;
        self.progress
    }

    /// Counts a cache hit (the counter wraps).
    pub fn record_cache_hit(&mut self)
        requires
            old(self).wf(),
        ensures
            final(self).wf(),
            final(self)@ == (BuildStateView {
                cache_hits: if old(self)@.cache_hits == usize::MAX {
                    0
                } else {
                    (old(self)@.cache_hits + 1) as usize
                },
                ..old(self)@
            }),
    {
        self.cache_hits = self.cache_hits.wrapping_add(1);
    }

    /// Counts a cache miss (the counter wraps).
    pub fn record_cache_miss(&mut self)
        requires
            old(self).wf(),
        ensures
            final(self).wf(),
            final(self)@ == (BuildStateView {
                cache_misses: if old(self)@.cache_misses == usize::MAX {
                    0
                } else {
                    (old(self)@.cache_misses + 1) as usize
                },
                ..old(self)@
            }),
    {
        self.cache_misses = self.cache_misses.wrapping_add(1);
    }
}

/// Whether the dependency `d` failed or was cancelled.
pub open spec fn dep_failed(states: Seq<(Seq<char>, NodeState)>, d: Seq<char>) -> bool {
    lookup(states, d) == Some(NodeState::Failed) || lookup(states, d) == Some(NodeState::Cancelled)
}

/// Whether the dependency `d` lets a node start: it is completed, or it is
/// a source file or has no node.
pub open spec fn dep_ready(
    states: Seq<(Seq<char>, NodeState)>,
    nodes: Seq<(Seq<char>, NodeView)>,
    d: Seq<char>,
) -> bool {
    lookup(states, d) == Some(NodeState::Completed) || match lookup(nodes, d) {
        Some(n) => n.is_source,
        None => true,
    }
}

// ---------------------------------------------------------------------------
// Rounds of the build loop
// ---------------------------------------------------------------------------

/// Whether the build stops for failures: a limit is set (`keep_going` above
/// 0) and reached.
pub fn should_stop(fail_count: usize, keep_going: usize) -> (b: bool)
    ensures
        b == (keep_going > 0 && fail_count >= keep_going),
{
    keep_going > 0 && fail_count >= keep_going
}

/// The outcome of one round over the pending nodes: the states after it, the
/// nodes that may start and those that still wait.
pub struct RoundView {
    pub states: Seq<(Seq<char>, NodeState)>,
    pub ready: Seq<NodeView>,
    pub waiting: Seq<NodeView>,
}

/// Whether some dependency of `n` failed or was cancelled.
pub open spec fn any_dep_failed(states: Seq<(Seq<char>, NodeState)>, n: NodeView) -> bool {
    exists|j: int| 0 <= j < n.deps.len() && #[trigger] dep_failed(states, n.deps[j])
}

/// Whether every dependency of `n` lets it start.
pub open spec fn all_deps_ready(
    states: Seq<(Seq<char>, NodeState)>,
    nodes: Seq<(Seq<char>, NodeView)>,
    n: NodeView,
) -> bool {
    forall|j: int| 0 <= j < n.deps.len() ==> #[trigger] dep_ready(states, nodes, n.deps[j])
}

/// The round over `pending`, node by node in order: a node with a failed
/// dependency is marked failed and dropped; one whose dependencies are all
/// ready may start; any other waits.
pub open spec fn round(
    states: Seq<(Seq<char>, NodeState)>,
    nodes: Seq<(Seq<char>, NodeView)>,
    pending: Seq<NodeView>,
) -> RoundView
    decreases pending.len(),
{
    if pending.len() == 0 {
        RoundView { states, ready: Seq::empty(), waiting: Seq::empty() }
    } else {
        let r = round(states, nodes, pending.drop_last());
        let n = pending.last();
        if any_dep_failed(r.states, n) {
            RoundView { states: apply(r.states, n.path, NodeState::Failed), ..r }
        } else if all_deps_ready(r.states, nodes, n) {
            RoundView { ready: r.ready.push(n), ..r }
        } else {
            RoundView { waiting: r.waiting.push(n), ..r }
        }
    }
}

/// Failing `q` leaves every node in a final state where it was, and a
/// node not yet in one becomes failed.
proof fn lemma_apply_failed(states: Seq<(Seq<char>, NodeState)>, q: Seq<char>, p: Seq<char>)
    ensures
        is_terminal(state_of(states, p)) ==> lookup(apply(states, q, NodeState::Failed), p)
            == lookup(states, p),
        !is_terminal(state_of(states, p)) ==> state_of(apply(states, q, NodeState::Failed), p) == (
        if p == q {
            NodeState::Failed
        } else {
            state_of(states, p)
        }),
{
    crate::strmap::law_insert_lookup(states, q, NodeState::Failed, p);
}

/// A round only ever fails nodes: afterwards each node is in the state it
/// had or failed, and a node in a final state stays in it.
proof fn lemma_round_only_fails(
    states: Seq<(Seq<char>, NodeState)>,
    nodes: Seq<(Seq<char>, NodeView)>,
    pending: Seq<NodeView>,
    p: Seq<char>,
)
    ensures
        state_of(round(states, nodes, pending).states, p) == state_of(states, p) || state_of(
            round(states, nodes, pending).states,
            p,
        ) == NodeState::Failed,
        is_terminal(state_of(states, p)) ==> lookup(round(states, nodes, pending).states, p)
            == lookup(states, p),
    decreases pending.len(),
{
    if pending.len() > 0 {
        let r = round(states, nodes, pending.drop_last());
        lemma_round_only_fails(states, nodes, pending.drop_last(), p);
        lemma_apply_failed(r.states, pending.last().path, p);
    }
}

/// A dependency that failed or was cancelled before a round still counts
/// as failed after it.
proof fn lemma_round_keeps_dep_failed(
    states: Seq<(Seq<char>, NodeState)>,
    nodes: Seq<(Seq<char>, NodeView)>,
    pending: Seq<NodeView>,
    n: NodeView,
)
    requires
        any_dep_failed(states, n),
    ensures
        any_dep_failed(round(states, nodes, pending).states, n),
{
    let j = choose|j: int| 0 <= j < n.deps.len() && #[trigger] dep_failed(states, n.deps[j]);
    lemma_round_only_fails(states, nodes, pending, n.deps[j]);
    assert(dep_failed(round(states, nodes, pending).states, n.deps[j]));
}

/// In a round, a pending node one of whose dependencies had failed before
/// the round, and which was not already finished, ends failed.
proof fn lemma_round_fails_dependents(
    states: Seq<(Seq<char>, NodeState)>,
    nodes: Seq<(Seq<char>, NodeView)>,
    pending: Seq<NodeView>,
    i: int,
)
    requires
        0 <= i < pending.len(),
        any_dep_failed(states, pending[i]),
        !is_terminal(state_of(states, pending[i].path)),
    ensures
        state_of(round(states, nodes, pending).states, pending[i].path) == NodeState::Failed,
    decreases pending.len(),
{
    let pre = pending.drop_last();
    let r = round(states, nodes, pre);
    let last = pending.last();
    let p = pending[i].path;
    if i == pending.len() - 1 {
        lemma_round_keeps_dep_failed(states, nodes, pre, last);
        lemma_round_only_fails(states, nodes, pre, p);
        lemma_apply_failed(r.states, p, p);
    } else {
        assert(pre[i] == pending[i]);
        lemma_round_fails_dependents(states, nodes, pre, i);
        lemma_apply_failed(r.states, last.path, p);
    }
}

/// A round splits the pending nodes: each one is handed out, kept waiting
/// or failed, so the nodes handed out and kept waiting are never more than
/// were pending (the measure by which the build loop ends).
pub proof fn law_round_splits_pending(
    states: Seq<(Seq<char>, NodeState)>,
    nodes: Seq<(Seq<char>, NodeView)>,
    pending: Seq<NodeView>,
)
    ensures
        round(states, nodes, pending).ready.len() + round(states, nodes, pending).waiting.len()
            <= pending.len(),
    decreases pending.len(),
{
    if pending.len() > 0 {
        law_round_splits_pending(states, nodes, pending.drop_last());
    }
}

/// A round hands out a node only when each of its dependencies had
/// completed before the round, is a source file, or has no node: no node
/// starts before what it is built from.
pub proof fn law_round_respects_dependencies(
    states: Seq<(Seq<char>, NodeState)>,
    nodes: Seq<(Seq<char>, NodeView)>,
    pending: Seq<NodeView>,
)
    ensures
        forall|k: int|
            0 <= k < round(states, nodes, pending).ready.len() ==> all_deps_ready(
                states,
                nodes,
                #[trigger] round(states, nodes, pending).ready[k],
            ),
    decreases pending.len(),
{
    if pending.len() > 0 {
        let pre = pending.drop_last();
        let r = round(states, nodes, pre);
        let n = pending.last();
        law_round_respects_dependencies(states, nodes, pre);
        if !any_dep_failed(r.states, n) && all_deps_ready(r.states, nodes, n) {
            assert forall|j: int| 0 <= j < n.deps.len() implies #[trigger] dep_ready(
                states,
                nodes,
                n.deps[j],
            ) by {
                assert(dep_ready(r.states, nodes, n.deps[j]));
                lemma_round_only_fails(states, nodes, pre, n.deps[j]);
            }
            let rr = round(states, nodes, pending);
            assert forall|k: int| 0 <= k < rr.ready.len() implies all_deps_ready(
                states,
                nodes,
                #[trigger] rr.ready[k],
            ) by {
                if k < r.ready.len() {
                    assert(rr.ready[k] == r.ready[k]);
                }
            }
        }
    }
}

/// The states after cancelling each of `pending` in order.
pub open spec fn cancel_all(states: Seq<(Seq<char>, NodeState)>, pending: Seq<NodeView>) -> Seq<
    (Seq<char>, NodeState),
>
    decreases pending.len(),
{
    if pending.len() == 0 {
        states
    } else {
        apply(cancel_all(states, pending.drop_last()), pending.last().path, NodeState::Cancelled)
    }
}

impl BuildState {
    /// One round over `pending` (see `round`): returns the nodes that may
    /// start and those that still wait.  A pending node whose dependency
    /// failed ends failed, so that the nodes above it fail in turn and the
    /// build ends also when failures set no limit.
    pub fn sort_pending<'a>(&mut self, pending: Vec<&'a Node>, graph: &Graph) -> (r: (
        Vec<&'a Node>,
        Vec<&'a Node>,
    ))
        requires
            old(self).wf(),
        ensures
            final(self).wf(),
            final(self)@.states == round(old(self)@.states, graph@.nodes, ref_views(pending@)).states,
            ref_views(r.0@) == round(old(self)@.states, graph@.nodes, ref_views(pending@)).ready,
            ref_views(r.1@) == round(old(self)@.states, graph@.nodes, ref_views(pending@)).waiting,
            r.0@.len() + r.1@.len() <= pending@.len(),
            forall|k: int|
                0 <= k < r.0@.len() ==> all_deps_ready(old(self)@.states, graph@.nodes, (#[trigger] r.0@[k])@),
            forall|i: int|
                0 <= i < pending@.len() && any_dep_failed(old(self)@.states, pending@[i]@)
                    && !is_terminal(state_of(old(self)@.states, pending@[i]@.path))
                    ==> state_of(final(self)@.states, (#[trigger] pending@[i])@.path)
                    == NodeState::Failed,
            final(self)@.progress == old(self)@.progress,
            final(self)@.total == old(self)@.total,
            final(self)@.cache_hits == old(self)@.cache_hits,
            final(self)@.cache_misses == old(self)@.cache_misses,
    {
        let ghost pv = ref_views(pending@);
        let ghost s0 = self@;
        let mut ready: Vec<&'a Node> = Vec::new();
        let mut waiting: Vec<&'a Node> = Vec::new();
        let mut i: usize = 0;
        while i < pending.len()
            invariant
                i <= pending@.len(),
                pv == ref_views(pending@),
                self.wf(),
                self@.states == round(s0.states, graph@.nodes, pv.take(i as int)).states,
                ref_views(ready@) == round(s0.states, graph@.nodes, pv.take(i as int)).ready,
                ref_views(waiting@) == round(s0.states, graph@.nodes, pv.take(i as int)).waiting,
                self@.progress == s0.progress,
                self@.total == s0.total,
                self@.cache_hits == s0.cache_hits,
                self@.cache_misses == s0.cache_misses,
            decreases pending@.len() - i,
        {
            let node = pending[i];
            proof {
                let t = pv.take(i + 1);
                assert(t.drop_last() =~= pv.take(i as int));
                assert(t.last() == node@);
                assert(views(node.deps@).len() == node.deps@.len());
            }
            let failed = self.has_failed_dep(&node.deps);
            proof {
                assert(failed == any_dep_failed(self@.states, node@)) by {
                    if failed {
                        let j = choose|j: int| 0 <= j < node.deps@.len() && #[trigger] dep_failed(self@.states, node.deps@[j]@);
                        assert(node@.deps[j] == node.deps@[j]@);
                    }
                    if any_dep_failed(self@.states, node@) {
                        let j = choose|j: int| 0 <= j < node@.deps.len() && #[trigger] dep_failed(self@.states, node@.deps[j]);
                        assert(node@.deps[j] == node.deps@[j]@);
                    }
                }
            }
            if failed {
                self.mark_failed(node.path.as_str());
            } else {
                let ok = self.deps_ready(&node.deps, graph);
                proof {
                    assert(ok == all_deps_ready(self@.states, graph@.nodes, node@)) by {
                        if ok {
                            assert forall|j: int| 0 <= j < node@.deps.len() implies #[trigger] dep_ready(self@.states, graph@.nodes, node@.deps[j]) by {
                                assert(node@.deps[j] == node.deps@[j]@);
                            }
                        }
                        if all_deps_ready(self@.states, graph@.nodes, node@) {
                            assert forall|j: int| 0 <= j < node.deps@.len() implies #[trigger] dep_ready(self@.states, graph@.nodes, node.deps@[j]@) by {
                                assert(node@.deps[j] == node.deps@[j]@);
                            }
                        }
                    }
                }
                if ok {
                    let ghost r0 = ref_views(ready@);
                    ready.push(node);
                    proof {
                        assert(ref_views(ready@) =~= r0.push(node@));
                    }
                } else {
                    let ghost w0 = ref_views(waiting@);
                    waiting.push(node);
                    proof {
                        assert(ref_views(waiting@) =~= w0.push(node@));
                    }
                }
            }
            i = i + 1;
        }
        proof {
            assert(pv.take(i as int) =~= pv);
            assert forall|k: int|
                0 <= k < pending@.len() && any_dep_failed(s0.states, pending@[k]@)
                    && !is_terminal(state_of(s0.states, pending@[k]@.path))
                    implies state_of(self@.states, (#[trigger] pending@[k])@.path)
                    == NodeState::Failed by {
                assert(pv[k] == pending@[k]@);
                lemma_round_fails_dependents(s0.states, graph@.nodes, pv, k);
            }
            law_round_respects_dependencies(s0.states, graph@.nodes, pv);
            law_round_splits_pending(s0.states, graph@.nodes, pv);
            assert(ref_views(ready@).len() == ready@.len());
            assert(ref_views(waiting@).len() == waiting@.len());
            assert forall|k: int| 0 <= k < ready@.len() implies all_deps_ready(
                s0.states,
                graph@.nodes,
                (#[trigger] ready@[k])@,
            ) by {
                assert(ref_views(ready@)[k] == ready@[k]@);
            }
        }
        (ready, waiting)
    }

    /// Cancels each of `pending` in order.
    pub fn cancel_pending(&mut self, pending: &Vec<&Node>)
        requires
            old(self).wf(),
        ensures
            final(self).wf(),
            final(self)@.states == cancel_all(old(self)@.states, ref_views(pending@)),
            final(self)@.fail_count == old(self)@.fail_count,
            final(self)@.progress == old(self)@.progress,
            final(self)@.total == old(self)@.total,
            final(self)@.cache_hits == old(self)@.cache_hits,
            final(self)@.cache_misses == old(self)@.cache_misses,
    {
        let ghost pv = ref_views(pending@);
        let ghost s0 = self@;
        let mut i: usize = 0;
        while i < pending.len()
            invariant
                i <= pending@.len(),
                pv == ref_views(pending@),
                self.wf(),
                self@.states == cancel_all(s0.states, pv.take(i as int)),
                self@.fail_count == s0.fail_count,
                self@.progress == s0.progress,
                self@.total == s0.total,
                self@.cache_hits == s0.cache_hits,
                self@.cache_misses == s0.cache_misses,
            decreases pending@.len() - i,
        {
            proof {
                let t = pv.take(i + 1);
                assert(t.drop_last() =~= pv.take(i as int));
                assert(t.last() == pending@[i as int]@);
            }
            self.mark_cancelled(pending[i].path.as_str());
            i = i + 1;
        }
        proof {
            assert(pv.take(i as int) =~= pv);
        }
    }

    /// The statistics at the end of the build, with `total_time` as its
    /// duration: every node that took a progress number started, those that
    /// did not fail finished, and the nodes never reached were skipped.
    pub fn final_stats(&self, total_time: std::time::Duration) -> (s: Stats)
        ensures
            s.started == self@.progress,
            s.finished == (if self@.progress >= self@.fail_count {
                self@.progress - self@.fail_count
            } else {
                0
            }),
            s.failed == self@.fail_count,
            s.skipped == (if self@.total >= self@.progress {
                self@.total - self@.progress
            } else {
                0
            }),
            s.cache_hits == self@.cache_hits,
            s.cache_misses == self@.cache_misses,
            s.total_time == total_time,
    {
        Stats {
            started: self.progress,
            finished: self.progress.saturating_sub(self.fail_count),
            failed: self.fail_count,
            skipped: self.total.saturating_sub(self.progress),
            cache_hits: self.cache_hits,
            cache_misses: self.cache_misses,
            total_time,
        }
    }

    /// The outcome of the build: its statistics, or the number of failed
    /// nodes when any failed.
    pub fn outcome(&self, total_time: std::time::Duration) -> (r: Result<Stats, ExecError>)
        ensures
            self@.fail_count > 0 ==> (r matches Err(ExecError::BuildFailed(n)) && n == self@.fail_count),
            self@.fail_count == 0 ==> (r matches Ok(s) && s.started == self@.progress && s.failed == 0
                && s.finished == self@.progress && s.cache_hits == self@.cache_hits
                && s.cache_misses == self@.cache_misses && s.total_time == total_time && s.skipped == (
            if self@.total >= self@.progress {
                self@.total - self@.progress
            } else {
                0
            })),
    {
        if self.fail_count > 0 {
            Err(ExecError::BuildFailed(self.fail_count))
        } else {
            Ok(self.final_stats(total_time))
        }
    }
}

} // verus!
