//! Which paths a topological order holds: each once, and each a target or a
//! dependency of a path after it.
use vstd::prelude::*;
use crate::graph::node::NodeView;
use crate::graph::{acyclic, dfs, dfs_list, edge, lemma_count_push, lemma_lookup_key, topo_from};
use crate::error::GraphErrorView;
use crate::strmap::{has_key, keys_of, lookup};

verus! {

/// Whether no path occurs twice in `o`.
pub open spec fn no_repeats(o: Seq<Seq<char>>) -> bool {
    forall|a: int, b: int| 0 <= a < b < o.len() ==> #[trigger] o[a] != #[trigger] o[b]
}

/// Whether each path of `o` from `start` on is one of `allowed` or a
/// dependency of a path after it.
pub open spec fn needed_from(
    nodes: Seq<(Seq<char>, NodeView)>,
    o: Seq<Seq<char>>,
    allowed: Seq<Seq<char>>,
    start: int,
) -> bool {
    forall|k: int|
        start <= k < o.len() ==> allowed.contains(#[trigger] o[k]) || exists|j: int|
            k < j < o.len() && #[trigger] edge(nodes, o[j], o[k])
}

/// What a visit does to the order it extends: `order` stays in front, the
/// paths added are off the stack and not repeated.
pub open spec fn extends(order: Seq<Seq<char>>, o2: Seq<Seq<char>>, stack: Seq<Seq<char>>) -> bool {
    &&& order.is_prefix_of(o2)
    &&& forall|k: int| order.len() <= k < o2.len() ==> !stack.contains(#[trigger] o2[k])
    &&& no_repeats(order) ==> no_repeats(o2)
}

proof fn lemma_dfs_needed(
    nodes: Seq<(Seq<char>, NodeView)>,
    p: Seq<char>,
    order: Seq<Seq<char>>,
    stack: Seq<Seq<char>>,
    strict: bool,
)
    ensures
        match dfs(nodes, p, order, stack, strict) {
            Ok(o2) => extends(order, o2, stack) && needed_from(nodes, o2, seq![p], order.len() as int),
            Err(GraphErrorView::DuplicateOutput { .. }) => false,
            Err(_) => true,
        },
    decreases count_out_measure(nodes, stack), 0int,
{
    if order.contains(p) {
        assert(order.take(order.len() as int) =~= order);
    } else if stack.contains(p) {
    } else {
        match lookup(nodes, p) {
            None => {
                if !strict {
                    let o2 = order.push(p);
                    assert(o2.take(order.len() as int) =~= order);
                    assert(seq![p].contains(o2[order.len() as int])) by {
                        assert(seq![p][0] == p);
                    }
                    if no_repeats(order) {
                        assert forall|a: int, b: int| 0 <= a < b < o2.len() implies #[trigger] o2[a] != #[trigger] o2[b] by {
                            if b == order.len() {
                                assert(o2[a] == order[a]);
                            } else {
                                assert(o2[a] == order[a] && o2[b] == order[b]);
                            }
                        }
                    }
                }
            },
            Some(n) => {
                lemma_lookup_key(nodes, p);
                lemma_count_push(keys_of(nodes), stack, p);
                let st2 = stack.push(p);
                lemma_dfs_list_needed(nodes, n.deps, 0, order, st2, strict);
                match dfs_list(nodes, n.deps, 0, order, st2, strict) {
                    Err(_) => {},
                    Ok(o1) => {
                        let o2 = o1.push(p);
                        let m = o1.len() as int;
                        assert(o2.take(order.len() as int) =~= o1.take(order.len() as int));
                        assert forall|k: int| order.len() <= k < o2.len() implies !stack.contains(#[trigger] o2[k]) by {
                            if k < m {
                                assert(o2[k] == o1[k]);
                                assert(!st2.contains(o1[k]));
                                if stack.contains(o1[k]) {
                                    let q = choose|q: int| 0 <= q < stack.len() && stack[q] == o1[k];
                                    assert(st2[q] == o1[k]);
                                }
                            }
                        }
                        assert(!o1.contains(p)) by {
                            if o1.contains(p) {
                                let q = choose|q: int| 0 <= q < o1.len() && o1[q] == p;
                                if q < order.len() {
                                    assert(o1.take(order.len() as int)[q] == p);
                                    assert(order[q] == p);
                                } else {
                                    assert(st2[stack.len() as int] == p);
                                    assert(st2.contains(o1[q]));
                                }
                            }
                        }
                        if no_repeats(order) {
                            assert forall|a: int, b: int| 0 <= a < b < o2.len() implies #[trigger] o2[a] != #[trigger] o2[b] by {
                                if b == m {
                                    assert(o2[a] == o1[a]);
                                    assert(o1.contains(o1[a]));
                                } else {
                                    assert(o2[a] == o1[a] && o2[b] == o1[b]);
                                }
                            }
                        }
                        assert forall|k: int| order.len() <= k < o2.len() implies seq![p].contains(#[trigger] o2[k])
                            || exists|j: int| k < j < o2.len() && #[trigger] edge(nodes, o2[j], o2[k]) by {
                            if k == m {
                                assert(seq![p][0] == p);
                            } else {
                                assert(o2[k] == o1[k]);
                                if n.deps.contains(o1[k]) {
                                    assert(o2[m] == p);
                                    assert(edge(nodes, o2[m], o2[k]));
                                } else {
                                    let j = choose|j: int| k < j < o1.len() && #[trigger] edge(nodes, o1[j], o1[k]);
                                    assert(o2[j] == o1[j]);
                                    assert(edge(nodes, o2[j], o2[k]));
                                }
                            }
                        }
                    },
                }
            },
        }
    }
}

/// The measure of the visits: the paths with a node that are off the stack.
pub open spec fn count_out_measure(nodes: Seq<(Seq<char>, NodeView)>, stack: Seq<Seq<char>>) -> nat {
    crate::graph::count_out(keys_of(nodes), stack)
}

proof fn lemma_dfs_list_needed(
    nodes: Seq<(Seq<char>, NodeView)>,
    ds: Seq<Seq<char>>,
    i: int,
    order: Seq<Seq<char>>,
    stack: Seq<Seq<char>>,
    strict: bool,
)
    ensures
        match dfs_list(nodes, ds, i, order, stack, strict) {
            Ok(o2) => extends(order, o2, stack) && needed_from(nodes, o2, ds, order.len() as int),
            Err(GraphErrorView::DuplicateOutput { .. }) => false,
            Err(_) => true,
        },
    decreases count_out_measure(nodes, stack), ds.len() - i + 1,
{
    if i < 0 || i >= ds.len() {
        assert(order.take(order.len() as int) =~= order);
    } else {
        lemma_dfs_needed(nodes, ds[i], order, stack, strict);
        match dfs(nodes, ds[i], order, stack, strict) {
            Err(_) => {},
            Ok(o1) => {
                lemma_dfs_list_needed(nodes, ds, i + 1, o1, stack, strict);
                match dfs_list(nodes, ds, i + 1, o1, stack, strict) {
                    Err(_) => {},
                    Ok(o2) => {
                        lemma_compose(nodes, order, o1, o2, stack, seq![ds[i]], ds, ds);
                    },
                }
            },
        }
    }
}

/// Two visits one after the other.
proof fn lemma_compose(
    nodes: Seq<(Seq<char>, NodeView)>,
    order: Seq<Seq<char>>,
    o1: Seq<Seq<char>>,
    o2: Seq<Seq<char>>,
    stack: Seq<Seq<char>>,
    a1: Seq<Seq<char>>,
    a2: Seq<Seq<char>>,
    all: Seq<Seq<char>>,
)
    requires
        extends(order, o1, stack),
        extends(o1, o2, stack),
        needed_from(nodes, o1, a1, order.len() as int),
        needed_from(nodes, o2, a2, o1.len() as int),
        forall|x: Seq<char>| a1.contains(x) ==> #[trigger] all.contains(x),
        forall|x: Seq<char>| a2.contains(x) ==> #[trigger] all.contains(x),
    ensures
        extends(order, o2, stack),
        needed_from(nodes, o2, all, order.len() as int),
{
    assert(o2.take(order.len() as int) =~= o1.take(order.len() as int));
    assert forall|k: int| order.len() <= k < o2.len() implies !stack.contains(#[trigger] o2[k]) by {
        if k < o1.len() {
            assert(o2.take(o1.len() as int)[k] == o1[k]);
        }
    }
    assert forall|k: int| order.len() <= k < o2.len() implies all.contains(#[trigger] o2[k]) || exists|j: int|
        k < j < o2.len() && #[trigger] edge(nodes, o2[j], o2[k]) by {
        if k < o1.len() {
            assert(o2.take(o1.len() as int)[k] == o1[k]);
            if !a1.contains(o1[k]) {
                let j = choose|j: int| k < j < o1.len() && #[trigger] edge(nodes, o1[j], o1[k]);
                assert(o2.take(o1.len() as int)[j] == o1[j]);
                assert(edge(nodes, o2[j], o2[k]));
            }
        }
    }
}

proof fn lemma_topo_needed(
    nodes: Seq<(Seq<char>, NodeView)>,
    targets: Seq<Seq<char>>,
    k: int,
    order: Seq<Seq<char>>,
)
    ensures
        match topo_from(nodes, targets, k, order) {
            Ok(o) => extends(order, o, Seq::empty()) && needed_from(nodes, o, targets, order.len() as int),
            Err(_) => true,
        },
    decreases targets.len() - k,
{
    if k < 0 || k >= targets.len() {
        assert(order.take(order.len() as int) =~= order);
    } else {
        lemma_dfs_needed(nodes, targets[k], order, Seq::empty(), true);
        match dfs(nodes, targets[k], order, Seq::empty(), true) {
            Err(_) => {},
            Ok(o1) => {
                lemma_topo_needed(nodes, targets, k + 1, o1);
                match topo_from(nodes, targets, k + 1, o1) {
                    Err(_) => {},
                    Ok(o2) => {
                        assert forall|x: Seq<char>| seq![targets[k]].contains(x) implies #[trigger] targets.contains(x) by {
                            assert(seq![targets[k]][0] == targets[k]);
                        }
                        lemma_compose(nodes, order, o1, o2, Seq::empty(), seq![targets[k]], targets, targets);
                    },
                }
            },
        }
    }
}

/// The order of `topo_order` holds each path once, and nothing that is
/// not needed: every path in it is one of the targets or a dependency of a
/// path after it.  (With `law_topo_order`: it holds exactly the targets and
/// what they depend on, each after its dependencies.)
pub proof fn law_topo_exact(nodes: Seq<(Seq<char>, NodeView)>, targets: Seq<Seq<char>>)
    ensures
        match topo_from(nodes, targets, 0, Seq::empty()) {
            Ok(o) => no_repeats(o) && forall|k: int|
                0 <= k < o.len() ==> targets.contains(#[trigger] o[k]) || exists|j: int|
                    k < j < o.len() && #[trigger] edge(nodes, o[j], o[k]),
            Err(_) => true,
        },
{
    lemma_topo_needed(nodes, targets, 0, Seq::empty());
}

/// Whether every path of `o` has a node.
pub open spec fn all_keyed(nodes: Seq<(Seq<char>, NodeView)>, o: Seq<Seq<char>>) -> bool {
    forall|k: int| 0 <= k < o.len() ==> lookup(nodes, #[trigger] o[k]) is Some
}

proof fn lemma_dfs_unknown(
    nodes: Seq<(Seq<char>, NodeView)>,
    p: Seq<char>,
    order: Seq<Seq<char>>,
    stack: Seq<Seq<char>>,
)
    ensures
        match dfs(nodes, p, order, stack, true) {
            Ok(o2) => all_keyed(nodes, order) ==> all_keyed(nodes, o2),
            Err(GraphErrorView::UnknownTarget { target }) => lookup(nodes, target) is None && (target
                == p || exists|q: Seq<char>| #[trigger] edge(nodes, q, target)),
            Err(GraphErrorView::DuplicateOutput { .. }) => false,
            Err(_) => true,
        },
    decreases count_out_measure(nodes, stack), 0int,
{
    if !order.contains(p) && !stack.contains(p) {
        match lookup(nodes, p) {
            None => {},
            Some(n) => {
                lemma_lookup_key(nodes, p);
                lemma_count_push(keys_of(nodes), stack, p);
                let st2 = stack.push(p);
                lemma_dfs_list_unknown(nodes, n.deps, 0, order, st2);
                match dfs_list(nodes, n.deps, 0, order, st2, true) {
                    Err(GraphErrorView::UnknownTarget { target }) => {
                        if !(exists|q: Seq<char>| #[trigger] edge(nodes, q, target)) {
                            let j = choose|j: int| 0 <= j < n.deps.len() && n.deps[j] == target;
                            assert(n.deps.contains(target));
                            assert(edge(nodes, p, target));
                        }
                    },
                    Err(_) => {},
                    Ok(o1) => {
                        let o2 = o1.push(p);
                        if all_keyed(nodes, order) {
                            assert forall|k: int| 0 <= k < o2.len() implies lookup(nodes, #[trigger] o2[k]) is Some by {
                                if k < o1.len() {
                                    assert(o2[k] == o1[k]);
                                }
                            }
                        }
                    },
                }
            },
        }
    }
}

proof fn lemma_dfs_list_unknown(
    nodes: Seq<(Seq<char>, NodeView)>,
    ds: Seq<Seq<char>>,
    i: int,
    order: Seq<Seq<char>>,
    stack: Seq<Seq<char>>,
)
    ensures
        match dfs_list(nodes, ds, i, order, stack, true) {
            Ok(o2) => all_keyed(nodes, order) ==> all_keyed(nodes, o2),
            Err(GraphErrorView::UnknownTarget { target }) => lookup(nodes, target) is None && (
            ds.contains(target) || exists|q: Seq<char>| #[trigger] edge(nodes, q, target)),
            Err(GraphErrorView::DuplicateOutput { .. }) => false,
            Err(_) => true,
        },
    decreases count_out_measure(nodes, stack), ds.len() - i + 1,
{
    if 0 <= i < ds.len() {
        lemma_dfs_unknown(nodes, ds[i], order, stack);
        match dfs(nodes, ds[i], order, stack, true) {
            Err(_) => {},
            Ok(o1) => {
                lemma_dfs_list_unknown(nodes, ds, i + 1, o1, stack);
            },
        }
    }
}

proof fn lemma_topo_unknown(
    nodes: Seq<(Seq<char>, NodeView)>,
    targets: Seq<Seq<char>>,
    k: int,
    order: Seq<Seq<char>>,
)
    requires
        0 <= k,
        all_keyed(nodes, order),
    ensures
        match topo_from(nodes, targets, k, order) {
            Ok(_) => forall|j: int| k <= j < targets.len() ==> lookup(nodes, #[trigger] targets[j]) is Some,
            Err(GraphErrorView::UnknownTarget { target }) => lookup(nodes, target) is None && (
            targets.contains(target) || exists|q: Seq<char>| #[trigger] edge(nodes, q, target)),
            Err(GraphErrorView::DuplicateOutput { .. }) => false,
            Err(_) => true,
        },
    decreases targets.len() - k,
{
    if k < targets.len() {
        let p = targets[k];
        lemma_dfs_unknown(nodes, p, order, Seq::empty());
        if order.contains(p) {
            let q = choose|q: int| 0 <= q < order.len() && order[q] == p;
            assert(lookup(nodes, order[q]) is Some);
        }
        match dfs(nodes, p, order, Seq::empty(), true) {
            Err(_) => {},
            Ok(o1) => {
                lemma_topo_unknown(nodes, targets, k + 1, o1);
                assert(lookup(nodes, p) is Some);
            },
        }
    }
}

/// In a graph without cycles whose every dependency is a node (as every
/// graph built from a manifest is), `topo_order` fails exactly when one of
/// the targets has no node, and then names such a target.
pub proof fn law_topo_fails_on_unknown_target(nodes: Seq<(Seq<char>, NodeView)>, targets: Seq<Seq<char>>)
    requires
        acyclic(nodes),
        forall|i: int, j: int|
            0 <= i < nodes.len() && 0 <= j < nodes[i].1.deps.len() ==> has_key(
                nodes,
                #[trigger] nodes[i].1.deps[j],
            ),
    ensures
        (topo_from(nodes, targets, 0, Seq::empty()) is Ok) <==> (forall|j: int|
            0 <= j < targets.len() ==> has_key(nodes, #[trigger] targets[j])),
        match topo_from(nodes, targets, 0, Seq::empty()) {
            Err(e) => e matches GraphErrorView::UnknownTarget { target } && targets.contains(target)
                && !has_key(nodes, target),
            Ok(_) => true,
        },
{
    lemma_topo_unknown(nodes, targets, 0, Seq::empty());
    crate::graph::law_topo_cycle(nodes, targets);
    match topo_from(nodes, targets, 0, Seq::empty()) {
        Ok(_) => {
            assert forall|j: int| 0 <= j < targets.len() implies has_key(nodes, #[trigger] targets[j]) by {
                assert(lookup(nodes, targets[j]) is Some);
            }
        },
        Err(GraphErrorView::UnknownTarget { target }) => {
            if exists|q: Seq<char>| #[trigger] edge(nodes, q, target) {
                let q = choose|q: Seq<char>| #[trigger] edge(nodes, q, target);
                crate::strmap::lemma_key_index_bound(nodes, q);
                let i = crate::strmap::key_index(nodes, q)->0;
                let n = lookup(nodes, q)->0;
                assert(n == nodes[i].1);
                let j = choose|j: int| 0 <= j < n.deps.len() && n.deps[j] == target;
                assert(has_key(nodes, nodes[i].1.deps[j]));
                assert(false);
            }
            let j = choose|j: int| 0 <= j < targets.len() && targets[j] == target;
            assert(!has_key(nodes, targets[j]));
        },
        Err(GraphErrorView::Cycle { target }) => {
            assert(!crate::graph::on_cycle(nodes, target));
        },
        Err(_) => {},
    }
}

} // verus!
