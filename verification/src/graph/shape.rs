//! The shape of every graph that `Graph::from_manifest` builds: one node per
//! path, the outputs of the build edges first and the source files after
//! them, and a node for every dependency.
use vstd::prelude::*;
use crate::graph::node::{source_node, NodeView};
use crate::graph::{add_builds, add_outputs, graph_nodes, graph_of, node_template, source_entries, src_all,
    src_deps, GraphView, fresh_paths, lemma_src_all};
use crate::parser::manifest::{BuildView, ManifestView, RuleView};
use crate::strmap::{distinct_keys, has_key, key_index, keys_of, lemma_key_index, lemma_key_index_bound, lookup};
use crate::error::GraphErrorView;

verus! {

/// The outputs (explicit, then implicit) of the build edges `builds`, in
/// order.
pub open spec fn build_outputs(builds: Seq<BuildView>) -> Seq<Seq<char>>
    decreases builds.len(),
{
    if builds.len() == 0 {
        Seq::empty()
    } else {
        builds[0].outputs + builds[0].implicit_outputs + build_outputs(builds.drop_first())
    }
}

/// The entries that `add_outputs` appends for `outs`.
pub open spec fn out_entries(tmpl: NodeView, outs: Seq<Seq<char>>) -> Seq<(Seq<char>, NodeView)> {
    outs.map_values(|o: Seq<char>| (o, NodeView { path: o, ..tmpl }))
}

/// Whether the node `v` carries the hash of its command, when it has one.
pub open spec fn carries_command_hash(v: NodeView) -> bool {
    match v.command {
        Some(c) => v.command_hash == crate::buildlog::spec_hash_command(c),
        None => true,
    }
}

proof fn lemma_has_key_at(s: Seq<(Seq<char>, NodeView)>, k: Seq<char>, j: int)
    requires
        0 <= j < s.len(),
        s[j].0 == k,
    ensures
        has_key(s, k),
{
    lemma_key_index_bound(s, k);
}

proof fn lemma_add_outputs(tmpl: NodeView, outs: Seq<Seq<char>>, nodes: Seq<(Seq<char>, NodeView)>)
    requires
        add_outputs(tmpl, outs, nodes) is Ok,
    ensures
        add_outputs(tmpl, outs, nodes) == Ok::<Seq<(Seq<char>, NodeView)>, GraphErrorView>(
            nodes + out_entries(tmpl, outs),
        ),
        distinct_keys(nodes) ==> distinct_keys(nodes + out_entries(tmpl, outs)),
    decreases outs.len(),
{
    if outs.len() == 0 {
        assert(nodes + out_entries(tmpl, outs) =~= nodes);
    } else {
        let e0 = (outs[0], NodeView { path: outs[0], ..tmpl });
        let n1 = nodes.push(e0);
        lemma_add_outputs(tmpl, outs.drop_first(), n1);
        assert(n1 + out_entries(tmpl, outs.drop_first()) =~= nodes + out_entries(tmpl, outs));
        if distinct_keys(nodes) {
            lemma_key_index_bound(nodes, outs[0]);
            assert(distinct_keys(n1)) by {
                assert forall|a: int, b: int| 0 <= a < b < n1.len() implies (#[trigger] n1[a]).0
                    != (#[trigger] n1[b]).0 by {
                    if b == nodes.len() {
                        assert(n1[a] == nodes[a]);
                    } else {
                        assert(n1[a] == nodes[a] && n1[b] == nodes[b]);
                    }
                }
            }
        }
    }
}

proof fn lemma_add_builds(
    globals: Seq<(Seq<char>, Seq<char>)>,
    rules: Seq<(Seq<char>, RuleView)>,
    builds: Seq<BuildView>,
    nodes: Seq<(Seq<char>, NodeView)>,
)
    requires
        add_builds(globals, rules, builds, nodes) is Ok,
    ensures
        ({
            let n = add_builds(globals, rules, builds, nodes)->Ok_0;
            let o = build_outputs(builds);
            &&& n.len() == nodes.len() + o.len()
            &&& forall|j: int| 0 <= j < nodes.len() ==> #[trigger] n[j] == nodes[j]
            &&& forall|j: int|
                0 <= j < o.len() ==> (#[trigger] n[nodes.len() + j]).0 == o[j] && !n[nodes.len()
                    + j].1.is_source && carries_command_hash(n[nodes.len() + j].1) && n[nodes.len()
                    + j].1.path == o[j]
            &&& distinct_keys(nodes) ==> distinct_keys(n)
        }),
    decreases builds.len(),
{
    if builds.len() > 0 {
        let b = builds[0];
        let tmpl = node_template(globals, b, lookup(rules, b.rule));
        let outs = b.outputs + b.implicit_outputs;
        lemma_add_outputs(tmpl, outs, nodes);
        let n2 = nodes + out_entries(tmpl, outs);
        lemma_add_builds(globals, rules, builds.drop_first(), n2);
        let n = add_builds(globals, rules, builds, nodes)->Ok_0;
        let o = build_outputs(builds);
        let o2 = build_outputs(builds.drop_first());
        assert(o =~= outs + o2);
        assert forall|j: int| 0 <= j < nodes.len() implies #[trigger] n[j] == nodes[j] by {
            assert(n[j] == n2[j]);
        }
        assert(carries_command_hash(tmpl));
        assert forall|j: int| 0 <= j < o.len() implies (#[trigger] n[nodes.len() + j]).0 == o[j]
            && !n[nodes.len() + j].1.is_source && carries_command_hash(n[nodes.len() + j].1)
            && n[nodes.len() + j].1.path == o[j] by {
            if j < outs.len() {
                assert(n[nodes.len() + j] == n2[nodes.len() + j]);
                assert(n2[nodes.len() + j] == out_entries(tmpl, outs)[j]);
            } else {
                assert(n[nodes.len() + j] == n[n2.len() + (j - outs.len())]);
            }
        }
    }
}

proof fn lemma_src_deps_covers(nodes: Seq<(Seq<char>, NodeView)>, ds: Seq<Seq<char>>, acc: Seq<Seq<char>>)
    ensures
        forall|x: Seq<char>| acc.contains(x) ==> #[trigger] src_deps(nodes, ds, acc).contains(x),
        forall|i: int|
            0 <= i < ds.len() ==> has_key(nodes, #[trigger] ds[i]) || src_deps(nodes, ds, acc).contains(ds[i]),
    decreases ds.len(),
{
    if ds.len() > 0 {
        let d = ds[0];
        let acc2 = if !has_key(nodes, d) && !acc.contains(d) {
            acc.push(d)
        } else {
            acc
        };
        lemma_src_deps_covers(nodes, ds.drop_first(), acc2);
        let r = src_deps(nodes, ds, acc);
        let r2 = src_deps(nodes, ds.drop_first(), acc2);
        assert(r == r2);
        assert forall|x: Seq<char>| acc.contains(x) implies #[trigger] r.contains(x) by {
            if acc2 != acc {
                let k = choose|k: int| 0 <= k < acc.len() && acc[k] == x;
                assert(acc2[k] == x);
            }
            assert(acc2.contains(x));
            assert(r2.contains(x));
        }
        assert(has_key(nodes, d) || acc2.contains(d)) by {
            if !has_key(nodes, d) && !acc.contains(d) {
                assert(acc2[acc.len() as int] == d);
            }
        }
        assert forall|i: int| 0 <= i < ds.len() implies has_key(nodes, #[trigger] ds[i]) || r.contains(ds[i]) by {
            if i > 0 {
                assert(ds[i] == ds.drop_first()[i - 1]);
            } else if !has_key(nodes, d) {
                assert(r2.contains(d));
            }
        }
    }
}

proof fn lemma_src_all_covers(nodes: Seq<(Seq<char>, NodeView)>, k: int, acc: Seq<Seq<char>>)
    requires
        0 <= k,
    ensures
        forall|x: Seq<char>| acc.contains(x) ==> #[trigger] src_all(nodes, k, acc).contains(x),
        forall|i: int, j: int|
            k <= i < nodes.len() && 0 <= j < nodes[i].1.deps.len() ==> has_key(nodes, #[trigger] nodes[i].1.deps[j])
                || src_all(nodes, k, acc).contains(nodes[i].1.deps[j]),
    decreases nodes.len() - k,
{
    if k < nodes.len() {
        let acc2 = src_deps(nodes, nodes[k].1.deps, acc);
        lemma_src_deps_covers(nodes, nodes[k].1.deps, acc);
        lemma_src_all_covers(nodes, k + 1, acc2);
        let r = src_all(nodes, k, acc);
        let r2 = src_all(nodes, k + 1, acc2);
        assert(r == r2);
        assert forall|x: Seq<char>| acc.contains(x) implies #[trigger] r.contains(x) by {
            assert(src_deps(nodes, nodes[k].1.deps, acc).contains(x));
            assert(r2.contains(x));
        }
        assert forall|i: int, j: int|
            k <= i < nodes.len() && 0 <= j < nodes[i].1.deps.len() implies has_key(nodes, #[trigger] nodes[i].1.deps[j])
                || r.contains(nodes[i].1.deps[j]) by {
            if i == k && !has_key(nodes, nodes[i].1.deps[j]) {
                assert(acc2.contains(nodes[i].1.deps[j]));
                assert(r2.contains(nodes[i].1.deps[j]));
            }
        }
    }
}

/// Every graph that a manifest gives has one node per path, and each node's
/// path is the one it is kept under; its first nodes
/// are the outputs of the build edges, in order, and are not source files;
/// the rest are source files, without command or dependencies and not
/// phony; and every dependency of every node is a node.
pub proof fn law_graph_shape(m: ManifestView, g: GraphView)
    requires
        graph_of(m) == Ok::<GraphView, GraphErrorView>(g),
    ensures
        distinct_keys(g.nodes),
        forall|i: int| 0 <= i < g.nodes.len() ==> (#[trigger] g.nodes[i]).1.path == g.nodes[i].0,
        forall|i: int, j: int|
            0 <= i < g.nodes.len() && 0 <= j < g.nodes[i].1.deps.len() ==> has_key(
                g.nodes,
                #[trigger] g.nodes[i].1.deps[j],
            ),
        build_outputs(m.builds).len() <= g.nodes.len(),
        keys_of(g.nodes).take(build_outputs(m.builds).len() as int) == build_outputs(m.builds),
        forall|i: int|
            0 <= i < g.nodes.len() ==> ((#[trigger] g.nodes[i]).1.is_source <==> i >= build_outputs(
                m.builds,
            ).len()),
        forall|i: int|
            0 <= i < g.nodes.len() && (#[trigger] g.nodes[i]).1.is_source ==> g.nodes[i].1.deps.len() == 0
                && g.nodes[i].1.command is None && !g.nodes[i].1.is_phony && g.nodes[i].1.path
                == g.nodes[i].0,
{
    let e = Seq::<(Seq<char>, NodeView)>::empty();
    lemma_add_builds(m.variables, m.rules, m.builds, e);
    let n = add_builds(m.variables, m.rules, m.builds, e)->Ok_0;
    let o = build_outputs(m.builds);
    let srcs = src_all(n, 0, Seq::empty());
    assert(fresh_paths(n, Seq::<Seq<char>>::empty()));
    lemma_src_all(n, 0, Seq::empty());
    lemma_src_all_covers(n, 0, Seq::empty());
    let se = source_entries(srcs);
    let all = n + se;
    assert(g.nodes == all);
    assert(distinct_keys(e));
    assert(distinct_keys(n));
    assert forall|a: int, b: int| 0 <= a < b < all.len() implies (#[trigger] all[a]).0 != (#[trigger] all[b]).0 by {
        if b < n.len() {
            assert(all[a] == n[a] && all[b] == n[b]);
        } else if a < n.len() {
            assert(all[a] == n[a] && all[b] == se[b - n.len()]);
            assert(se[b - n.len()].0 == srcs[b - n.len()]);
            assert(!has_key(n, srcs[b - n.len()]));
            if n[a].0 == srcs[b - n.len()] {
                lemma_has_key_at(n, n[a].0, a);
            }
        } else {
            assert(all[a] == se[a - n.len()] && all[b] == se[b - n.len()]);
        }
    }
    assert forall|i: int, j: int|
        0 <= i < all.len() && 0 <= j < all[i].1.deps.len() implies has_key(all, #[trigger] all[i].1.deps[j]) by {
        let d = all[i].1.deps[j];
        if i >= n.len() {
            assert(all[i] == se[i - n.len()]);
            assert(se[i - n.len()].1 == source_node(srcs[i - n.len()]));
        } else {
            assert(all[i] == n[i]);
            if has_key(n, d) {
                lemma_key_index_bound(n, d);
                let q = key_index(n, d)->0;
                assert(all[q] == n[q]);
                lemma_has_key_at(all, d, q);
            } else {
                assert(srcs.contains(d));
                let q = choose|q: int| 0 <= q < srcs.len() && srcs[q] == d;
                assert(all[n.len() + q] == se[q]);
                lemma_has_key_at(all, d, n.len() + q);
            }
        }
    }
    assert(keys_of(all).take(o.len() as int) =~= o) by {
        assert forall|j: int| 0 <= j < o.len() implies keys_of(all).take(o.len() as int)[j] == o[j] by {
            assert(all[j] == n[0 + j]);
        }
    }
    assert forall|i: int| 0 <= i < all.len() implies (#[trigger] all[i]).1.path == all[i].0 by {
        if i < n.len() {
            assert(all[i] == n[0 + i]);
        } else {
            assert(all[i] == se[i - n.len()]);
            assert(se[i - n.len()].1 == source_node(srcs[i - n.len()]));
        }
    }
    assert forall|i: int| 0 <= i < all.len() implies ((#[trigger] all[i]).1.is_source <==> i >= o.len()) by {
        if i < n.len() {
            assert(all[i] == n[0 + i]);
        } else {
            assert(all[i] == se[i - n.len()]);
        }
    }
    assert forall|i: int| 0 <= i < all.len() && (#[trigger] all[i]).1.is_source implies all[i].1.deps.len() == 0
        && all[i].1.command is None && !all[i].1.is_phony && all[i].1.path == all[i].0 by {
        if i < n.len() {
            assert(all[i] == n[0 + i]);
        } else {
            assert(all[i] == se[i - n.len()]);
        }
    }
}

/// Every node of a graph that a manifest gives carries the hash of its
/// command (the hash the build log records for it), so that the two can be
/// compared; a node without a command carries no such claim.
pub proof fn law_nodes_carry_command_hash(m: ManifestView, g: GraphView)
    requires
        graph_of(m) == Ok::<GraphView, GraphErrorView>(g),
    ensures
        forall|i: int| 0 <= i < g.nodes.len() ==> carries_command_hash(#[trigger] g.nodes[i].1),
{
    let e = Seq::<(Seq<char>, NodeView)>::empty();
    lemma_add_builds(m.variables, m.rules, m.builds, e);
    let n = add_builds(m.variables, m.rules, m.builds, e)->Ok_0;
    let o = build_outputs(m.builds);
    let srcs = src_all(n, 0, Seq::empty());
    let se = source_entries(srcs);
    let all = n + se;
    assert(g.nodes == all);
    assert forall|i: int| 0 <= i < all.len() implies carries_command_hash(#[trigger] all[i].1) by {
        if i < n.len() {
            assert(all[i] == n[0 + i]);
        } else {
            assert(all[i] == se[i - n.len()]);
            assert(se[i - n.len()].1 == source_node(srcs[i - n.len()]));
        }
    }
}

} // verus!
