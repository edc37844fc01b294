//! Answers to the daemon's queries about a parsed manifest and its graph.
use vstd::prelude::*;
use crate::daemon::protocol::{BuildRequest, DaemonResponse, ErrorCode, QueryRequest, DAEMON_PROTOCOL_VERSION};
use crate::error::graph_error_text;
use crate::graph::node::NodeView;
use crate::graph::{join, join_strings, node_refs, nodes_of, topo_from, Graph};
use crate::parser::manifest::{Manifest, ManifestView};
use crate::strmap::{keys_of, lookup};
use crate::text::{decimal, push_decimal, push_str, string_of, views};
use crate::tools::ends_with;

verus! {

/// The paths of the nodes that are built (not source files), in order.
pub open spec fn built_paths(nodes: Seq<(Seq<char>, NodeView)>) -> Seq<Seq<char>>
    decreases nodes.len(),
{
    if nodes.len() == 0 {
        Seq::empty()
    } else {
        built_paths(nodes.drop_last()) + if nodes.last().1.is_source {
            Seq::empty()
        } else {
            seq![nodes.last().1.path]
        }
    }
}

/// The commands of those of `targets` that have a node with a command, in
/// order.
pub open spec fn commands_of(nodes: Seq<(Seq<char>, NodeView)>, targets: Seq<Seq<char>>) -> Seq<Seq<char>>
    decreases targets.len(),
{
    if targets.len() == 0 {
        Seq::empty()
    } else {
        commands_of(nodes, targets.drop_last()) + match lookup(nodes, targets.last()) {
            Some(n) => match n.command {
                Some(c) => seq![c],
                None => Seq::empty(),
            },
            None => Seq::empty(),
        }
    }
}

/// The paths of the source files among `order`, in order.
pub open spec fn sources_of(order: Seq<NodeView>) -> Seq<Seq<char>>
    decreases order.len(),
{
    if order.len() == 0 {
        Seq::empty()
    } else {
        sources_of(order.drop_last()) + if order.last().is_source {
            seq![order.last().path]
        } else {
            Seq::empty()
        }
    }
}

/// Whether `p` names a C or C++ source by its extension.
pub open spec fn is_c_or_cpp(p: Seq<char>) -> bool {
    ends_with(p, ".c"@) || ends_with(p, ".cc"@) || ends_with(p, ".cpp"@)
}

/// (command, input) for the C and C++ inputs of `ins`, in order.
pub open spec fn c_inputs(ins: Seq<Seq<char>>, cmd: Seq<char>) -> Seq<(Seq<char>, Seq<char>)>
    decreases ins.len(),
{
    if ins.len() == 0 {
        Seq::empty()
    } else {
        c_inputs(ins.drop_last(), cmd) + if is_c_or_cpp(ins.last()) {
            seq![(cmd, ins.last())]
        } else {
            Seq::empty()
        }
    }
}

/// The compilation database of the first `k` edges: for an edge whose rule
/// has a command, (the command as written, input) per C or C++ input.
pub open spec fn daemon_compdb(m: ManifestView, k: int) -> Seq<(Seq<char>, Seq<char>)>
    decreases k,
{
    if k <= 0 || k > m.builds.len() {
        Seq::empty()
    } else {
        daemon_compdb(m, k - 1) + match lookup(m.rules, m.builds[k - 1].rule) {
            Some(r) => match r.command {
                Some(c) => c_inputs(m.builds[k - 1].inputs, c),
                None => Seq::empty(),
            },
            None => Seq::empty(),
        }
    }
}

/// The answer to a query: a response, or the compilation database entries
/// (command, file) for the program to write as JSON.
#[derive(Debug)]
pub enum QueryAnswer {
    Response(DaemonResponse),
    CompDb(Vec<(String, String)>),
}

/// The views of string pairs.
pub open spec fn pair_texts(v: Seq<(String, String)>) -> Seq<(Seq<char>, Seq<char>)> {
    v.map_values(|p: (String, String)| (p.0@, p.1@))
}

/// Whether `a` is the result text `data`.
pub open spec fn is_result(a: QueryAnswer, data: Seq<char>) -> bool {
    a matches QueryAnswer::Response(DaemonResponse::QueryResult { data: d }) && d@ == data
}

/// Whether `a` is the error `code` with the message `msg`.
pub open spec fn is_error(a: QueryAnswer, code: ErrorCode, msg: Seq<char>) -> bool {
    a matches QueryAnswer::Response(DaemonResponse::Error { code: c, message: m }) && c == code
        && m@ == msg
}

fn lines(v: &Vec<String>) -> (s: String)
    ensures
        s@ == join(views(v@), "\n"@),
{
    string_of(&join_strings(v, "\n"))
}

fn built_paths_exec(graph: &Graph) -> (r: Vec<String>)
    ensures
        views(r@) == built_paths(graph@.nodes),
{
    let nodes = graph.nodes();
    let ghost s = graph@.nodes;
    let ghost nv = node_refs(nodes@);
    let mut out: Vec<String> = Vec::new();
    let mut i: usize = 0;
    proof {
        assert(nv.len() == nodes@.len());
        assert(nv.len() == s.len());
    }
    while i < nodes.len()
        invariant
            i <= nodes@.len(),
            nodes@.len() == s.len(),
            s == graph@.nodes,
            nv == node_refs(nodes@),
            nv == s.map_values(|e: (Seq<char>, NodeView)| e.1),
            views(out@) == built_paths(s.take(i as int)),
        decreases nodes@.len() - i,
    {
        let n = nodes[i];
        proof {
            let t = s.take(i + 1);
            assert(t.drop_last() =~= s.take(i as int));
            assert(nv[i as int] == n@);
            assert(nv[i as int] == s[i as int].1);
            assert(t.last().1 == n@);
        }
        if !n.is_source {
            let ghost o0 = views(out@);
            out.push(n.path.clone());
            proof {
                assert(views(out@) =~= o0.push(n@.path));
            }
        }
        i = i + 1;
    }
    proof {
        assert(s.take(i as int) =~= s);
    }
    out
}

fn commands_exec(graph: &Graph, targets: &Vec<String>) -> (r: Vec<String>)
    ensures
        views(r@) == commands_of(graph@.nodes, views(targets@)),
{
    let ghost tv = views(targets@);
    let mut out: Vec<String> = Vec::new();
    let mut i: usize = 0;
    while i < targets.len()
        invariant
            i <= targets@.len(),
            tv == views(targets@),
            views(out@) == commands_of(graph@.nodes, tv.take(i as int)),
        decreases targets@.len() - i,
    {
        proof {
            let t = tv.take(i + 1);
            assert(t.drop_last() =~= tv.take(i as int));
            assert(t.last() == targets@[i as int]@);
        }
        match graph.get_node(targets[i].as_str()) {
            Some(n) => match &n.command {
                Some(c) => {
                    let ghost o0 = views(out@);
                    out.push(c.clone());
                    proof {
                        assert(views(out@) =~= o0.push(c@));
                    }
                },
                None => {},
            },
            None => {},
        }
        i = i + 1;
    }
    proof {
        assert(tv.take(i as int) =~= tv);
    }
    out
}

fn sources_exec(order: &Vec<&crate::graph::node::Node>) -> (r: Vec<String>)
    ensures
        views(r@) == sources_of(node_refs(order@)),
{
    let ghost ov = node_refs(order@);
    let mut out: Vec<String> = Vec::new();
    let mut i: usize = 0;
    while i < order.len()
        invariant
            i <= order@.len(),
            ov == node_refs(order@),
            views(out@) == sources_of(ov.take(i as int)),
        decreases order@.len() - i,
    {
        let n = order[i];
        proof {
            let t = ov.take(i + 1);
            assert(t.drop_last() =~= ov.take(i as int));
            assert(t.last() == n@);
        }
        if n.is_source {
            let ghost o0 = views(out@);
            out.push(n.path.clone());
            proof {
                assert(views(out@) =~= o0.push(n@.path));
            }
        }
        i = i + 1;
    }
    proof {
        assert(ov.take(i as int) =~= ov);
    }
    out
}

fn ends_with_str(s: &str, t: &str) -> (b: bool)
    ensures
        b == ends_with(s@, t@),
{
    let sc = crate::text::chars_of(s);
    let tc = crate::text::chars_of(t);
    if tc.len() > sc.len() {
        return false;
    }
    let tail = crate::text::copy_range(&sc, sc.len() - tc.len(), sc.len());
    crate::text::chars_eq(&tail, &tc)
}

/// The compilation database entries (command as written, input) of the
/// manifest (see `daemon_compdb`).
pub fn daemon_compdb_entries(manifest: &Manifest) -> (r: Vec<(String, String)>)
    ensures
        pair_texts(r@) == daemon_compdb(manifest@, manifest@.builds.len() as int),
{
    let ghost m = manifest@;
    let mut out: Vec<(String, String)> = Vec::new();
    let mut k: usize = 0;
    proof {
        reveal_strlit(".c");
        reveal_strlit(".cc");
        reveal_strlit(".cpp");
    }
    while k < manifest.builds.len()
        invariant
            k <= manifest.builds@.len(),
            m == manifest@,
            pair_texts(out@) == daemon_compdb(m, k as int),
        decreases manifest.builds@.len() - k,
    {
        let build = &manifest.builds[k];
        proof {
            assert(m.builds[k as int] == build@);
        }
        match manifest.rules.get(build.rule.as_str()) {
            Some(rule) => match &rule.command {
                Some(cmd) => {
                    proof {
                        assert(crate::parser::manifest::opt_view(rule.command) == rule@.command);
                    }
                    let ghost o0 = pair_texts(out@);
                    let ghost ins = views(build.inputs@);
                    let mut j: usize = 0;
                    while j < build.inputs.len()
                        invariant
                            j <= build.inputs@.len(),
                            ins == views(build.inputs@),
                            pair_texts(out@) == o0 + c_inputs(ins.take(j as int), cmd@),
                        decreases build.inputs@.len() - j,
                    {
                        let ghost o1 = pair_texts(out@);
                        let input = build.inputs[j].as_str();
                        proof {
                            let t = ins.take(j + 1);
                            assert(t.drop_last() =~= ins.take(j as int));
                            assert(t.last() == input@);
                        }
                        if ends_with_str(input, ".c") || ends_with_str(input, ".cc") || ends_with_str(
                            input,
                            ".cpp",
                        ) {
                            out.push((cmd.clone(), build.inputs[j].clone()));
                            proof {
                                assert(pair_texts(out@) =~= o1.push((cmd@, input@)));
                            }
                        }
                        j = j + 1;
                    }
                    proof {
                        assert(ins.take(j as int) =~= ins);
                    }
                },
                None => {},
            },
            None => {},
        }
        k = k + 1;
    }
    out
}

/// Answers `request` about `manifest` and its graph `graph`: the built
/// targets, the rule names, the commands of the given targets, the
/// dependencies of a target, the source files a target needs, or the
/// compilation database; each list is sent one item per line.
pub fn answer_query(manifest: &Manifest, graph: &Graph, request: &QueryRequest) -> (r: QueryAnswer)
    ensures
        match request {
            QueryRequest::Targets { .. } => is_result(r, join(built_paths(graph@.nodes), "\n"@)),
            QueryRequest::Rules { .. } => is_result(r, join(keys_of(manifest@.rules), "\n"@)),
            QueryRequest::Commands { targets, .. } => is_result(
                r,
                join(commands_of(graph@.nodes, views(targets@)), "\n"@),
            ),
            QueryRequest::Deps { target, .. } => match lookup(graph@.nodes, target@) {
                Some(n) => is_result(r, join(n.deps, "\n"@)),
                None => is_error(r, ErrorCode::TargetNotFound, "Target not found: "@ + target@),
            },
            QueryRequest::Inputs { target, .. } => match topo_from(
                graph@.nodes,
                seq![target@],
                0,
                Seq::empty(),
            ) {
                Ok(o) => is_result(r, join(sources_of(nodes_of(graph@.nodes, o)), "\n"@)),
                Err(e) => is_error(r, ErrorCode::InternalError, graph_error_text(e)),
            },
            QueryRequest::CompDb { .. } => r matches QueryAnswer::CompDb(v) && pair_texts(v@)
                == daemon_compdb(manifest@, manifest@.builds.len() as int),
        },
{
    match request {
        QueryRequest::Targets { .. } => {
            let t = built_paths_exec(graph);
            QueryAnswer::Response(DaemonResponse::QueryResult { data: lines(&t) })
        },
        QueryRequest::Rules { .. } => {
            let mut names: Vec<String> = Vec::new();
            let mut i: usize = 0;
            let ghost ks = keys_of(manifest@.rules);
            while i < manifest.rules.len()
                invariant
                    i <= manifest@.rules.len(),
                    ks == keys_of(manifest@.rules),
                    views(names@) == ks.take(i as int),
                decreases manifest@.rules.len() - i,
            {
                let ghost n0 = views(names@);
                names.push(manifest.rules.key_at(i).clone());
                i = i + 1;
                proof {
                    assert(views(names@) =~= n0.push(ks[i - 1]));
                    assert(ks.take(i as int) =~= ks.take(i - 1).push(ks[i - 1]));
                }
            }
            proof {
                assert(ks.take(i as int) =~= ks);
            }
            QueryAnswer::Response(DaemonResponse::QueryResult { data: lines(&names) })
        },
        QueryRequest::Commands { targets, .. } => {
            let c = commands_exec(graph, targets);
            QueryAnswer::Response(DaemonResponse::QueryResult { data: lines(&c) })
        },
        QueryRequest::Deps { target, .. } => match graph.get_node(target.as_str()) {
            Some(n) => QueryAnswer::Response(DaemonResponse::QueryResult { data: lines(&n.deps) }),
            None => {
                let mut v: Vec<char> = Vec::new();
                crate::text::push_str(&mut v, "Target not found: ");
                crate::text::push_str(&mut v, target.as_str());
                QueryAnswer::Response(
                    DaemonResponse::Error { code: ErrorCode::TargetNotFound, message: string_of(&v) },
                )
            },
        },
        QueryRequest::Inputs { target, .. } => {
            let ts: [&str; 1] = [target.as_str()];
            proof {
                assert(crate::graph::str_views(ts@) =~= seq![target@]);
            }
            match graph.topo_order(&ts) {
                Ok(order) => {
                    let s = sources_exec(&order);
                    QueryAnswer::Response(DaemonResponse::QueryResult { data: lines(&s) })
                },
                Err(e) => QueryAnswer::Response(
                    DaemonResponse::Error { code: ErrorCode::InternalError, message: e.message() },
                ),
            }
        },
        QueryRequest::CompDb { .. } => QueryAnswer::CompDb(daemon_compdb_entries(manifest)),
    }
}

/// The error answered to a request of another protocol version, if it is
/// one.
pub fn check_version(version: u32) -> (r: Option<DaemonResponse>)
    ensures
        version == DAEMON_PROTOCOL_VERSION ==> r is None,
        version != DAEMON_PROTOCOL_VERSION ==> (r matches Some(DaemonResponse::Error { code, message })
            && code == ErrorCode::VersionMismatch && message@ == "Protocol version mismatch: client v"@
            + decimal(version as nat) + ", server v"@ + decimal(DAEMON_PROTOCOL_VERSION as nat)),
{
    if version == DAEMON_PROTOCOL_VERSION {
        return None;
    }
    let mut v: Vec<char> = Vec::new();
    push_str(&mut v, "Protocol version mismatch: client v");
    push_decimal(&mut v, version as u64);
    push_str(&mut v, ", server v");
    push_decimal(&mut v, DAEMON_PROTOCOL_VERSION as u64);
    Some(DaemonResponse::Error { code: ErrorCode::VersionMismatch, message: string_of(&v) })
}

/// The targets of a build request: those it names, else the manifest's
/// defaults.
pub open spec fn requested_targets(request_targets: Seq<Seq<char>>, defaults: Seq<Seq<char>>) -> Seq<Seq<char>> {
    if request_targets.len() == 0 {
        defaults
    } else {
        request_targets
    }
}

/// The number of nodes a build request runs through, or the error answered:
/// no targets at all, or a dependency error of the graph.
pub fn plan_build(manifest: &Manifest, graph: &Graph, request: &BuildRequest) -> (r: Result<usize, DaemonResponse>)
    ensures
        ({
            let ts = requested_targets(views(request.targets@), manifest@.defaults);
            if ts.len() == 0 {
                r matches Err(DaemonResponse::Error { code, message }) && code == ErrorCode::TargetNotFound
                    && message@ == "No targets specified and no default target"@
            } else {
                match topo_from(graph@.nodes, ts, 0, Seq::empty()) {
                    Ok(o) => r == Ok::<usize, DaemonResponse>(nodes_of(graph@.nodes, o).len() as usize),
                    Err(e) => r matches Err(DaemonResponse::Error { code, message }) && code
                        == ErrorCode::CircularDependency && message@ == "Dependency error: "@
                        + graph_error_text(e),
                }
            }
        }),
{
    let source: &Vec<String> = if request.targets.len() == 0 {
        &manifest.defaults
    } else {
        &request.targets
    };
    let mut ts: Vec<&str> = Vec::new();
    let mut i: usize = 0;
    while i < source.len()
        invariant
            i <= source@.len(),
            crate::graph::str_views(ts@) == views(source@).take(i as int),
        decreases source@.len() - i,
    {
        let ghost t0 = crate::graph::str_views(ts@);
        ts.push(source[i].as_str());
        i = i + 1;
        proof {
            assert(crate::graph::str_views(ts@) =~= t0.push(source@[i - 1]@));
            assert(views(source@).take(i as int) =~= views(source@).take(i - 1).push(source@[i - 1]@));
        }
    }
    proof {
        assert(views(source@).take(i as int) =~= views(source@));
    }
    if ts.len() == 0 {
        let mut v: Vec<char> = Vec::new();
        push_str(&mut v, "No targets specified and no default target");
        proof {
            assert(v@ =~= "No targets specified and no default target"@);
        }
        return Err(DaemonResponse::Error { code: ErrorCode::TargetNotFound, message: string_of(&v) });
    }
    match graph.topo_order(ts.as_slice()) {
        Ok(order) => {
            proof {
                assert(node_refs(order@).len() == order@.len());
            }
            Ok(order.len())
        },
        Err(e) => {
            let mut v: Vec<char> = Vec::new();
            push_str(&mut v, "Dependency error: ");
            let m = e.message();
            push_str(&mut v, m.as_str());
            Err(DaemonResponse::Error { code: ErrorCode::CircularDependency, message: string_of(&v) })
        },
    }
}

} // verus!
