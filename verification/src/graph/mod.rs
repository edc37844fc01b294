//! The build graph: a DAG of nodes that stand for build targets.
//!
//! Nodes are kept in the order in which they were created: the outputs of
//! the build statements in manifest order, then the source files in the
//! order in which they are first named as dependencies.
pub mod node;
pub mod shape;
pub mod needed;
pub mod scope;

use vstd::prelude::*;
use crate::error::{GraphError, GraphErrorView};
use crate::parser::expand;
use crate::parser::expand_path;
use crate::parser::manifest::{opt_view, Build, BuildView, Manifest, ManifestView, Rule, RuleView};
use crate::strmap::{has_key, insert_seq, keys_of, lemma_key_index_bound, lookup, Duplicate, StrMap};
use crate::text::{append_chars, chars_of, push_str, replace, replace_chars, string_of, views};
use self::node::{dup_strings, source_node, Node, NodeView};

verus! {

// ---------------------------------------------------------------------------
// Variable expansion in commands
// ---------------------------------------------------------------------------

/// The words `ws` joined with `sep` between them (`[String]::join`).
pub open spec fn join(ws: Seq<Seq<char>>, sep: Seq<char>) -> Seq<char>
    decreases ws.len(),
{
    if ws.len() == 0 {
        Seq::empty()
    } else if ws.len() == 1 {
        ws[0]
    } else {
        join(ws.drop_last(), sep) + sep + ws.last()
    }
}

/// The first of `ws`, or the empty string.
pub open spec fn first_or_empty(ws: Seq<Seq<char>>) -> Seq<char> {
    if ws.len() > 0 {
        ws[0]
    } else {
        Seq::empty()
    }
}

/// `s` with the built-in variables of the build edge `b` expanded, one after
/// the other: `$in`, `${in}`, `$out`, `${out}`, `$in_newline`,
/// `$first_input`, `$first_output`.
pub open spec fn builtin_vars(s: Seq<char>, b: BuildView) -> Seq<char> {
    let in_str = join(b.inputs, " "@);
    let out_str = join(b.outputs, " "@);
    let r1 = replace(s, "$in"@, in_str);
    let r2 = replace(r1, "${in}"@, in_str);
    let r3 = replace(r2, "$out"@, out_str);
    let r4 = replace(r3, "${out}"@, out_str);
    let r5 = replace(r4, "$in_newline"@, join(b.inputs, "\n"@));
    let r6 = replace(r5, "$first_input"@, first_or_empty(b.inputs));
    replace(r6, "$first_output"@, first_or_empty(b.outputs))
}

/// `s` with the escapes `$$`, `$ ` and `$:` replaced, one after the other.
pub open spec fn unescape(s: Seq<char>) -> Seq<char> {
    replace(replace(replace(s, "$$"@, "$"@), "$ "@, " "@), "$:"@, ":"@)
}

/// A command-like string of the build edge `b` with its variables expanded:
/// built-in variables, then the edge's own, then the rule's, then the
/// manifest's, then escapes.
pub open spec fn expand_var(
    globals: Seq<(Seq<char>, Seq<char>)>,
    b: BuildView,
    rule_vars: Seq<(Seq<char>, Seq<char>)>,
    s: Seq<char>,
) -> Seq<char> {
    unescape(expand(globals, expand(rule_vars, expand(b.variables, builtin_vars(s, b)))))
}

/// An optional string with its variables expanded.
pub open spec fn opt_expand(
    globals: Seq<(Seq<char>, Seq<char>)>,
    b: BuildView,
    rule_vars: Seq<(Seq<char>, Seq<char>)>,
    o: Option<Seq<char>>,
) -> Option<Seq<char>> {
    match o {
        Some(s) => Some(expand_var(globals, b, rule_vars, s)),
        None => None,
    }
}

/// The view of an optional rule.
pub open spec fn rule_opt(r: Option<&Rule>) -> Option<RuleView> {
    match r {
        Some(x) => Some(x@),
        None => None,
    }
}

/// The node made for an output of the build edge `b` whose rule is `r`, with
/// its path yet to be set; a node with a command carries the command's hash
/// (the one the build log records), else 0.
pub open spec fn node_template(
    globals: Seq<(Seq<char>, Seq<char>)>,
    b: BuildView,
    r: Option<RuleView>,
) -> NodeView {
    let rv = match r {
        Some(x) => x.variables,
        None => Seq::empty(),
    };
    NodeView {
        path: Seq::empty(),
        command: match r {
            Some(x) => opt_expand(globals, b, rv, x.command),
            None => None,
        },
        command_hash: match r {
            Some(x) => match opt_expand(globals, b, rv, x.command) {
                Some(c) => crate::buildlog::spec_hash_command(c),
                None => 0,
            },
            None => 0,
        },
        description: match r {
            Some(x) => opt_expand(globals, b, rv, x.description),
            None => None,
        },
        deps: b.inputs + b.implicit_deps + b.order_only_deps,
        rule: b.rule,
        is_phony: b.rule == "phony"@,
        is_source: false,
        restat: match r {
            Some(x) => x.restat,
            None => false,
        },
        depfile: expand_var(
            globals,
            b,
            rv,
            match r {
                Some(x) => match x.depfile {
                    Some(d) => d,
                    None => Seq::empty(),
                },
                None => Seq::empty(),
            },
        ),
        pool: match r {
            Some(x) => x.pool,
            None => None,
        },
        generator: match r {
            Some(x) => x.generator,
            None => false,
        },
        rspfile: match r {
            Some(x) => opt_expand(globals, b, rv, x.rspfile),
            None => None,
        },
        rspfile_content: match r {
            Some(x) => opt_expand(globals, b, rv, x.rspfile_content),
            None => None,
        },
    }
}

pub(crate) fn join_strings(ws: &Vec<String>, sep: &str) -> (r: Vec<char>)
    ensures
        r@ == join(views(ws@), sep@),
{
    let mut r: Vec<char> = Vec::new();
    let mut i: usize = 0;
    while i < ws.len()
        invariant
            i <= ws@.len(),
            r@ == join(views(ws@).take(i as int), sep@),
        decreases ws.len() - i,
    {
        let ghost r0 = r@;
        if i > 0 {
            push_str(&mut r, sep);
        }
        push_str(&mut r, ws[i].as_str());
        proof {
            let t = views(ws@).take(i + 1);
            assert(t.drop_last() =~= views(ws@).take(i as int));
            assert(t.last() == ws@[i as int]@);
            if i == 0 {
                assert(r@ =~= t[0]);
            }
        }
        i = i + 1;
    }
    proof {
        assert(views(ws@).take(i as int) =~= views(ws@));
    }
    r
}

fn replace_lit(s: &Vec<char>, pat: &str, rep: &[char]) -> (r: Vec<char>)
    requires
        pat@.len() > 0,
    ensures
        r@ == replace(s@, pat@, rep@),
{
    let pc = chars_of(pat);
    replace_chars(s, &pc, rep)
}

fn first_chars(ws: &Vec<String>) -> (r: Vec<char>)
    ensures
        r@ == first_or_empty(views(ws@)),
{
    if ws.len() > 0 {
        chars_of(ws[0].as_str())
    } else {
        Vec::new()
    }
}

/// Expands the variables of a command-like string of the build edge `b`.
fn expand_command_text(
    globals: &StrMap<String>,
    b: &Build,
    rule_vars: &StrMap<String>,
    s: &str,
) -> (r: String)
    ensures
        r@ == expand_var(globals@, b@, rule_vars@, s@),
{
    let in_str = join_strings(&b.inputs, " ");
    let out_str = join_strings(&b.outputs, " ");
    let in_nl = join_strings(&b.inputs, "\n");
    let in_first = first_chars(&b.inputs);
    let out_first = first_chars(&b.outputs);
    let s0 = chars_of(s);
    proof {
        reveal_strlit("$in");
        reveal_strlit("${in}");
        reveal_strlit("$out");
        reveal_strlit("${out}");
        reveal_strlit("$in_newline");
        reveal_strlit("$first_input");
        reveal_strlit("$first_output");
        reveal_strlit("$$");
        reveal_strlit("$ ");
        reveal_strlit("$:");
    }
    let r1 = replace_lit(&s0, "$in", &in_str);
    let r2 = replace_lit(&r1, "${in}", &in_str);
    let r3 = replace_lit(&r2, "$out", &out_str);
    let r4 = replace_lit(&r3, "${out}", &out_str);
    let r5 = replace_lit(&r4, "$in_newline", &in_nl);
    let r6 = replace_lit(&r5, "$first_input", &in_first);
    let r7 = replace_lit(&r6, "$first_output", &out_first);
    let e1 = expand_path(&b.variables, &r7);
    let e2 = expand_path(rule_vars, &e1);
    let e3 = expand_path(globals, &e2);
    let d = chars_of("$");
    let sp = chars_of(" ");
    let co = chars_of(":");
    let u1 = replace_lit(&e3, "$$", &d);
    let u2 = replace_lit(&u1, "$ ", &sp);
    let u3 = replace_lit(&u2, "$:", &co);
    string_of(&u3)
}

fn opt_expand_exec(
    globals: &StrMap<String>,
    b: &Build,
    rule_vars: &StrMap<String>,
    o: &Option<String>,
) -> (r: Option<String>)
    ensures
        opt_view(r) == opt_expand(globals@, b@, rule_vars@, opt_view(*o)),
{
    match o {
        Some(s) => Some(expand_command_text(globals, b, rule_vars, s.as_str())),
        None => None,
    }
}

fn make_template(globals: &StrMap<String>, b: &Build, r: Option<&Rule>) -> (n: Node)
    ensures
        n@ == node_template(globals@, b@, rule_opt(r)),
{
    let empty_vars: StrMap<String> = StrMap::new();
    let deps = b.all_deps();
    let phony = crate::strmap::str_eq(b.rule.as_str(), "phony");
    match r {
        None => {
            let depfile = expand_command_text(globals, b, &empty_vars, "");
            proof {
                reveal_strlit("");
            }
            Node {
                path: String::new(),
                command: None,
                command_hash: 0,
                description: None,
                deps,
                rule: b.rule.clone(),
                is_phony: phony,
                is_source: false,
                restat: false,
                depfile,
                pool: None,
                generator: false,
                rspfile: None,
                rspfile_content: None,
            }
        },
        Some(rule) => {
            let rv = &rule.variables;
            let depfile = match &rule.depfile {
                Some(d) => expand_command_text(globals, b, rv, d.as_str()),
                None => {
                    proof {
                        reveal_strlit("");
                    }
                    expand_command_text(globals, b, rv, "")
                },
            };
            let command = opt_expand_exec(globals, b, rv, &rule.command);
            let command_hash = match &command {
                Some(c) => crate::buildlog::hash_command(c.as_str()),
                None => 0,
            };
            Node {
                path: String::new(),
                command,
                command_hash,
                description: opt_expand_exec(globals, b, rv, &rule.description),
                deps,
                rule: b.rule.clone(),
                is_phony: phony,
                is_source: false,
                restat: rule.restat,
                depfile,
                pool: node::dup_opt(&rule.pool),
                generator: rule.generator,
                rspfile: opt_expand_exec(globals, b, rv, &rule.rspfile),
                rspfile_content: opt_expand_exec(globals, b, rv, &rule.rspfile_content),
            }
        },
    }
}

// ---------------------------------------------------------------------------
// Graph construction
// ---------------------------------------------------------------------------

/// `nodes` after adding a node for each of `outs`, made from `tmpl`; fails on
/// the first output that already has a node.
pub open spec fn add_outputs(
    tmpl: NodeView,
    outs: Seq<Seq<char>>,
    nodes: Seq<(Seq<char>, NodeView)>,
) -> Result<Seq<(Seq<char>, NodeView)>, GraphErrorView>
    decreases outs.len(),
{
    if outs.len() == 0 {
        Ok(nodes)
    } else if has_key(nodes, outs[0]) {
        Err(GraphErrorView::DuplicateOutput { output: outs[0] })
    } else {
        add_outputs(tmpl, outs.drop_first(), nodes.push((outs[0], NodeView { path: outs[0], ..tmpl })))
    }
}

/// `nodes` after adding the nodes of the build edges `builds`, in order.
pub open spec fn add_builds(
    globals: Seq<(Seq<char>, Seq<char>)>,
    rules: Seq<(Seq<char>, RuleView)>,
    builds: Seq<BuildView>,
    nodes: Seq<(Seq<char>, NodeView)>,
) -> Result<Seq<(Seq<char>, NodeView)>, GraphErrorView>
    decreases builds.len(),
{
    if builds.len() == 0 {
        Ok(nodes)
    } else {
        let b = builds[0];
        let tmpl = node_template(globals, b, lookup(rules, b.rule));
        match add_outputs(tmpl, b.outputs + b.implicit_outputs, nodes) {
            Err(e) => Err(e),
            Ok(n2) => add_builds(globals, rules, builds.drop_first(), n2),
        }
    }
}

/// `acc` with each of `ds` that has no node in `nodes` and is not in `acc` yet.
pub open spec fn src_deps(
    nodes: Seq<(Seq<char>, NodeView)>,
    ds: Seq<Seq<char>>,
    acc: Seq<Seq<char>>,
) -> Seq<Seq<char>>
    decreases ds.len(),
{
    if ds.len() == 0 {
        acc
    } else {
        let d = ds[0];
        let acc2 = if !has_key(nodes, d) && !acc.contains(d) {
            acc.push(d)
        } else {
            acc
        };
        src_deps(nodes, ds.drop_first(), acc2)
    }
}

/// The source files: the dependencies of the nodes from the `k`-th on that
/// have no node, each once, in the order first named, after `acc`.
pub open spec fn src_all(nodes: Seq<(Seq<char>, NodeView)>, k: int, acc: Seq<Seq<char>>) -> Seq<
    Seq<char>,
>
    decreases nodes.len() - k,
{
    if k < 0 || k >= nodes.len() {
        acc
    } else {
        src_all(nodes, k + 1, src_deps(nodes, nodes[k].1.deps, acc))
    }
}

/// The nodes of source files for the paths `srcs`.
pub open spec fn source_entries(srcs: Seq<Seq<char>>) -> Seq<(Seq<char>, NodeView)> {
    srcs.map_values(|p: Seq<char>| (p, source_node(p)))
}

/// The nodes of a manifest's build edges followed by those of its source
/// files.
pub open spec fn graph_nodes(m: ManifestView) -> Result<Seq<(Seq<char>, NodeView)>, GraphErrorView> {
    match add_builds(m.variables, m.rules, m.builds, Seq::empty()) {
        Err(e) => Err(e),
        Ok(n) => Ok(n + source_entries(src_all(n, 0, Seq::empty()))),
    }
}

/// The pool depths of a manifest, by pool name.
pub open spec fn pool_depth_entries(pools: Seq<(Seq<char>, crate::parser::manifest::PoolView)>) -> Seq<
    (Seq<char>, usize),
> {
    insert_seq(
        Seq::empty(),
        pools.map_values(|e: (Seq<char>, crate::parser::manifest::PoolView)| (e.0, e.1.depth as usize)),
    )
}

// ---------------------------------------------------------------------------
// Depth-first search
// ---------------------------------------------------------------------------

/// The number of `keys` not on `stack`.
pub open spec fn count_out(keys: Seq<Seq<char>>, stack: Seq<Seq<char>>) -> nat
    decreases keys.len(),
{
    if keys.len() == 0 {
        0
    } else {
        (if stack.contains(keys[0]) {
            0nat
        } else {
            1nat
        }) + count_out(keys.drop_first(), stack)
    }
}

/// Pushing a key that is not on the stack lowers the count of keys off it.
pub proof fn lemma_count_push(keys: Seq<Seq<char>>, stack: Seq<Seq<char>>, p: Seq<char>)
    ensures
        count_out(keys, stack.push(p)) <= count_out(keys, stack),
        keys.contains(p) && !stack.contains(p) ==> count_out(keys, stack.push(p)) < count_out(
            keys,
            stack,
        ),
    decreases keys.len(),
{
    if keys.len() > 0 {
        lemma_count_push(keys.drop_first(), stack, p);
        assert(stack.push(p).contains(keys[0]) == (stack.contains(keys[0]) || keys[0] == p)) by {
            if stack.contains(keys[0]) {
                let j = choose|j: int| 0 <= j < stack.len() && stack[j] == keys[0];
                assert(stack.push(p)[j] == keys[0]);
            }
            if stack.push(p).contains(keys[0]) && keys[0] != p {
                let j = choose|j: int| 0 <= j < stack.push(p).len() && stack.push(p)[j] == keys[0];
                assert(stack[j] == keys[0]);
            }
            if keys[0] == p {
                assert(stack.push(p)[stack.len() as int] == p);
            }
        }
        if keys.contains(p) && !stack.contains(p) && keys[0] != p {
            let j = choose|j: int| 0 <= j < keys.len() && keys[j] == p;
            assert(keys.drop_first()[j - 1] == p);
        }
    }
}

/// A lookup that finds a node finds one of the keys.
pub proof fn lemma_lookup_key<X>(s: Seq<(Seq<char>, X)>, p: Seq<char>)
    ensures
        lookup(s, p) is Some ==> keys_of(s).contains(p),
{
    lemma_key_index_bound(s, p);
    if lookup(s, p) is Some {
        let i = crate::strmap::key_index(s, p)->0;
        assert(keys_of(s)[i] == p);
    }
}

/// The depth-first visit of `p` as the build graph does it: `order` holds
/// the paths whose visit has finished, `stack` those being visited.  A path
/// on the stack is a cycle; a path without a node fails when `strict`, and
/// otherwise finishes at once.  Returns the paths finished afterwards.
pub open spec fn dfs(
    nodes: Seq<(Seq<char>, NodeView)>,
    p: Seq<char>,
    order: Seq<Seq<char>>,
    stack: Seq<Seq<char>>,
    strict: bool,
) -> Result<Seq<Seq<char>>, GraphErrorView>
    decreases count_out(keys_of(nodes), stack), 0int,
{
    if order.contains(p) {
        Ok(order)
    } else if stack.contains(p) {
        Err(GraphErrorView::Cycle { target: p })
    } else {
        match lookup(nodes, p) {
            None => if strict {
                Err(GraphErrorView::UnknownTarget { target: p })
            } else {
                Ok(order.push(p))
            },
            Some(n) => {
                proof {
                    lemma_lookup_key(nodes, p);
                    lemma_count_push(keys_of(nodes), stack, p);
                }
                match dfs_list(nodes, n.deps, 0, order, stack.push(p), strict) {
                    Err(e) => Err(e),
                    Ok(o2) => Ok(o2.push(p)),
                }
            },
        }
    }
}

/// The visits of `ds[i..]`, one after the other.
pub open spec fn dfs_list(
    nodes: Seq<(Seq<char>, NodeView)>,
    ds: Seq<Seq<char>>,
    i: int,
    order: Seq<Seq<char>>,
    stack: Seq<Seq<char>>,
    strict: bool,
) -> Result<Seq<Seq<char>>, GraphErrorView>
    decreases count_out(keys_of(nodes), stack), ds.len() - i + 1,
{
    if i < 0 || i >= ds.len() {
        Ok(order)
    } else {
        match dfs(nodes, ds[i], order, stack, strict) {
            Err(e) => Err(e),
            Ok(o2) => dfs_list(nodes, ds, i + 1, o2, stack, strict),
        }
    }
}

/// The cycle check of the nodes from the `k`-th on, each visited in turn.
pub open spec fn check_from(nodes: Seq<(Seq<char>, NodeView)>, k: int, order: Seq<Seq<char>>) -> Result<
    (),
    GraphErrorView,
>
    decreases nodes.len() - k,
{
    if k < 0 || k >= nodes.len() {
        Ok(())
    } else {
        match dfs(nodes, nodes[k].0, order, Seq::empty(), false) {
            Err(e) => Err(e),
            Ok(o2) => check_from(nodes, k + 1, o2),
        }
    }
}

/// The visits of the targets from the `k`-th on, in strict mode.
pub open spec fn topo_from(
    nodes: Seq<(Seq<char>, NodeView)>,
    targets: Seq<Seq<char>>,
    k: int,
    order: Seq<Seq<char>>,
) -> Result<Seq<Seq<char>>, GraphErrorView>
    decreases targets.len() - k,
{
    if k < 0 || k >= targets.len() {
        Ok(order)
    } else {
        match dfs(nodes, targets[k], order, Seq::empty(), true) {
            Err(e) => Err(e),
            Ok(o2) => topo_from(nodes, targets, k + 1, o2),
        }
    }
}

/// The nodes of the paths in `order` that have one, in order.
pub open spec fn nodes_of(nodes: Seq<(Seq<char>, NodeView)>, order: Seq<Seq<char>>) -> Seq<NodeView>
    decreases order.len(),
{
    if order.len() == 0 {
        Seq::empty()
    } else {
        let rest = nodes_of(nodes, order.drop_last());
        match lookup(nodes, order.last()) {
            Some(n) => rest.push(n),
            None => rest,
        }
    }
}

/// The mathematical value of a `Graph`.
pub struct GraphView {
    pub nodes: Seq<(Seq<char>, NodeView)>,
    pub rules: Seq<(Seq<char>, RuleView)>,
    pub variables: Seq<(Seq<char>, Seq<char>)>,
    pub pools: Seq<(Seq<char>, usize)>,
}

/// The graph of a manifest, or the error that building it gives: a second
/// node for an output, or a cycle.
pub open spec fn graph_of(m: ManifestView) -> Result<GraphView, GraphErrorView> {
    match graph_nodes(m) {
        Err(e) => Err(e),
        Ok(nodes) => match check_from(nodes, 0, Seq::empty()) {
            Err(e) => Err(e),
            Ok(_) => Ok(
                GraphView {
                    nodes,
                    rules: m.rules,
                    variables: m.variables,
                    pools: pool_depth_entries(m.pools),
                },
            ),
        },
    }
}

/// The build graph.
#[derive(Debug)]
pub struct Graph {
    nodes: StrMap<Node>,
    rules: StrMap<Rule>,
    variables: StrMap<String>,
    pools: StrMap<usize>,
}

impl View for Graph {
    type V = GraphView;

    closed spec fn view(&self) -> GraphView {
        GraphView {
            nodes: self.nodes@,
            rules: self.rules@,
            variables: self.variables@,
            pools: self.pools@,
        }
    }
}

pub(crate) fn contains_str(v: &Vec<String>, p: &str) -> (b: bool)
    ensures
        b == views(v@).contains(p@),
{
    let mut i: usize = 0;
    while i < v.len()
        invariant
            i <= v@.len(),
            forall|j: int| 0 <= j < i ==> views(v@)[j] != p@,
        decreases v.len() - i,
    {
        if crate::strmap::str_eq(v[i].as_str(), p) {
            assert(views(v@)[i as int] == p@);
            return true;
        }
        i = i + 1;
    }
    false
}

fn add_outputs_exec(tmpl: &Node, outs: &Vec<String>, nodes: &mut StrMap<Node>) -> (r: Result<
    (),
    GraphError,
>)
    ensures
        match r {
            Ok(()) => add_outputs(tmpl@, views(outs@), old(nodes)@) == Ok::<
                Seq<(Seq<char>, NodeView)>,
                GraphErrorView,
            >(final(nodes)@),
            Err(e) => add_outputs(tmpl@, views(outs@), old(nodes)@) == Err::<
                Seq<(Seq<char>, NodeView)>,
                GraphErrorView,
            >(e@),
        },
{
    let ghost goal = add_outputs(tmpl@, views(outs@), nodes@);
    let mut i: usize = 0;
    proof {
        assert(views(outs@).skip(0) =~= views(outs@));
    }
    while i < outs.len()
        invariant
            i <= outs@.len(),
            goal == add_outputs(tmpl@, views(outs@), old(nodes)@),
            goal == add_outputs(tmpl@, views(outs@).skip(i as int), nodes@),
        decreases outs.len() - i,
    {
        let o = &outs[i];
        proof {
            let sk = views(outs@).skip(i as int);
            assert(sk[0] == o@);
            assert(sk.drop_first() =~= views(outs@).skip(i + 1));
        }
        if nodes.contains_key(o.as_str()) {
            return Err(GraphError::DuplicateOutput { output: o.clone() });
        }
        let mut n = tmpl.duplicate();
        n.path = o.clone();
        let ghost nv = n@;
        assert(nv == (NodeView { path: o@, ..tmpl@ }));
        proof {
            crate::strmap::lemma_key_index_bound(nodes@, o@);
        }
        nodes.insert(o.clone(), n);
        i = i + 1;
    }
    proof {
        assert(views(outs@).skip(i as int) =~= Seq::<Seq<char>>::empty());
    }
    Ok(())
}

fn src_deps_exec(nodes: &StrMap<Node>, ds: &Vec<String>, acc: &mut Vec<String>)
    ensures
        views(final(acc)@) == src_deps(nodes@, views(ds@), views(old(acc)@)),
{
    let ghost goal = src_deps(nodes@, views(ds@), views(acc@));
    let mut i: usize = 0;
    proof {
        assert(views(ds@).skip(0) =~= views(ds@));
    }
    while i < ds.len()
        invariant
            i <= ds@.len(),
            goal == src_deps(nodes@, views(ds@), views(old(acc)@)),
            goal == src_deps(nodes@, views(ds@).skip(i as int), views(acc@)),
        decreases ds.len() - i,
    {
        let d = &ds[i];
        proof {
            let sk = views(ds@).skip(i as int);
            assert(sk[0] == d@);
            assert(sk.drop_first() =~= views(ds@).skip(i + 1));
        }
        if !nodes.contains_key(d.as_str()) && !contains_str(acc, d.as_str()) {
            let ghost a0 = acc@;
            acc.push(d.clone());
            proof {
                assert(views(acc@) =~= views(a0).push(d@));
            }
        }
        i = i + 1;
    }
    proof {
        assert(views(ds@).skip(i as int) =~= Seq::<Seq<char>>::empty());
    }
}

proof fn lemma_not_key_append(
    a: Seq<(Seq<char>, NodeView)>,
    srcs: Seq<Seq<char>>,
    p: Seq<char>,
)
    requires
        !has_key(a, p),
        !srcs.contains(p),
    ensures
        !has_key(a + source_entries(srcs), p),
{
    let c = a + source_entries(srcs);
    lemma_key_index_bound(a, p);
    assert forall|j: int| 0 <= j < c.len() implies (#[trigger] c[j]).0 != p by {
        if j >= a.len() {
            assert(c[j] == source_entries(srcs)[j - a.len()]);
            assert(source_entries(srcs)[j - a.len()].0 == srcs[j - a.len()]);
        } else {
            assert(c[j] == a[j]);
        }
    }
    crate::strmap::lemma_key_index(c, p, c.len() as int);
}

/// Paths that have no node in `nodes`, each named once.
pub open spec fn fresh_paths(nodes: Seq<(Seq<char>, NodeView)>, r: Seq<Seq<char>>) -> bool {
    &&& forall|a: int| 0 <= a < r.len() ==> !has_key(nodes, #[trigger] r[a])
    &&& forall|a: int, b: int| 0 <= a < b < r.len() ==> r[a] != r[b]
}

proof fn lemma_src_deps(nodes: Seq<(Seq<char>, NodeView)>, ds: Seq<Seq<char>>, acc: Seq<Seq<char>>)
    requires
        fresh_paths(nodes, acc),
    ensures
        fresh_paths(nodes, src_deps(nodes, ds, acc)),
    decreases ds.len(),
{
    if ds.len() > 0 {
        let d = ds[0];
        if !has_key(nodes, d) && !acc.contains(d) {
            let acc2 = acc.push(d);
            assert forall|a: int, b: int| 0 <= a < b < acc2.len() implies #[trigger] acc2[a] != #[trigger] acc2[b] by {
                if b == acc.len() {
                    assert(acc2[a] == acc[a]);
                    if acc[a] == d {
                        assert(acc.contains(d));
                    }
                }
            }
            assert forall|a: int| 0 <= a < acc2.len() implies !has_key(nodes, #[trigger] acc2[a]) by {
                if a < acc.len() {
                    assert(acc2[a] == acc[a]);
                }
            }
            lemma_src_deps(nodes, ds.drop_first(), acc2);
        } else {
            lemma_src_deps(nodes, ds.drop_first(), acc);
        }
    }
}

pub(crate) proof fn lemma_src_all(nodes: Seq<(Seq<char>, NodeView)>, k: int, acc: Seq<Seq<char>>)
    requires
        fresh_paths(nodes, acc),
    ensures
        fresh_paths(nodes, src_all(nodes, k, acc)),
    decreases nodes.len() - k,
{
    if 0 <= k < nodes.len() {
        lemma_src_deps(nodes, nodes[k].1.deps, acc);
        lemma_src_all(nodes, k + 1, src_deps(nodes, nodes[k].1.deps, acc));
    }
}

impl Graph {
    /// The depth-first visit of `p` (see `dfs`), with the finished paths and
    /// the stack passed in and handed back.
    fn visit(&self, p: &str, order: Vec<String>, stack: Vec<String>, strict: bool) -> (r: Result<
        (Vec<String>, Vec<String>),
        GraphError,
    >)
        ensures
            match r {
                Ok((o2, s2)) => dfs(self@.nodes, p@, views(order@), views(stack@), strict) == Ok::<
                    Seq<Seq<char>>,
                    GraphErrorView,
                >(views(o2@)) && views(s2@) == views(stack@),
                Err(e) => dfs(self@.nodes, p@, views(order@), views(stack@), strict) == Err::<
                    Seq<Seq<char>>,
                    GraphErrorView,
                >(e@),
            },
        decreases count_out(keys_of(self@.nodes), views(stack@)),
    {
        if contains_str(&order, p) {
            return Ok((order, stack));
        }
        if contains_str(&stack, p) {
            return Err(GraphError::Cycle { target: p.to_owned() });
        }
        match self.nodes.get(p) {
            None => {
                if strict {
                    Err(GraphError::UnknownTarget { target: p.to_owned() })
                } else {
                    let mut order = order;
                    let ghost o0 = order@;
                    order.push(p.to_owned());
                    proof {
                        assert(views(order@) =~= views(o0).push(p@));
                    }
                    Ok((order, stack))
                }
            },
            Some(node) => {
                let ghost nodes = self@.nodes;
                let ghost st0 = views(stack@);
                let ghost o0 = views(order@);
                let ghost goal = dfs(nodes, p@, o0, st0, strict);
                let mut stk = stack;
                stk.push(p.to_owned());
                proof {
                    assert(views(stk@) =~= st0.push(p@));
                    lemma_lookup_key(nodes, p@);
                    lemma_count_push(keys_of(nodes), st0, p@);
                }
                let mut ord = order;
                let mut i: usize = 0;
                while i < node.deps.len()
                    invariant
                        i <= node.deps@.len(),
                        nodes == self@.nodes,
                        st0 == views(stack@),
                        o0 == views(order@),
                        goal == dfs(nodes, p@, o0, st0, strict),
                        lookup(nodes, p@) == Some(node@),
                        views(stk@) == st0.push(p@),
                        count_out(keys_of(nodes), st0.push(p@)) < count_out(keys_of(nodes), st0),
                        goal == match dfs_list(nodes, views(node.deps@), i as int, views(ord@), st0.push(p@), strict) {
                            Err(e) => Err(e),
                            Ok(o2) => Ok(o2.push(p@)),
                        },
                    decreases node.deps.len() - i,
                {
                    assert(views(node.deps@)[i as int] == node.deps@[i as int]@);
                    match self.visit(node.deps[i].as_str(), ord, stk, strict) {
                        Err(e) => {
                            return Err(e);
                        },
                        Ok((o2, s2)) => {
                            ord = o2;
                            stk = s2;
                        },
                    }
                    i = i + 1;
                }
                let ghost s1 = stk@;
                stk.pop();
                proof {
                    assert(views(stk@) =~= views(s1).drop_last());
                    assert(st0.push(p@).drop_last() =~= st0);
                }
                let ghost o1 = ord@;
                ord.push(p.to_owned());
                proof {
                    assert(views(ord@) =~= views(o1).push(p@));
                }
                Ok((ord, stk))
            },
        }
    }

    fn check_cycles(&self) -> (r: Result<(), GraphError>)
        ensures
            match r {
                Ok(()) => check_from(self@.nodes, 0, Seq::empty()) == Ok::<(), GraphErrorView>(()),
                Err(e) => check_from(self@.nodes, 0, Seq::empty()) == Err::<(), GraphErrorView>(e@),
            },
    {
        let ghost goal = check_from(self@.nodes, 0, Seq::empty());
        let mut order: Vec<String> = Vec::new();
        let mut k: usize = 0;
        proof {
            assert(views(order@) =~= Seq::<Seq<char>>::empty());
        }
        while k < self.nodes.len()
            invariant
                k <= self@.nodes.len(),
                goal == check_from(self@.nodes, 0, Seq::empty()),
                goal == check_from(self@.nodes, k as int, views(order@)),
            decreases self@.nodes.len() - k,
        {
            let stack: Vec<String> = Vec::new();
            proof {
                assert(views(stack@) =~= Seq::<Seq<char>>::empty());
            }
            match self.visit(self.nodes.key_at(k).as_str(), order, stack, false) {
                Err(e) => {
                    return Err(e);
                },
                Ok((o2, _)) => {
                    order = o2;
                },
            }
            k = k + 1;
        }
        Ok(())
    }

    /// Builds the graph of a parsed manifest: a node for each output of each
    /// build statement, then one for each source file, then a check that
    /// the graph has no cycle.
    pub fn from_manifest(manifest: &Manifest) -> (r: Result<Self, GraphError>)
        ensures
            match r {
                Ok(g) => graph_of(manifest@) == Ok::<GraphView, GraphErrorView>(g@),
                Err(e) => graph_of(manifest@) == Err::<GraphView, GraphErrorView>(e@),
            },
    {
        let ghost m = manifest@;
        let mut pools: StrMap<usize> = StrMap::new();
        let mut j: usize = 0;
        let ghost pe = m.pools.map_values(
            |e: (Seq<char>, crate::parser::manifest::PoolView)| (e.0, e.1.depth as usize),
        );
        proof {
            assert(pe.skip(0) =~= pe);
        }
        while j < manifest.pools.len()
            invariant
                j <= manifest.pools@.len(),
                m == manifest@,
                pe == m.pools.map_values(
                    |e: (Seq<char>, crate::parser::manifest::PoolView)| (e.0, e.1.depth as usize),
                ),
                pool_depth_entries(m.pools) == insert_seq(pools@, pe.skip(j as int)),
            decreases manifest.pools@.len() - j,
        {
            let k = manifest.pools.key_at(j);
            let v = manifest.pools.value_at(j);
            proof {
                let sk = pe.skip(j as int);
                assert(sk[0] == (k@, v.depth));
                assert(sk.drop_first() =~= pe.skip(j + 1));
            }
            pools.insert(k.clone(), v.depth);
            j = j + 1;
        }
        proof {
            assert(pe.skip(j as int) =~= Seq::<(Seq<char>, usize)>::empty());
        }
        let mut nodes: StrMap<Node> = StrMap::new();
        let ghost goal = add_builds(m.variables, m.rules, m.builds, nodes@);
        let mut i: usize = 0;
        proof {
            assert(m.builds.skip(0) =~= m.builds);
        }
        while i < manifest.builds.len()
            invariant
                i <= manifest.builds@.len(),
                m == manifest@,
                goal == add_builds(m.variables, m.rules, m.builds, Seq::empty()),
                goal == add_builds(m.variables, m.rules, m.builds.skip(i as int), nodes@),
            decreases manifest.builds@.len() - i,
        {
            let b = &manifest.builds[i];
            proof {
                let sk = m.builds.skip(i as int);
                assert(sk[0] == b@);
                assert(sk.drop_first() =~= m.builds.skip(i + 1));
            }
            let rule = manifest.rules.get(b.rule.as_str());
            let tmpl = make_template(&manifest.variables, b, rule);
            let outs = b.all_outputs();
            match add_outputs_exec(&tmpl, &outs, &mut nodes) {
                Err(e) => {
                    return Err(e);
                },
                Ok(()) => {},
            }
            i = i + 1;
        }
        proof {
            assert(m.builds.skip(i as int) =~= Seq::<BuildView>::empty());
        }
        let ghost n1 = nodes@;
        let mut srcs: Vec<String> = Vec::new();
        let mut k: usize = 0;
        proof {
            assert(views(srcs@) =~= Seq::<Seq<char>>::empty());
        }
        while k < nodes.len()
            invariant
                k <= n1.len(),
                nodes@ == n1,
                src_all(n1, 0, Seq::empty()) == src_all(n1, k as int, views(srcs@)),
            decreases n1.len() - k,
        {
            let n = nodes.value_at(k);
            src_deps_exec(&nodes, &n.deps, &mut srcs);
            k = k + 1;
        }
        let ghost srcv = views(srcs@);
        proof {
            lemma_src_all(n1, 0, Seq::empty());
            assert(source_entries(srcv.take(0)) =~= Seq::<(Seq<char>, NodeView)>::empty());
            assert(n1 + Seq::<(Seq<char>, NodeView)>::empty() =~= n1);
        }
        let mut q: usize = 0;
        while q < srcs.len()
            invariant
                q <= srcs@.len(),
                srcv == views(srcs@),
                nodes@ == n1 + source_entries(srcv.take(q as int)),
                forall|a: int| 0 <= a < srcv.len() ==> !has_key(n1, #[trigger] srcv[a]),
                forall|a: int, b: int| 0 <= a < b < srcv.len() ==> srcv[a] != srcv[b],
            decreases srcs.len() - q,
        {
            let ghost before = nodes@;
            let sn = Node::source(srcs[q].clone());
            proof {
                assert(srcv[q as int] == srcs@[q as int]@);
                if srcv.take(q as int).contains(srcv[q as int]) {
                    let a = choose|a: int| 0 <= a < q && srcv.take(q as int)[a] == srcv[q as int];
                    assert(srcv[a] == srcv[q as int]);
                }
                lemma_not_key_append(n1, srcv.take(q as int), srcv[q as int]);
            }
            nodes.insert(srcs[q].clone(), sn);
            q = q + 1;
            proof {
                assert(source_entries(srcv.take(q as int)) =~= source_entries(srcv.take(q - 1)).push(
                    (srcv[q - 1], source_node(srcv[q - 1])),
                ));
            }
        }
        proof {
            assert(srcv.take(q as int) =~= srcv);
        }
        let g = Graph {
            nodes,
            rules: manifest.rules.duplicate(),
            variables: manifest.variables.duplicate(),
            pools,
        };
        match g.check_cycles() {
            Err(e) => Err(e),
            Ok(()) => Ok(g),
        }
    }
}

/// The views of a vector of node references.
pub open spec fn node_refs(v: Seq<&Node>) -> Seq<NodeView> {
    v.map_values(|n: &Node| n@)
}

/// The views of a slice of string slices.
pub open spec fn str_views(v: Seq<&str>) -> Seq<Seq<char>> {
    v.map_values(|t: &str| t@)
}

impl Graph {
    /// The node of `path`.
    pub fn get_node(&self, path: &str) -> (r: Option<&Node>)
        ensures
            match lookup(self@.nodes, path@) {
                Some(n) => r is Some && r->0@ == n,
                None => r is None,
            },
    {
        self.nodes.get(path)
    }

    /// All nodes, in the order in which they were created.
    pub fn nodes(&self) -> (r: Vec<&Node>)
        ensures
            node_refs(r@) == self@.nodes.map_values(|e: (Seq<char>, NodeView)| e.1),
    {
        let ghost all = self@.nodes.map_values(|e: (Seq<char>, NodeView)| e.1);
        let mut r: Vec<&Node> = Vec::new();
        let mut i: usize = 0;
        while i < self.nodes.len()
            invariant
                i <= self@.nodes.len(),
                all == self@.nodes.map_values(|e: (Seq<char>, NodeView)| e.1),
                node_refs(r@) == all.take(i as int),
            decreases self@.nodes.len() - i,
        {
            let ghost r0 = r@;
            let n = self.nodes.value_at(i);
            r.push(n);
            i = i + 1;
            proof {
                assert(node_refs(r@) =~= node_refs(r0).push(n@));
                assert(all.take(i as int) =~= all.take(i - 1).push(all[i - 1]));
            }
        }
        proof {
            assert(all.take(i as int) =~= all);
        }
        r
    }

    /// The depth of each pool, by pool name.
    pub fn pool_depths(&self) -> (r: StrMap<usize>)
        ensures
            r@ == self@.pools,
    {
        self.pools.duplicate()
    }

    /// The nodes needed to build `targets`, each after its dependencies: the
    /// depth-first order of the visits of the targets in turn.  Fails on a
    /// target or dependency without a node, and on a cycle.
    pub fn topo_order(&self, targets: &[&str]) -> (r: Result<Vec<&Node>, GraphError>)
        ensures
            match topo_from(self@.nodes, str_views(targets@), 0, Seq::empty()) {
                Ok(o) => r is Ok && node_refs(r->Ok_0@) == nodes_of(self@.nodes, o),
                Err(e) => r is Err && r->Err_0@ == e,
            },
    {
        let ghost tv = str_views(targets@);
        let ghost goal = topo_from(self@.nodes, tv, 0, Seq::empty());
        let mut order: Vec<String> = Vec::new();
        let mut k: usize = 0;
        proof {
            assert(views(order@) =~= Seq::<Seq<char>>::empty());
        }
        while k < targets.len()
            invariant
                k <= targets@.len(),
                tv == str_views(targets@),
                goal == topo_from(self@.nodes, tv, 0, Seq::empty()),
                goal == topo_from(self@.nodes, tv, k as int, views(order@)),
            decreases targets@.len() - k,
        {
            let stack: Vec<String> = Vec::new();
            proof {
                assert(views(stack@) =~= Seq::<Seq<char>>::empty());
                assert(tv[k as int] == targets@[k as int]@);
            }
            match self.visit(targets[k], order, stack, true) {
                Err(e) => {
                    return Err(e);
                },
                Ok((o2, _)) => {
                    order = o2;
                },
            }
            k = k + 1;
        }
        let ghost ov = views(order@);
        let mut res: Vec<&Node> = Vec::new();
        let mut q: usize = 0;
        proof {
            assert(ov.take(0) =~= Seq::<Seq<char>>::empty());
            assert(node_refs(res@) =~= Seq::<NodeView>::empty());
        }
        while q < order.len()
            invariant
                q <= order@.len(),
                ov == views(order@),
                node_refs(res@) == nodes_of(self@.nodes, ov.take(q as int)),
            decreases order.len() - q,
        {
            let ghost r0 = res@;
            proof {
                assert(ov.take(q + 1).drop_last() =~= ov.take(q as int));
                assert(ov.take(q + 1).last() == order@[q as int]@);
            }
            match self.nodes.get(order[q].as_str()) {
                Some(n) => {
                    res.push(n);
                    proof {
                        assert(node_refs(res@) =~= node_refs(r0).push(n@));
                    }
                },
                None => {},
            }
            q = q + 1;
        }
        proof {
            assert(ov.take(q as int) =~= ov);
        }
        Ok(res)
    }
}

// ---------------------------------------------------------------------------
// Laws of the topological order
// ---------------------------------------------------------------------------

/// Every one of `ds` occurs in `prefix`.
pub open spec fn all_in(ds: Seq<Seq<char>>, prefix: Seq<Seq<char>>) -> bool {
    forall|j: int| 0 <= j < ds.len() ==> prefix.contains(#[trigger] ds[j])
}

/// The `i`-th path of `o` has a node, all of whose dependencies come earlier.
pub open spec fn sorted_at(nodes: Seq<(Seq<char>, NodeView)>, o: Seq<Seq<char>>, i: int) -> bool {
    match lookup(nodes, o[i]) {
        Some(n) => all_in(n.deps, o.take(i)),
        None => false,
    }
}

/// Every path of `o` has a node, and each of that node's dependencies comes
/// earlier in `o`.
pub open spec fn topo_sorted(nodes: Seq<(Seq<char>, NodeView)>, o: Seq<Seq<char>>) -> bool {
    forall|i: int| 0 <= i < o.len() ==> #[trigger] sorted_at(nodes, o, i)
}

proof fn lemma_prefix_contains(a: Seq<Seq<char>>, b: Seq<Seq<char>>, x: Seq<char>)
    requires
        a.is_prefix_of(b),
        a.contains(x),
    ensures
        b.contains(x),
{
    let j = choose|j: int| 0 <= j < a.len() && a[j] == x;
    assert(b.take(a.len() as int)[j] == x);
}

proof fn lemma_sorted_push(nodes: Seq<(Seq<char>, NodeView)>, o: Seq<Seq<char>>, p: Seq<char>)
    requires
        topo_sorted(nodes, o),
        lookup(nodes, p) is Some,
        all_in(lookup(nodes, p)->0.deps, o),
    ensures
        topo_sorted(nodes, o.push(p)),
{
    let o2 = o.push(p);
    assert forall|i: int| 0 <= i < o2.len() implies #[trigger] sorted_at(nodes, o2, i) by {
        if i < o.len() {
            assert(sorted_at(nodes, o, i));
            assert(o2[i] == o[i]);
            assert(o2.take(i) =~= o.take(i));
        } else {
            assert(o2.take(i) =~= o);
        }
    }
}

proof fn lemma_dfs_sorted(
    nodes: Seq<(Seq<char>, NodeView)>,
    p: Seq<char>,
    order: Seq<Seq<char>>,
    stack: Seq<Seq<char>>,
)
    requires
        topo_sorted(nodes, order),
    ensures
        match dfs(nodes, p, order, stack, true) {
            Ok(o2) => topo_sorted(nodes, o2) && order.is_prefix_of(o2) && o2.contains(p),
            Err(_) => true,
        },
    decreases count_out(keys_of(nodes), stack), 0int,
{
    if order.contains(p) {
        assert(order.take(order.len() as int) =~= order);
    } else if stack.contains(p) {
    } else {
        match lookup(nodes, p) {
            None => {},
            Some(n) => {
                lemma_lookup_key(nodes, p);
                lemma_count_push(keys_of(nodes), stack, p);
                lemma_dfs_list_sorted(nodes, n.deps, 0, order, stack.push(p));
                match dfs_list(nodes, n.deps, 0, order, stack.push(p), true) {
                    Err(_) => {},
                    Ok(o1) => {
                        lemma_sorted_push(nodes, o1, p);
                        let o2 = o1.push(p);
                        assert(o2.take(order.len() as int) =~= o1.take(order.len() as int));
                        assert(o2[o1.len() as int] == p);
                    },
                }
            },
        }
    }
}

proof fn lemma_dfs_list_sorted(
    nodes: Seq<(Seq<char>, NodeView)>,
    ds: Seq<Seq<char>>,
    i: int,
    order: Seq<Seq<char>>,
    stack: Seq<Seq<char>>,
)
    requires
        topo_sorted(nodes, order),
        0 <= i,
    ensures
        match dfs_list(nodes, ds, i, order, stack, true) {
            Ok(o2) => topo_sorted(nodes, o2) && order.is_prefix_of(o2) && (forall|j: int|
                i <= j < ds.len() ==> o2.contains(#[trigger] ds[j])),
            Err(_) => true,
        },
    decreases count_out(keys_of(nodes), stack), ds.len() - i + 1,
{
    if i < 0 || i >= ds.len() {
        assert(order.take(order.len() as int) =~= order);
    } else {
        lemma_dfs_sorted(nodes, ds[i], order, stack);
        match dfs(nodes, ds[i], order, stack, true) {
            Err(_) => {},
            Ok(o1) => {
                lemma_dfs_list_sorted(nodes, ds, i + 1, o1, stack);
                match dfs_list(nodes, ds, i + 1, o1, stack, true) {
                    Err(_) => {},
                    Ok(o2) => {
                        lemma_prefix_contains(o1, o2, ds[i]);
                        assert(o2.take(order.len() as int) =~= o1.take(order.len() as int));
                        assert(order.is_prefix_of(o2));
                        assert forall|j: int| i <= j < ds.len() implies o2.contains(#[trigger] ds[j]) by {
                            if j == i {
                                assert(o2.contains(ds[i]));
                            }
                        }
                    },
                }
            },
        }
    }
}

proof fn lemma_topo_from(
    nodes: Seq<(Seq<char>, NodeView)>,
    targets: Seq<Seq<char>>,
    k: int,
    order: Seq<Seq<char>>,
)
    requires
        topo_sorted(nodes, order),
        0 <= k,
    ensures
        match topo_from(nodes, targets, k, order) {
            Ok(o) => topo_sorted(nodes, o) && order.is_prefix_of(o) && (forall|j: int|
                k <= j < targets.len() ==> o.contains(#[trigger] targets[j])),
            Err(_) => true,
        },
    decreases targets.len() - k,
{
    if k < 0 || k >= targets.len() {
        assert(order.take(order.len() as int) =~= order);
    } else {
        lemma_dfs_sorted(nodes, targets[k], order, Seq::empty());
        match dfs(nodes, targets[k], order, Seq::empty(), true) {
            Err(_) => {},
            Ok(o1) => {
                lemma_topo_from(nodes, targets, k + 1, o1);
                match topo_from(nodes, targets, k + 1, o1) {
                    Err(_) => {},
                    Ok(o2) => {
                        lemma_prefix_contains(o1, o2, targets[k]);
                        assert(o2.take(order.len() as int) =~= o1.take(order.len() as int));
                        assert(order.is_prefix_of(o2));
                        assert forall|j: int| k <= j < targets.len() implies o2.contains(#[trigger] targets[j]) by {
                            if j == k {
                                assert(o2.contains(targets[k]));
                            }
                        }
                    },
                }
            },
        }
    }
}

proof fn lemma_nodes_of(nodes: Seq<(Seq<char>, NodeView)>, o: Seq<Seq<char>>)
    requires
        forall|i: int| 0 <= i < o.len() ==> lookup(nodes, #[trigger] o[i]) is Some,
    ensures
        nodes_of(nodes, o).len() == o.len(),
        forall|i: int| 0 <= i < o.len() ==> Some(#[trigger] nodes_of(nodes, o)[i]) == lookup(nodes, o[i]),
    decreases o.len(),
{
    if o.len() > 0 {
        let o1 = o.drop_last();
        assert forall|i: int| 0 <= i < o1.len() implies lookup(nodes, #[trigger] o1[i]) is Some by {
            assert(o1[i] == o[i]);
        }
        lemma_nodes_of(nodes, o1);
        assert(lookup(nodes, o[o.len() - 1]) is Some);
        assert forall|i: int| 0 <= i < o.len() implies Some(#[trigger] nodes_of(nodes, o)[i]) == lookup(nodes, o[i]) by {
            if i < o.len() - 1 {
                assert(o1[i] == o[i]);
            }
        }
    }
}

/// The order of `topo_order`: every target is in it, every path in it has a
/// node, each node comes after all of its dependencies, and the nodes
/// returned are those of the paths, one for one.
pub proof fn law_topo_order(nodes: Seq<(Seq<char>, NodeView)>, targets: Seq<Seq<char>>)
    ensures
        match topo_from(nodes, targets, 0, Seq::empty()) {
            Ok(o) => {
                &&& topo_sorted(nodes, o)
                &&& forall|j: int| 0 <= j < targets.len() ==> o.contains(#[trigger] targets[j])
                &&& nodes_of(nodes, o).len() == o.len()
                &&& forall|i: int| 0 <= i < o.len() ==> Some(#[trigger] nodes_of(nodes, o)[i])
                    == lookup(nodes, o[i])
            },
            Err(_) => true,
        },
{
    lemma_topo_from(nodes, targets, 0, Seq::empty());
    match topo_from(nodes, targets, 0, Seq::empty()) {
        Err(_) => {},
        Ok(o) => {
            assert forall|i: int| 0 <= i < o.len() implies lookup(nodes, #[trigger] o[i]) is Some by {
                assert(sorted_at(nodes, o, i));
            }
            lemma_nodes_of(nodes, o);
        },
    }
}

// ---------------------------------------------------------------------------
// Laws of cycle detection
// ---------------------------------------------------------------------------

/// `b` is a dependency of the node of `a`.
pub open spec fn edge(nodes: Seq<(Seq<char>, NodeView)>, a: Seq<char>, b: Seq<char>) -> bool {
    match lookup(nodes, a) {
        Some(n) => n.deps.contains(b),
        None => false,
    }
}

/// The `j`-th path of `c` depends on the next.
pub open spec fn step_ok(nodes: Seq<(Seq<char>, NodeView)>, c: Seq<Seq<char>>, j: int) -> bool {
    edge(nodes, c[j], c[j + 1])
}

/// Each path of `c` depends on the next.
pub open spec fn is_chain(nodes: Seq<(Seq<char>, NodeView)>, c: Seq<Seq<char>>) -> bool {
    forall|j: int| 0 <= j < c.len() - 1 ==> #[trigger] step_ok(nodes, c, j)
}

/// `t` depends on itself through one or more dependencies.
pub open spec fn on_cycle(nodes: Seq<(Seq<char>, NodeView)>, t: Seq<char>) -> bool {
    exists|c: Seq<Seq<char>>| c.len() >= 2 && c[0] == t && c.last() == t && is_chain(nodes, c)
}

/// The graph has no cycle.
pub open spec fn acyclic(nodes: Seq<(Seq<char>, NodeView)>) -> bool {
    forall|t: Seq<char>| !#[trigger] on_cycle(nodes, t)
}

/// The stack of a visit of `p`: a chain whose last path depends on `p`.
pub open spec fn stack_ok(nodes: Seq<(Seq<char>, NodeView)>, stack: Seq<Seq<char>>, p: Seq<char>) -> bool {
    is_chain(nodes, stack) && (stack.len() > 0 ==> edge(nodes, stack.last(), p))
}

proof fn lemma_dfs_cycle(
    nodes: Seq<(Seq<char>, NodeView)>,
    p: Seq<char>,
    order: Seq<Seq<char>>,
    stack: Seq<Seq<char>>,
    strict: bool,
)
    requires
        stack_ok(nodes, stack, p),
    ensures
        match dfs(nodes, p, order, stack, strict) {
            Err(GraphErrorView::Cycle { target }) => on_cycle(nodes, target),
            _ => true,
        },
    decreases count_out(keys_of(nodes), stack), 0int,
{
    if order.contains(p) {
    } else if stack.contains(p) {
        let k = choose|k: int| 0 <= k < stack.len() && stack[k] == p;
        let c = stack.skip(k).push(p);
        assert(c[0] == p);
        assert(c.last() == p);
        assert forall|j: int| 0 <= j < c.len() - 1 implies #[trigger] step_ok(nodes, c, j) by {
            if j < c.len() - 2 {
                assert(c[j] == stack[k + j]);
                assert(c[j + 1] == stack[k + j + 1]);
                assert(step_ok(nodes, stack, k + j));
            } else {
                assert(c[j] == stack.last());
            }
        }
        assert(on_cycle(nodes, p));
    } else {
        match lookup(nodes, p) {
            None => {},
            Some(n) => {
                lemma_lookup_key(nodes, p);
                lemma_count_push(keys_of(nodes), stack, p);
                let s2 = stack.push(p);
                assert forall|j: int| 0 <= j < s2.len() - 1 implies #[trigger] step_ok(nodes, s2, j) by {
                    if j < s2.len() - 2 {
                        assert(s2[j] == stack[j]);
                        assert(s2[j + 1] == stack[j + 1]);
                        assert(step_ok(nodes, stack, j));
                    } else {
                        assert(s2[j] == stack.last());
                    }
                }
                lemma_dfs_list_cycle(nodes, n.deps, 0, order, s2, strict);
            },
        }
    }
}

proof fn lemma_dfs_list_cycle(
    nodes: Seq<(Seq<char>, NodeView)>,
    ds: Seq<Seq<char>>,
    i: int,
    order: Seq<Seq<char>>,
    stack: Seq<Seq<char>>,
    strict: bool,
)
    requires
        is_chain(nodes, stack),
        stack.len() > 0,
        lookup(nodes, stack.last()) is Some,
        ds == lookup(nodes, stack.last())->0.deps,
    ensures
        match dfs_list(nodes, ds, i, order, stack, strict) {
            Err(GraphErrorView::Cycle { target }) => on_cycle(nodes, target),
            _ => true,
        },
    decreases count_out(keys_of(nodes), stack), ds.len() - i + 1,
{
    if 0 <= i < ds.len() {
        assert(ds.contains(ds[i]));
        assert(edge(nodes, stack.last(), ds[i]));
        lemma_dfs_cycle(nodes, ds[i], order, stack, strict);
        match dfs(nodes, ds[i], order, stack, strict) {
            Err(_) => {},
            Ok(o2) => {
                lemma_dfs_list_cycle(nodes, ds, i + 1, o2, stack, strict);
            },
        }
    }
}

/// The paths of `o` that have a node have all of its dependencies earlier.
pub open spec fn sorted_loose(nodes: Seq<(Seq<char>, NodeView)>, o: Seq<Seq<char>>) -> bool {
    forall|i: int| 0 <= i < o.len() ==> #[trigger] loose_at(nodes, o, i)
}

/// The `i`-th path of `o` has no node, or all its dependencies come earlier.
pub open spec fn loose_at(nodes: Seq<(Seq<char>, NodeView)>, o: Seq<Seq<char>>, i: int) -> bool {
    match lookup(nodes, o[i]) {
        Some(n) => all_in(n.deps, o.take(i)),
        None => true,
    }
}

proof fn lemma_loose_push(nodes: Seq<(Seq<char>, NodeView)>, o: Seq<Seq<char>>, p: Seq<char>)
    requires
        sorted_loose(nodes, o),
        match lookup(nodes, p) {
            Some(n) => all_in(n.deps, o),
            None => true,
        },
    ensures
        sorted_loose(nodes, o.push(p)),
{
    let o2 = o.push(p);
    assert forall|i: int| 0 <= i < o2.len() implies #[trigger] loose_at(nodes, o2, i) by {
        if i < o.len() {
            assert(loose_at(nodes, o, i));
            assert(o2[i] == o[i]);
            assert(o2.take(i) =~= o.take(i));
        } else {
            assert(o2.take(i) =~= o);
        }
    }
}

proof fn lemma_dfs_loose(
    nodes: Seq<(Seq<char>, NodeView)>,
    p: Seq<char>,
    order: Seq<Seq<char>>,
    stack: Seq<Seq<char>>,
)
    requires
        sorted_loose(nodes, order),
    ensures
        match dfs(nodes, p, order, stack, false) {
            Ok(o2) => sorted_loose(nodes, o2) && order.is_prefix_of(o2) && o2.contains(p),
            Err(_) => true,
        },
    decreases count_out(keys_of(nodes), stack), 0int,
{
    if order.contains(p) {
        assert(order.take(order.len() as int) =~= order);
    } else if stack.contains(p) {
    } else {
        match lookup(nodes, p) {
            None => {
                lemma_loose_push(nodes, order, p);
                let o2 = order.push(p);
                assert(o2.take(order.len() as int) =~= order);
                assert(o2[order.len() as int] == p);
            },
            Some(n) => {
                lemma_lookup_key(nodes, p);
                lemma_count_push(keys_of(nodes), stack, p);
                lemma_dfs_list_loose(nodes, n.deps, 0, order, stack.push(p));
                match dfs_list(nodes, n.deps, 0, order, stack.push(p), false) {
                    Err(_) => {},
                    Ok(o1) => {
                        lemma_loose_push(nodes, o1, p);
                        let o2 = o1.push(p);
                        assert(o2.take(order.len() as int) =~= o1.take(order.len() as int));
                        assert(o2[o1.len() as int] == p);
                    },
                }
            },
        }
    }
}

proof fn lemma_dfs_list_loose(
    nodes: Seq<(Seq<char>, NodeView)>,
    ds: Seq<Seq<char>>,
    i: int,
    order: Seq<Seq<char>>,
    stack: Seq<Seq<char>>,
)
    requires
        sorted_loose(nodes, order),
        0 <= i,
    ensures
        match dfs_list(nodes, ds, i, order, stack, false) {
            Ok(o2) => sorted_loose(nodes, o2) && order.is_prefix_of(o2) && (forall|j: int|
                i <= j < ds.len() ==> o2.contains(#[trigger] ds[j])),
            Err(_) => true,
        },
    decreases count_out(keys_of(nodes), stack), ds.len() - i + 1,
{
    if i >= ds.len() {
        assert(order.take(order.len() as int) =~= order);
    } else {
        lemma_dfs_loose(nodes, ds[i], order, stack);
        match dfs(nodes, ds[i], order, stack, false) {
            Err(_) => {},
            Ok(o1) => {
                lemma_dfs_list_loose(nodes, ds, i + 1, o1, stack);
                match dfs_list(nodes, ds, i + 1, o1, stack, false) {
                    Err(_) => {},
                    Ok(o2) => {
                        lemma_prefix_contains(o1, o2, ds[i]);
                        assert(o2.take(order.len() as int) =~= o1.take(order.len() as int));
                        assert(order.is_prefix_of(o2));
                        assert forall|j: int| i <= j < ds.len() implies o2.contains(#[trigger] ds[j]) by {
                            if j == i {
                                assert(o2.contains(ds[i]));
                            }
                        }
                    },
                }
            },
        }
    }
}

proof fn lemma_check_from(nodes: Seq<(Seq<char>, NodeView)>, k: int, order: Seq<Seq<char>>)
    requires
        sorted_loose(nodes, order),
        0 <= k,
        forall|j: int| 0 <= j < k && j < nodes.len() ==> order.contains(#[trigger] nodes[j].0),
    ensures
        check_from(nodes, k, order) is Ok ==> exists|o: Seq<Seq<char>>|
            sorted_loose(nodes, o) && forall|j: int| 0 <= j < nodes.len() ==> o.contains(
                #[trigger] nodes[j].0,
            ),
        match check_from(nodes, k, order) {
            Err(GraphErrorView::Cycle { target }) => on_cycle(nodes, target),
            _ => true,
        },
    decreases nodes.len() - k,
{
    if k >= nodes.len() {
        assert(sorted_loose(nodes, order));
    } else {
        lemma_dfs_loose(nodes, nodes[k].0, order, Seq::empty());
        lemma_dfs_cycle(nodes, nodes[k].0, order, Seq::empty(), false);
        match dfs(nodes, nodes[k].0, order, Seq::empty(), false) {
            Err(_) => {},
            Ok(o2) => {
                assert forall|j: int| 0 <= j < k + 1 && j < nodes.len() implies o2.contains(
                    #[trigger] nodes[j].0,
                ) by {
                    if j < k {
                        lemma_prefix_contains(order, o2, nodes[j].0);
                    }
                }
                lemma_check_from(nodes, k + 1, o2);
            },
        }
    }
}

/// The index of the first occurrence of `x` in `o`.
pub open spec fn first_idx(o: Seq<Seq<char>>, x: Seq<char>) -> int
    decreases o.len(),
{
    if o.len() == 0 || o[0] == x {
        0
    } else {
        1 + first_idx(o.drop_first(), x)
    }
}

proof fn lemma_first_index(o: Seq<Seq<char>>, x: Seq<char>)
    requires
        o.contains(x),
    ensures
        0 <= first_idx(o, x) < o.len(),
        o[first_idx(o, x)] == x,
        forall|r: int| 0 <= r < first_idx(o, x) ==> o[r] != x,
    decreases o.len(),
{
    if o[0] != x {
        let j = choose|j: int| 0 <= j < o.len() && o[j] == x;
        assert(o.drop_first()[j - 1] == x);
        lemma_first_index(o.drop_first(), x);
        assert forall|r: int| 0 <= r < first_idx(o, x) implies o[r] != x by {
            if r > 0 {
                assert(o[r] == o.drop_first()[r - 1]);
            }
        }
    }
}

proof fn lemma_chain_earlier(
    nodes: Seq<(Seq<char>, NodeView)>,
    o: Seq<Seq<char>>,
    c: Seq<Seq<char>>,
    q0: int,
    j: int,
)
    requires
        sorted_loose(nodes, o),
        is_chain(nodes, c),
        1 <= j < c.len(),
        0 <= q0 < o.len(),
        o[q0] == c[0],
    ensures
        exists|q: int| 0 <= q < q0 && o[q] == c[j],
    decreases j,
{
    if j == 1 {
        assert(step_ok(nodes, c, 0));
        assert(loose_at(nodes, o, q0));
        let n = lookup(nodes, c[0])->0;
        let d = choose|d: int| 0 <= d < n.deps.len() && n.deps[d] == c[1];
        assert(o.take(q0).contains(n.deps[d]));
        let q = choose|q: int| 0 <= q < o.take(q0).len() && o.take(q0)[q] == c[1];
        assert(o[q] == c[1]);
    } else {
        lemma_chain_earlier(nodes, o, c, q0, j - 1);
        let qp = choose|qp: int| 0 <= qp < q0 && o[qp] == c[j - 1];
        assert(step_ok(nodes, c, j - 1));
        assert(loose_at(nodes, o, qp));
        let n = lookup(nodes, c[j - 1])->0;
        let d = choose|d: int| 0 <= d < n.deps.len() && n.deps[d] == c[j];
        assert(o.take(qp).contains(n.deps[d]));
        let q = choose|q: int| 0 <= q < o.take(qp).len() && o.take(qp)[q] == c[j];
        assert(o[q] == c[j]);
    }
}

proof fn lemma_loose_acyclic(nodes: Seq<(Seq<char>, NodeView)>, o: Seq<Seq<char>>)
    requires
        sorted_loose(nodes, o),
        forall|j: int| 0 <= j < nodes.len() ==> o.contains(#[trigger] nodes[j].0),
    ensures
        acyclic(nodes),
{
    assert forall|t: Seq<char>| !#[trigger] on_cycle(nodes, t) by {
        if on_cycle(nodes, t) {
            let c = choose|c: Seq<Seq<char>>|
                c.len() >= 2 && c[0] == t && c.last() == t && is_chain(nodes, c);
            assert(step_ok(nodes, c, 0));
            lemma_lookup_key(nodes, t);
            let ki = choose|ki: int| 0 <= ki < keys_of(nodes).len() && keys_of(nodes)[ki] == t;
            assert(nodes[ki].0 == t);
            assert(o.contains(nodes[ki].0));
            lemma_first_index(o, t);
            let q0 = first_idx(o, t);
            lemma_chain_earlier(nodes, o, c, q0, c.len() - 1);
            let q = choose|q: int| 0 <= q < q0 && o[q] == c[c.len() - 1];
            assert(o[q] == t);
        }
    }
}

/// Cycle detection: building a graph succeeds only when its nodes have no
/// cycle, and a `Cycle` error names a node that depends on itself.
pub proof fn law_graph_cycles(m: ManifestView)
    ensures
        match graph_of(m) {
            Ok(g) => acyclic(g.nodes),
            Err(GraphErrorView::Cycle { target }) => match graph_nodes(m) {
                Ok(nodes) => on_cycle(nodes, target),
                Err(_) => false,
            },
            Err(_) => true,
        },
{
    match graph_nodes(m) {
        Err(e) => {
            assert(add_builds(m.variables, m.rules, m.builds, Seq::empty()) == Err::<
                Seq<(Seq<char>, NodeView)>,
                GraphErrorView,
            >(e));
            lemma_add_builds_error(m.variables, m.rules, m.builds, Seq::empty());
        },
        Ok(nodes) => {
            lemma_check_from(nodes, 0, Seq::empty());
            if check_from(nodes, 0, Seq::empty()) is Ok {
                let o = choose|o: Seq<Seq<char>>|
                    sorted_loose(nodes, o) && forall|j: int| 0 <= j < nodes.len() ==> o.contains(
                        #[trigger] nodes[j].0,
                    );
                lemma_loose_acyclic(nodes, o);
            }
        },
    }
}

proof fn lemma_add_outputs_error(tmpl: NodeView, outs: Seq<Seq<char>>, nodes: Seq<(Seq<char>, NodeView)>)
    ensures
        match add_outputs(tmpl, outs, nodes) {
            Err(e) => e is DuplicateOutput,
            Ok(_) => true,
        },
    decreases outs.len(),
{
    if outs.len() > 0 && !has_key(nodes, outs[0]) {
        lemma_add_outputs_error(tmpl, outs.drop_first(), nodes.push((outs[0], NodeView { path: outs[0], ..tmpl })));
    }
}

proof fn lemma_add_builds_error(
    globals: Seq<(Seq<char>, Seq<char>)>,
    rules: Seq<(Seq<char>, RuleView)>,
    builds: Seq<BuildView>,
    nodes: Seq<(Seq<char>, NodeView)>,
)
    ensures
        match add_builds(globals, rules, builds, nodes) {
            Err(e) => e is DuplicateOutput,
            Ok(_) => true,
        },
    decreases builds.len(),
{
    if builds.len() > 0 {
        let b = builds[0];
        let tmpl = node_template(globals, b, lookup(rules, b.rule));
        lemma_add_outputs_error(tmpl, b.outputs + b.implicit_outputs, nodes);
        match add_outputs(tmpl, b.outputs + b.implicit_outputs, nodes) {
            Err(_) => {},
            Ok(n2) => lemma_add_builds_error(globals, rules, builds.drop_first(), n2),
        }
    }
}

/// A `Cycle` error of `topo_order` names a node that depends on itself.
pub proof fn law_topo_cycle(nodes: Seq<(Seq<char>, NodeView)>, targets: Seq<Seq<char>>)
    ensures
        match topo_from(nodes, targets, 0, Seq::empty()) {
            Err(GraphErrorView::Cycle { target }) => on_cycle(nodes, target),
            _ => true,
        },
{
    lemma_topo_from_cycle(nodes, targets, 0, Seq::empty());
}

proof fn lemma_topo_from_cycle(
    nodes: Seq<(Seq<char>, NodeView)>,
    targets: Seq<Seq<char>>,
    k: int,
    order: Seq<Seq<char>>,
)
    ensures
        match topo_from(nodes, targets, k, order) {
            Err(GraphErrorView::Cycle { target }) => on_cycle(nodes, target),
            _ => true,
        },
    decreases targets.len() - k,
{
    if 0 <= k < targets.len() {
        lemma_dfs_cycle(nodes, targets[k], order, Seq::empty(), true);
        match dfs(nodes, targets[k], order, Seq::empty(), true) {
            Err(_) => {},
            Ok(o1) => lemma_topo_from_cycle(nodes, targets, k + 1, o1),
        }
    }
}

} // verus!
