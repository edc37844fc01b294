use rninja::error::GraphError;
use rninja::graph::node::Node;
use rninja::graph::Graph;
use rninja::parser::parse;

#[test]
fn test_simple_graph() {
    let content = r#"
rule cc
    command = gcc -c $in -o $out

build foo.o: cc foo.c
build bar.o: cc bar.c
build prog: phony foo.o bar.o
"#;
    let manifest = parse(content).unwrap();
    let graph = Graph::from_manifest(&manifest).unwrap();

    assert!(graph.get_node("foo.o").is_some());
    assert!(graph.get_node("bar.o").is_some());
    assert!(graph.get_node("prog").is_some());
    assert!(graph.get_node("foo.c").is_some());
}

#[test]
fn test_topo_order() {
    let content = r#"
rule cc
    command = gcc -c $in -o $out
rule link
    command = gcc $in -o $out

build foo.o: cc foo.c
build bar.o: cc bar.c
build prog: link foo.o bar.o
"#;
    let manifest = parse(content).unwrap();
    let graph = Graph::from_manifest(&manifest).unwrap();

    let order = graph.topo_order(&["prog"]).unwrap();
    let paths: Vec<&str> = order.iter().map(|n| n.path.as_str()).collect();

    let prog_idx = paths.iter().position(|&p| p == "prog").unwrap();
    let foo_idx = paths.iter().position(|&p| p == "foo.o").unwrap();
    let bar_idx = paths.iter().position(|&p| p == "bar.o").unwrap();

    assert!(foo_idx < prog_idx);
    assert!(bar_idx < prog_idx);
}

#[test]
fn test_cycle_detection() {
    let content = r#"
rule cc
    command = echo

build a: cc b
build b: cc c
build c: cc a
"#;
    let manifest = parse(content).unwrap();
    let result = Graph::from_manifest(&manifest);
    assert!(matches!(result, Err(GraphError::Cycle { .. })));
}

#[test]
fn graph_expands_commands() {
    let content = "cflags = -O2\nrule cc\n  command = gcc $cflags -c $in -o $out\n  description = CC $out\nbuild foo.o: cc foo.c bar.c\n";
    let graph = Graph::from_manifest(&parse(content).unwrap()).unwrap();
    let n = graph.get_node("foo.o").unwrap();
    assert_eq!(n.command.as_deref(), Some("gcc -O2 -c foo.c bar.c -o foo.o"));
    assert_eq!(n.display(), "CC foo.o");
    assert_eq!(n.deps, vec!["foo.c", "bar.c"]);
    let src = graph.get_node("foo.c").unwrap();
    assert!(src.is_source);
    assert_eq!(src.display(), "foo.c");
    assert_eq!(graph.nodes().len(), 3);
}

#[test]
fn graph_duplicate_output() {
    let content = "rule cc\n  command = x\nbuild a: cc b\nbuild a: cc c\n";
    match Graph::from_manifest(&parse(content).unwrap()) {
        Err(GraphError::DuplicateOutput { output }) => assert_eq!(output, "a"),
        other => panic!("unexpected {:?}", other.map(|_| ())),
    }
}

#[test]
fn graph_topo_unknown_target() {
    let graph = Graph::from_manifest(&parse("rule cc\n  command = x\nbuild a: cc b\n").unwrap()).unwrap();
    match graph.topo_order(&["zzz"]) {
        Err(GraphError::UnknownTarget { target }) => assert_eq!(target, "zzz"),
        other => panic!("unexpected {:?}", other.map(|_| ())),
    }
    let order: Vec<String> = graph.topo_order(&["a"]).unwrap().iter().map(|n| n.path.clone()).collect();
    assert_eq!(order, vec!["b", "a"]);
}

#[test]
fn graph_pool_depths() {
    let graph = Graph::from_manifest(&parse("pool p\n  depth = 3\n").unwrap()).unwrap();
    assert_eq!(graph.pool_depths().get("p"), Some(&3));
}

#[test]
fn node_needs_rebuild() {
    let mut n = Node::source("x".to_string());
    assert!(!n.needs_rebuild(None, &vec![]));
    n.is_source = false;
    assert!(n.needs_rebuild(None, &vec![]));
    assert!(!n.needs_rebuild(Some(10), &vec![Some(5), None]));
    assert!(n.needs_rebuild(Some(10), &vec![Some(5), Some(11)]));
    n.is_phony = true;
    assert!(n.needs_rebuild(Some(10), &vec![]));
}

#[test]
fn nodes_carry_the_command_hash() {
    let m = parse("rule cc\n  command = gcc -c $in -o $out\nbuild a.o: cc a.c\nbuild all: phony a.o\n").unwrap();
    let g = Graph::from_manifest(&m).unwrap();
    let a = g.get_node("a.o").unwrap();
    assert_eq!(a.command.as_deref(), Some("gcc -c a.c -o a.o"));
    assert_eq!(a.command_hash, rninja::buildlog::hash_command("gcc -c a.c -o a.o"));
    assert_ne!(a.command_hash, 0);
    assert_eq!(g.get_node("all").unwrap().command_hash, 0);
    assert_eq!(g.get_node("a.c").unwrap().command_hash, 0);
}

#[test]
fn graph_shape_outputs_then_sources() {
    let m = parse("rule cc\n  command = cc\nbuild a.o | a.d: cc a.c b.h\nbuild app: cc a.o z.c\n").unwrap();
    let g = Graph::from_manifest(&m).unwrap();
    let paths: Vec<String> = g.nodes().iter().map(|n| n.path.clone()).collect();
    assert_eq!(paths, vec!["a.o", "a.d", "app", "a.c", "b.h", "z.c"]);
    for n in g.nodes().iter() {
        for d in &n.deps {
            assert!(g.get_node(d).is_some());
        }
        if n.is_source {
            assert!(n.deps.is_empty() && n.command.is_none() && !n.is_phony);
        }
    }
}

#[test]
fn topo_order_holds_exactly_what_is_needed() {
    let m = parse("rule cc\n  command = cc\nbuild a.o: cc a.c h.h\nbuild b.o: cc b.c h.h\nbuild app: cc a.o b.o\nbuild other: cc z.c\n").unwrap();
    let g = Graph::from_manifest(&m).unwrap();
    let order: Vec<String> = g.topo_order(&["app", "a.o"]).unwrap().iter().map(|n| n.path.clone()).collect();
    assert_eq!(order, vec!["a.c", "h.h", "a.o", "b.c", "b.o", "app"]);
    assert!(!order.contains(&"other".to_string()) && !order.contains(&"z.c".to_string()));
}
