use rninja::error::ExecError;
use rninja::executor::schedule::{nodes_to_build, should_stop, BuildState, NodeState};
use rninja::executor::{command_result, command_to_run, status_line};
use rninja::graph::Graph;
use rninja::parser::parse;

#[test]
fn node_state_transitions() {
    assert_eq!(NodeState::Pending.transition(NodeState::Ready).unwrap(), NodeState::Ready);
    assert_eq!(NodeState::Ready.transition(NodeState::Running).unwrap(), NodeState::Running);
    assert_eq!(NodeState::Running.transition(NodeState::Failed).unwrap(), NodeState::Failed);
    assert_eq!(NodeState::Completed.transition(NodeState::Completed).unwrap(), NodeState::Completed);
    let e = NodeState::Completed.transition(NodeState::Running).unwrap_err();
    assert_eq!((e.from, e.to), (NodeState::Completed, NodeState::Running));
    assert_eq!(NodeState::Pending.transition(NodeState::Failed).unwrap(), NodeState::Failed);
    assert_eq!(NodeState::Ready.transition(NodeState::Failed).unwrap(), NodeState::Failed);
    assert!(NodeState::Completed.transition(NodeState::Failed).is_err());
    assert!(NodeState::Cancelled.transition(NodeState::Ready).is_err());
}

#[test]
fn build_state_counts_failures_once() {
    let mut s = BuildState::new(3);
    s.mark_running("a");
    s.mark_failed("a");
    s.mark_failed("a");
    assert_eq!(s.fail_count(), 1);
    assert_eq!(s.state("a"), NodeState::Failed);
    s.mark_ready("b");
    s.mark_running("b");
    s.mark_completed("b");
    s.mark_cancelled("b");
    assert_eq!(s.state("b"), NodeState::Completed);
    assert_eq!(s.next_progress(), 1);
    assert_eq!(s.next_progress(), 2);
    s.record_cache_hit();
    s.record_cache_miss();
    s.record_cache_miss();
    let stats = s.final_stats(std::time::Duration::from_millis(5));
    assert_eq!(stats.started, 2);
    assert_eq!(stats.finished, 1);
    assert_eq!(stats.failed, 1);
    assert_eq!(stats.skipped, 1);
    assert_eq!((stats.cache_hits, stats.cache_misses), (1, 2));
    assert!(matches!(s.outcome(std::time::Duration::from_millis(5)), Err(ExecError::BuildFailed(1))));
}

#[test]
fn build_rounds_follow_dependencies() {
    let m = parse("rule cc\n  command = cc $in -o $out\nbuild a.o: cc a.c\nbuild b.o: cc b.c\nbuild app: cc a.o b.o\n").unwrap();
    let g = Graph::from_manifest(&m).unwrap();
    let order = g.topo_order(&["app"]).unwrap();
    let rebuild: Vec<bool> = order.iter().map(|n| !n.is_source).collect();
    let work = nodes_to_build(&order, &rebuild);
    assert_eq!(work, vec!["a.o".to_string(), "b.o".to_string(), "app".to_string()]);

    let mut state = BuildState::new(work.len());
    let pending: Vec<_> = order.iter().copied().filter(|n| work.contains(&n.path)).collect();
    let (ready, waiting) = state.sort_pending(pending, &g);
    let ready_names: Vec<&str> = ready.iter().map(|n| n.path.as_str()).collect();
    assert_eq!(ready_names, vec!["a.o", "b.o"]);
    assert_eq!(waiting.len(), 1);
    for n in &ready {
        state.mark_ready(&n.path);
        state.mark_running(&n.path);
    }
    state.mark_completed("a.o");
    state.mark_failed("b.o");
    let (ready2, waiting2) = state.sort_pending(waiting, &g);
    assert!(ready2.is_empty() && waiting2.is_empty());
    assert_eq!(state.state("app"), NodeState::Failed);
    assert_eq!(state.fail_count(), 2);
    assert!(should_stop(state.fail_count(), 1));
    assert!(!should_stop(state.fail_count(), 0));
    assert!(should_stop(state.fail_count(), 2));
}

#[test]
fn failure_spreads_up_a_chain_without_limit() {
    let m = parse("rule cc\n  command = cc $in -o $out\nbuild c: cc c.src\nbuild b: cc c\nbuild a: cc b\n").unwrap();
    let g = Graph::from_manifest(&m).unwrap();
    let order = g.topo_order(&["a"]).unwrap();
    let rebuild: Vec<bool> = order.iter().map(|n| !n.is_source).collect();
    let work = nodes_to_build(&order, &rebuild);
    assert_eq!(work, vec!["c".to_string(), "b".to_string(), "a".to_string()]);
    let mut state = BuildState::new(work.len());
    let mut pending: Vec<_> = order.iter().copied().filter(|n| work.contains(&n.path)).collect();
    let mut rounds = 0;
    while !pending.is_empty() {
        assert!(!should_stop(state.fail_count(), 0));
        let (ready, waiting) = state.sort_pending(pending, &g);
        for n in &ready {
            state.mark_ready(&n.path);
            state.mark_running(&n.path);
            state.mark_failed(&n.path);
        }
        pending = waiting;
        rounds += 1;
        assert!(rounds <= 3);
    }
    assert_eq!(state.state("c"), NodeState::Failed);
    assert_eq!(state.state("b"), NodeState::Failed);
    assert_eq!(state.state("a"), NodeState::Failed);
    assert_eq!(state.fail_count(), 3);
}

#[test]
fn dirty_marks_spread_from_last_to_first() {
    let m = parse("rule cc\n  command = cc $in -o $out\nbuild a.o: cc a.c\nbuild app: cc a.o\n").unwrap();
    let g = Graph::from_manifest(&m).unwrap();
    let order = g.topo_order(&["app"]).unwrap();
    let names: Vec<&str> = order.iter().map(|n| n.path.as_str()).collect();
    assert_eq!(names, vec!["a.c", "a.o", "app"]);
    // Only the object is stale: the walk from the end reaches `app` first,
    // before `a.o` is marked, so `app` is not marked.
    let work = nodes_to_build(&order, &vec![false, true, false]);
    assert_eq!(work, vec!["a.o".to_string()]);
    let none = nodes_to_build(&order, &vec![true, false, false]);
    assert!(none.is_empty());
}

#[test]
fn node_commands_and_status_lines() {
    assert_eq!(command_to_run(true, Some("x")), None);
    assert_eq!(command_to_run(false, Some("x")), Some("x"));
    assert_eq!(command_to_run(false, None), None);
    assert_eq!(status_line(3, 10, Some("CC a.o"), "gcc -c a.c", false), "[3/10] CC a.o");
    assert_eq!(status_line(3, 10, Some("CC a.o"), "gcc -c a.c", true), "[3/10] gcc -c a.c");
    assert_eq!(status_line(1, 1, None, "gcc", false), "[1/1] gcc");
    assert!(matches!(command_result("gcc", Some(0)), Ok(true)));
    match command_result("gcc", Some(2)) {
        Err(ExecError::CommandFailed { command, code }) => {
            assert_eq!(command, "gcc");
            assert_eq!(code, 2);
        }
        _ => panic!("expected a failure"),
    }
    match command_result("gcc", None) {
        Err(ExecError::CommandFailed { code, .. }) => assert_eq!(code, -1),
        _ => panic!("expected a failure"),
    }
}

#[test]
fn rebuild_explanations() {
    let deps = vec!["a.c".to_string(), "a.h".to_string()];
    assert_eq!(
        rninja::executor::explain_rebuild("a.o", false, None, &deps, &vec![]),
        Some("ninja explain: a.o is missing".to_string())
    );
    assert_eq!(
        rninja::executor::explain_rebuild("a.o", true, Some(10), &deps, &vec![Some(5), Some(11)]),
        Some("ninja explain: a.h is newer than a.o".to_string())
    );
    assert_eq!(rninja::executor::explain_rebuild("a.o", true, Some(10), &deps, &vec![None, Some(10)]), None);
    assert_eq!(rninja::executor::explain_rebuild("a.o", true, None, &deps, &vec![Some(50), Some(50)]), None);
}

#[test]
fn relevant_env_vars_in_key_order() {
    let mut env = rninja::strmap::StrMap::new();
    env.insert("PATH".to_string(), "/bin".to_string());
    env.insert("HOME".to_string(), "/root".to_string());
    env.insert("CC".to_string(), "gcc".to_string());
    let r = rninja::executor::relevant_env_vars(&env);
    assert_eq!(r, vec![("CC".to_string(), "gcc".to_string()), ("PATH".to_string(), "/bin".to_string())]);
}

#[test]
fn up_to_date_dependency_lets_its_dependent_start() {
    let m = parse("rule cc\n  command = cc $in -o $out\nbuild a.o: cc a.c\nbuild app: cc a.o\n").unwrap();
    let g = Graph::from_manifest(&m).unwrap();
    let order = g.topo_order(&["app"]).unwrap();
    let rebuild: Vec<bool> = order.iter().map(|n| n.path == "app").collect();
    let work = nodes_to_build(&order, &rebuild);
    assert_eq!(work, vec!["app".to_string()]);
    let mut state = BuildState::new(work.len());
    let pending: Vec<_> = order.iter().copied().filter(|n| work.contains(&n.path)).collect();
    let (ready, waiting) = state.sort_pending(pending, &g);
    assert!(ready.is_empty());
    state.mark_running("a.o");
    state.mark_completed("a.o");
    let (ready2, waiting2) = state.sort_pending(waiting, &g);
    assert_eq!(ready2.len(), 1);
    assert!(waiting2.is_empty());
    assert_eq!(state.state("a.o"), NodeState::Completed);
}

#[test]
fn dependents_wait_until_their_inputs_complete() {
    let m = parse("rule cc\n  command = cc $in -o $out\nbuild a: cc a.c\nbuild b: cc a\n").unwrap();
    let g = Graph::from_manifest(&m).unwrap();
    let order = g.topo_order(&["b"]).unwrap();
    let b: Vec<_> = order.iter().copied().filter(|n| n.path == "b").collect();
    let mut state = BuildState::new(2);
    state.mark_ready("a");
    let (ready, waiting) = state.sort_pending(b, &g);
    assert!(ready.is_empty());
    state.mark_running("a");
    let (ready, waiting) = state.sort_pending(waiting, &g);
    assert!(ready.is_empty());
    assert_eq!(waiting.len(), 1);
    state.mark_completed("a");
    let (ready, waiting) = state.sort_pending(waiting, &g);
    assert_eq!(ready.len(), 1);
    assert_eq!(ready[0].path, "b");
    assert!(waiting.is_empty());
}
