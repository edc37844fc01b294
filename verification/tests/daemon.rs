use rninja::buildlog::BuildLog;
use rninja::daemon::protocol::{get_default_socket_path, BuildRequest, DaemonResponse, ErrorCode, QueryRequest};
use rninja::daemon::query::{answer_query, check_version, plan_build, QueryAnswer};
use rninja::daemon::session::{BuildSession, SessionManager, SessionState};
use rninja::daemon::state::{DaemonConfig, DaemonState};
use rninja::graph::Graph;
use rninja::parser::parse;

fn test_request() -> BuildRequest {
    BuildRequest::new("test-session".to_string(), "/tmp".to_string())
}

#[test]
fn test_session_creation() {
    let session = BuildSession::new(test_request());
    assert!(session.is_running());
    assert_eq!(session.id(), "test-session");
}

#[test]
fn test_session_completion() {
    let mut session = BuildSession::new(test_request());
    session.complete(true);
    assert!(!session.is_running());
    assert_eq!(session.state, SessionState::Completed);
}

#[test]
fn test_session_manager() {
    let mut manager = SessionManager::new(2);

    let s1 = manager.create_session(BuildRequest::new("s1".to_string(), "/tmp".to_string()));
    assert!(s1.is_ok());

    let s2 = manager.create_session(BuildRequest::new("s2".to_string(), "/tmp".to_string()));
    assert!(s2.is_ok());

    // Third should fail
    let s3 = manager.create_session(BuildRequest::new("s3".to_string(), "/tmp".to_string()));
    assert!(s3.is_err());

    // Complete one session
    assert!(manager.complete_session(&s1.unwrap(), true));

    // Now we should be able to create another
    let s4 = manager.create_session(BuildRequest::new("s4".to_string(), "/tmp".to_string()));
    assert!(s4.is_ok());
}

#[test]
fn session_limit_message_and_cancel() {
    let mut manager = SessionManager::new(1);
    assert_eq!(manager.create_session(test_request()).unwrap(), "test-session");
    assert_eq!(manager.active_build_count(), 1);
    let err = manager.create_session(BuildRequest::new("x".to_string(), "/tmp".to_string()));
    assert_eq!(err.unwrap_err(), "Maximum concurrent builds (1) reached");
    assert!(manager.cancel_session("test-session"));
    assert!(!manager.cancel_session("nope"));
    assert_eq!(manager.get_session("test-session").unwrap().state, SessionState::Cancelled);
    assert_eq!(manager.get_session("test-session").unwrap().id, "test-session");
    assert_eq!(manager.get_session("test-session").unwrap().request.build_dir, "/tmp");
    assert_eq!(manager.active_build_count(), 0);
    manager.cleanup_old_sessions(3600);
    assert!(manager.get_session("test-session").is_some());
    manager.cleanup_old_sessions(0);
    assert!(manager.get_session("test-session").is_none());
    assert!(manager.remove_session("test-session").is_none());
    manager.create_session(BuildRequest::new("kept".to_string(), "/w".to_string())).unwrap();
    assert!(manager.complete_session("kept", false));
    let gone = manager.remove_session("kept").unwrap();
    assert_eq!((gone.id.as_str(), gone.state), ("kept", SessionState::Failed));
    assert_eq!(gone.request.build_dir, "/w");
    assert!(manager.get_session("kept").is_none());
}

#[test]
fn session_records_progress() {
    let mut s = BuildSession::new(test_request());
    s.target_started("a.o", 1, 2, Some("cc".to_string()));
    s.target_output("a.o", vec![], vec![]);
    s.target_output("a.o", b"hi".to_vec(), vec![]);
    s.target_finished("a.o", 1, 2, true, true, 5);
    s.target_finished("b.o", 2, 2, false, false, 7);
    s.build_finished(false);
    assert_eq!(s.state, SessionState::Failed);
    assert_eq!(s.stats.targets_built, 1);
    assert_eq!(s.stats.cache_hits, 1);
    assert_eq!(s.stats.targets_failed, 1);
    let r = s.take_responses();
    assert_eq!(r.len(), 5);
    assert!(matches!(&r[0], DaemonResponse::TargetStarted { index: 1, total: 2, .. }));
    assert!(matches!(&r[1], DaemonResponse::TargetOutput { .. }));
    assert!(matches!(&r[3], DaemonResponse::TargetFinished { success: false, duration_ms: 7, .. }));
    match &r[4] {
        DaemonResponse::BuildFinished { session_id, success, stats } => {
            assert_eq!(session_id, "test-session");
            assert!(!success);
            assert_eq!(stats.targets_built, 1);
        }
        _ => panic!("expected the final response"),
    }
    assert!(s.take_responses().is_empty());
}

#[test]
fn test_daemon_state_creation() {
    let state = DaemonState::new(DaemonConfig::default());
    assert_eq!(state.cached_manifest_count(), 0);
    assert!(state.uptime_secs() < 1);
}

#[test]
fn test_invalidate() {
    let mut state = DaemonState::new(DaemonConfig::default());
    let path = "/tmp/test";
    state.invalidate(path); // Should not panic
}

fn parsed(text: &str) -> (rninja::parser::manifest::Manifest, Graph) {
    let m = parse(text).unwrap();
    let g = Graph::from_manifest(&m).unwrap();
    (m, g)
}

#[test]
fn daemon_state_keeps_and_evicts() {
    let config = DaemonConfig { max_cached_manifests: 1, manifest_ttl_secs: 300, max_concurrent_builds: 4 };
    let mut state = DaemonState::new(config);
    let (m1, g1) = parsed("rule cc\n  command = cc\nbuild a: cc b\n");
    state.insert_parsed("/p1", "build.ninja", m1, g1, BuildLog::open("/p1", None), 7);
    assert_eq!(state.cached_manifest_count(), 1);
    assert!(state.refresh_if_current("/p1", 7));
    assert!(!state.refresh_if_current("/p1", 8));
    assert!(!state.refresh_if_current("/p2", 7));
    let watched = state.watched_paths();
    assert_eq!(watched, vec!["/p1/build.ninja".to_string()]);
    assert_eq!(state.find_build_dir_for_file("/p1/build.ninja"), Some("/p1".to_string()));
    assert_eq!(state.find_build_dir_for_file("/p1/other"), None);
    let (m2, g2) = parsed("rule cc\n  command = cc\n");
    state.insert_parsed("/p2", "build.ninja", m2, g2, BuildLog::open("/p2", None), 9);
    assert_eq!(state.cached_manifest_count(), 1);
    assert!(state.get("/p1").is_none());
    assert_eq!(state.get("/p2").unwrap().fingerprint, 9);
    state.invalidate_all();
    assert_eq!(state.cached_manifest_count(), 0);
}

fn text(a: QueryAnswer) -> String {
    match a {
        QueryAnswer::Response(DaemonResponse::QueryResult { data }) => data,
        other => panic!("unexpected answer {:?}", other),
    }
}

#[test]
fn daemon_queries() {
    let (m, g) = parsed(
        "rule cc\n  command = gcc -c $in\nrule link\n  command = ld\nbuild a.o: cc a.c\nbuild app: link a.o x.txt\ndefault app\n",
    );
    let dir = "/p".to_string();
    assert_eq!(text(answer_query(&m, &g, &QueryRequest::Targets { build_dir: dir.clone() })), "a.o\napp");
    assert_eq!(text(answer_query(&m, &g, &QueryRequest::Rules { build_dir: dir.clone() })), "cc\nlink");
    let cmds = answer_query(
        &m,
        &g,
        &QueryRequest::Commands { build_dir: dir.clone(), targets: vec!["app".to_string(), "zz".to_string()] },
    );
    assert_eq!(text(cmds), "ld");
    let deps = answer_query(&m, &g, &QueryRequest::Deps { build_dir: dir.clone(), target: "app".to_string() });
    assert_eq!(text(deps), "a.o\nx.txt");
    match answer_query(&m, &g, &QueryRequest::Deps { build_dir: dir.clone(), target: "nope".to_string() }) {
        QueryAnswer::Response(DaemonResponse::Error { code, message }) => {
            assert_eq!(code, ErrorCode::TargetNotFound);
            assert_eq!(message, "Target not found: nope");
        }
        _ => panic!("expected an error"),
    }
    let inputs = answer_query(&m, &g, &QueryRequest::Inputs { build_dir: dir.clone(), target: "app".to_string() });
    assert_eq!(text(inputs), "a.c\nx.txt");
    match answer_query(&m, &g, &QueryRequest::CompDb { build_dir: dir.clone() }) {
        QueryAnswer::CompDb(v) => assert_eq!(v, vec![("gcc -c $in".to_string(), "a.c".to_string())]),
        _ => panic!("expected entries"),
    }
}

#[test]
fn daemon_version_and_build_plan() {
    assert!(check_version(1).is_none());
    match check_version(3) {
        Some(DaemonResponse::Error { code, message }) => {
            assert_eq!(code, ErrorCode::VersionMismatch);
            assert_eq!(message, "Protocol version mismatch: client v3, server v1");
        }
        _ => panic!("expected an error"),
    }
    let (m, g) = parsed("rule cc\n  command = cc\nbuild a.o: cc a.c\ndefault a.o\n");
    assert_eq!(plan_build(&m, &g, &test_request()).unwrap(), 2);
    let (m2, g2) = parsed("rule cc\n  command = cc\nbuild a.o: cc a.c\n");
    match plan_build(&m2, &g2, &test_request()) {
        Err(DaemonResponse::Error { code, message }) => {
            assert_eq!(code, ErrorCode::TargetNotFound);
            assert_eq!(message, "No targets specified and no default target");
        }
        _ => panic!("expected an error"),
    }
}

#[test]
fn default_socket_path_prefers_runtime_dir() {
    assert_eq!(get_default_socket_path(Some("/run/user/1000"), 1000), "/run/user/1000/rninja/daemon.sock");
    assert_eq!(get_default_socket_path(None, 1000), "/tmp/rninja-1000/daemon.sock");
    assert_eq!(get_default_socket_path(None, 0), "/tmp/rninja-0/daemon.sock");
}

#[test]
fn daemon_state_read_after_write() {
    let mut state = DaemonState::new(DaemonConfig::default());
    let (m1, g1) = parsed("rule cc\n  command = cc\nbuild a: cc b\n");
    state.insert_parsed("/p1", "build.ninja", m1, g1, BuildLog::open("/p1", None), 3);
    assert_eq!(state.get("/p1").unwrap().fingerprint, 3);
    let (m2, g2) = parsed("rule cc\n  command = cc\n");
    state.insert_parsed("/p1", "build.ninja", m2, g2, BuildLog::open("/p1", None), 4);
    assert_eq!(state.cached_manifest_count(), 1);
    assert_eq!(state.get("/p1").unwrap().fingerprint, 4);
    state.invalidate("/p1");
    assert!(state.get("/p1").is_none());
    assert_eq!(state.cached_manifest_count(), 0);
}

#[test]
fn sessions_stay_within_limit() {
    let mut manager = SessionManager::new(2);
    for i in 0..5 {
        let _ = manager.create_session(BuildRequest::new(format!("s{}", i), "/tmp".to_string()));
        assert!(manager.active_build_count() <= 2);
    }
    assert_eq!(manager.active_build_count(), 2);
    // Starting a session again under the same id replaces it.
    assert!(manager.complete_session("s0", false));
    assert!(manager.create_session(BuildRequest::new("s0".to_string(), "/tmp".to_string())).is_ok());
    assert_eq!(manager.active_build_count(), 2);
}

#[test]
fn cleanup_with_no_age_keeps_only_running_sessions() {
    let mut manager = SessionManager::new(3);
    for id in ["a", "b", "c"] {
        manager.create_session(BuildRequest::new(id.to_string(), "/tmp".to_string())).unwrap();
    }
    assert!(manager.complete_session("a", true));
    assert!(manager.cancel_session("c"));
    manager.cleanup_old_sessions(0);
    assert!(manager.get_session("a").is_none());
    assert!(manager.get_session("c").is_none());
    assert_eq!(manager.get_session("b").unwrap().state, SessionState::Running);
}

#[test]
fn finished_sessions_older_than_the_limit_are_dropped() {
    let mut manager = SessionManager::new(3);
    for id in ["a", "b", "c"] {
        manager.create_session(BuildRequest::new(id.to_string(), "/tmp".to_string())).unwrap();
    }
    assert!(manager.complete_session("a", true));
    assert!(manager.complete_session("b", false));
    assert_eq!(manager.session_count(), 3);
    assert_eq!(manager.session_ages_ms().len(), 3);
    manager.drop_finished_sessions(1, &vec![5000, 999, 99_999]);
    assert!(manager.get_session("a").is_none());
    assert!(manager.get_session("b").is_some());
    assert!(manager.get_session("c").is_some());
    manager.drop_finished_sessions(1, &vec![1000, 0]);
    assert!(manager.get_session("b").is_none());
    assert!(manager.get_session("c").is_some());
    assert_eq!(manager.session_count(), 1);
}
