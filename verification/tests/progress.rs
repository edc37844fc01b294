use rninja::config::Config;
use rninja::output::{duration_form, DurationForm, HumanLine, JsonEvent, OutputMode, ProgressReporter, Report};

#[test]
fn progress_counts_and_shows_targets() {
    let mut rep = ProgressReporter::new(3, false, false);
    assert!(matches!(rep.start(), Report::Nothing));
    let h = rep.handle();
    match h.building("a.o", Some("cc a.c")) {
        Report::Human(HumanLine::Building { current, total, target }) => {
            assert_eq!((current, total, target), (1, 3, "a.o"));
        },
        other => panic!("unexpected {:?}", other),
    }
    assert!(matches!(h.cache_hit("b.o"), Report::Human(HumanLine::CacheHit { current: 1, total: 3, .. })));
    assert!(matches!(h.finished("a.o", true, None), Report::Nothing));
    assert!(matches!(h.finished("a.o", false, Some("boom")), Report::Human(HumanLine::Failed { message: "boom", .. })));
    assert_eq!(rep.progress.current(), 1);
    assert!(matches!(rep.finish(true, 1500), Report::Human(HumanLine::Built { count: 1, duration_ms: 1500 })));
    assert!(matches!(rep.finish(false, 1500), Report::Human(HumanLine::BuildFailed)));
}

#[test]
fn progress_no_work_and_json() {
    let rep = ProgressReporter::with_mode(2, true, OutputMode::Json, 4, true);
    assert!(matches!(rep.finish(true, 0), Report::Json(JsonEvent::NoWorkToDo)));
    assert!(matches!(rep.start(), Report::Json(JsonEvent::BuildStarted { total_targets: 2, parallelism: 4 })));
    let mut rep = rep;
    match rep.handle().building("x", Some("cmd")) {
        Report::Json(JsonEvent::TargetStarted { target, index, total, command }) => {
            assert_eq!((target, index, total, command), ("x", 1, 2, Some("cmd")));
        },
        other => panic!("unexpected {:?}", other),
    }
    match rep.finish_with_cache(true, 10, Some(1), Some(0)) {
        Report::Json(JsonEvent::BuildFinished { success, targets_built, targets_total, cache_hits, .. }) => {
            assert!(success);
            assert_eq!((targets_built, targets_total, cache_hits), (1, 2, Some(1)));
        },
        other => panic!("unexpected {:?}", other),
    }
}

#[test]
fn progress_disabled_shows_nothing() {
    let mut rep = ProgressReporter::new(1, false, true);
    rep.disable();
    assert!(matches!(rep.handle().building("a", None), Report::Nothing));
    assert_eq!(rep.progress.current(), 0);
    rep.handle().increment();
    assert_eq!(rep.progress.current(), 1);
    assert!(matches!(rep.start(), Report::Human(HumanLine::Blank)));
}

#[test]
fn sample_config_has_sections() {
    let s = Config::sample_config();
    assert!(s.starts_with("# rninja configuration file"));
    assert!(s.contains("[build]") && s.contains("[cache]") && s.contains("[output]"));
}

#[test]
fn duration_forms() {
    assert_eq!(duration_form(500), DurationForm::Millis(500));
    assert_eq!(duration_form(1500), DurationForm::Seconds(1500));
    assert_eq!(duration_form(65000), DurationForm::MinutesSeconds(1, 5));
    assert_eq!(duration_form(59_999), DurationForm::Seconds(59_999));
}
