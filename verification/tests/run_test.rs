use ifttt_lint::run::{start, step, RunAction, RunEvent, RunState};
use ifttt_lint::udiff::{parse, Normalize};
use ifttt_lint::vcs::ChangeMap;

fn diff_with_deletion() -> ChangeMap {
    let diff = "\
--- kept.rs
+++ kept.rs
@@ -1,1 +1,2 @@
 fn a() {}
+fn b() {}
--- gone.rs
+++ /dev/null
@@ -1,1 +0,0 @@
-fn c() {}
";
    parse(diff, Normalize::Keep).unwrap()
}

#[test]
fn files_without_range_check_without_reading_diff() {
    let s = start(false, true, false);
    let (s, a) = step(s, RunEvent::Begin);
    match a {
        RunAction::Check(c) => assert!(c.is_empty()),
        _ => panic!("expected a check"),
    }
    assert!(matches!(s, RunState::AwaitOutput));
}

#[test]
fn files_that_list_nothing_end_the_run() {
    let s = start(false, true, true);
    let (s, a) = step(s, RunEvent::Begin);
    assert!(matches!(a, RunAction::Exit(0)));
    assert!(matches!(s, RunState::Done));
}

#[test]
fn range_reads_diff_then_suppressions() {
    let s = start(true, true, false);
    let (s, a) = step(s, RunEvent::Begin);
    assert!(matches!(a, RunAction::ReadDiff));
    let (s, a) = step(s, RunEvent::Diff(Ok(diff_with_deletion())));
    assert!(matches!(a, RunAction::ReadSuppressions));
    let (_, a) = step(s, RunEvent::Suppressions(Ok(None)));
    match a {
        RunAction::Check(c) => assert_eq!(c.len(), 2),
        _ => panic!("expected a check"),
    }
}

#[test]
fn suppression_keeps_only_deleted_files() {
    let s = start(false, false, true);
    let (s, _) = step(s, RunEvent::Begin);
    let (s, _) = step(s, RunEvent::Diff(Ok(diff_with_deletion())));
    let (_, a) = step(s, RunEvent::Suppressions(Ok(Some("follow-up".to_string()))));
    match a {
        RunAction::Check(c) => {
            assert_eq!(c.len(), 1);
            assert!(c.get("gone.rs").unwrap().deleted);
            assert!(c.get("kept.rs").is_none());
        }
        _ => panic!("expected a check"),
    }
}

#[test]
fn empty_diff_with_nothing_listed_exits_cleanly() {
    let s = start(false, false, true);
    let (s, _) = step(s, RunEvent::Begin);
    let (s, _) = step(s, RunEvent::Diff(Ok(ChangeMap::new())));
    let (s, a) = step(s, RunEvent::Suppressions(Ok(None)));
    assert!(matches!(a, RunAction::Exit(0)));
    assert!(matches!(s, RunState::Done));
}

#[test]
fn backend_failure_is_fatal() {
    let s = start(true, false, true);
    let (s, _) = step(s, RunEvent::Begin);
    let (s, a) = step(s, RunEvent::Diff(Err("bad range".to_string())));
    match a {
        RunAction::Fail(m) => assert_eq!(m, "error: bad range"),
        _ => panic!("expected a failure"),
    }
    assert!(matches!(s, RunState::Done));

    let s = start(true, false, true);
    let (s, _) = step(s, RunEvent::Begin);
    let (s, _) = step(s, RunEvent::Diff(Ok(ChangeMap::new())));
    let (_, a) = step(s, RunEvent::Suppressions(Err("no log".to_string())));
    match a {
        RunAction::Fail(m) => assert_eq!(m, "error: no log"),
        _ => panic!("expected a failure"),
    }
}

#[test]
fn exit_status_follows_output() {
    let (_, a) = step(RunState::AwaitOutput, RunEvent::Output(String::new()));
    assert!(matches!(a, RunAction::Exit(0)));
    let (_, a) = step(RunState::AwaitOutput, RunEvent::Output("a.rs:1: warning: x\n".to_string()));
    assert!(matches!(a, RunAction::Exit(1)));
}

#[test]
fn unexpected_event_is_fatal() {
    let (s, a) = step(RunState::Done, RunEvent::Begin);
    assert!(matches!(a, RunAction::Exit(2)));
    assert!(matches!(s, RunState::Done));
}
