use swarmdeck::api::RunRobotStatus;
use swarmdeck::runs::{RunGroup, RunStore};

fn group(id: &str, created: u64) -> RunGroup {
    RunGroup::new(id.into(), "act".into(), created, None, 0)
}

#[test]
fn get_reads_back_an_insert() {
    let mut store = RunStore::new();
    assert!(store.get("r").is_none());
    store.insert(group("r", 5));
    let v = store.get("r").unwrap();
    assert_eq!(v.run_id, "r");
    assert_eq!(v.created_ms, 5);
    assert!(v.robots.is_empty());
    assert!(v.workflow.is_none());
}

#[test]
fn recent_is_newest_first_and_bounded() {
    let mut store = RunStore::new();
    store.insert(group("a", 10));
    store.insert(group("b", 30));
    store.insert(group("c", 20));
    store.insert(group("d", 30));
    let ids: Vec<String> = store.recent(10).into_iter().map(|v| v.run_id).collect();
    assert_eq!(ids, vec!["b", "d", "c", "a"]);
    let ids: Vec<String> = store.recent(2).into_iter().map(|v| v.run_id).collect();
    assert_eq!(ids, vec!["b", "d"]);
    assert!(store.recent(0).is_empty());
    store.clear();
    assert!(store.recent(5).is_empty());
}

#[test]
fn robot_updates_show_in_the_view() {
    let mut store = RunStore::new();
    store.insert(group("r", 1));
    assert!(store.update_robot("nope", "x", RunRobotStatus::Queued).is_none());
    let v = store.update_robot("r", "b", RunRobotStatus::Queued).unwrap();
    assert_eq!(v.robots.len(), 1);
    store.update_robot("r", "a", RunRobotStatus::Running { action_id: "r:a".into(), started_ms: 2 });
    assert!(!store.run_finished("r"));
    store.update_robot("r", "a", RunRobotStatus::Failed { error: "x".into() });
    store.update_robot("r", "b", RunRobotStatus::Done { exit_code: 0, killed: false, finished_ms: 3 });
    let v = store.get("r").unwrap();
    let ids: Vec<&str> = v.robots.iter().map(|(k, _)| k.as_str()).collect();
    assert_eq!(ids, vec!["a", "b"]);
    assert!(store.run_finished("r"));
    assert!(store.run_failed("r"));
    assert!(!store.run_finished("nope"));
}

#[test]
fn empty_runs_are_finished_at_once() {
    let mut store = RunStore::new();
    store.insert(group("r", 1));
    assert!(store.run_finished("r"));
    assert!(!store.run_failed("r"));
}

#[test]
fn workflow_progress_is_tracked() {
    let mut store = RunStore::new();
    store.insert(RunGroup::new("w".into(), "demo".into(), 1, Some("demo".into()), 3));
    let v = store.get("w").unwrap();
    let wf = v.workflow.unwrap();
    assert_eq!(wf.workflow_name, "demo");
    assert_eq!(wf.current_step, 0);
    assert_eq!(wf.total_steps, 3);
    assert_eq!(wf.step_run_id, "");
    let v = store.update_workflow_step("w", 1, "tb.bringup", "s1").unwrap();
    let wf = v.workflow.unwrap();
    assert_eq!(wf.current_step, 1);
    assert_eq!(wf.step_action, "tb.bringup");
    assert_eq!(wf.step_run_id, "s1");
    assert!(store.update_workflow_step("missing", 1, "x", "y").is_none());
}

#[test]
fn terminal_statuses() {
    assert!(!RunRobotStatus::Queued.is_terminal());
    assert!(!RunRobotStatus::Running { action_id: "a".into(), started_ms: 0 }.is_terminal());
    assert!(RunRobotStatus::Done { exit_code: 0, killed: false, finished_ms: 0 }.is_terminal());
    assert!(RunRobotStatus::Failed { error: String::new() }.is_terminal());
}
