use swarmdeck::agent::{Command, Report};
use swarmdeck::api::{ApiTargets, RunRequest, RunRobotStatus, StopRequest};
use swarmdeck::config::{
    ActionConfig, ControllerConfig, RobotConfig, RobotTypeConfig, SwarmConfig, WorkflowConfig,
    WorkflowOnFailure, WorkflowStep,
};
use swarmdeck::dispatcher::{Dispatcher, WorkflowNext};
use swarmdeck::error::ConfigError;
use swarmdeck::registry::{Notice, Registry};
use swarmdeck::strmap::StrMap;
use tokio::sync::mpsc::{unbounded_channel, UnboundedReceiver};

fn action(command: &str, dangerous: bool, background: bool) -> ActionConfig {
    ActionConfig {
        command: command.into(),
        timeout_sec: Some(30),
        env: StrMap::new(),
        cwd: None,
        dangerous,
        concurrency: 1,
        background,
    }
}

fn robot(id: &str) -> RobotConfig {
    RobotConfig {
        id: id.into(),
        name: None,
        kind: "sim".into(),
        address: None,
        simulated: true,
        vars: StrMap::new(),
        env: StrMap::new(),
        adopted: false,
    }
}

fn swarm() -> SwarmConfig {
    let mut acts = StrMap::new();
    acts.insert("echo".to_string(), action("echo {{robot_id}}", false, false));
    acts.insert("up".to_string(), action("bringup", false, true));
    acts.insert("bad".to_string(), action("{{vars.missing}}", false, false));
    let mut robot_types = StrMap::new();
    robot_types.insert("sim".to_string(), RobotTypeConfig { display_name: None, actions: acts });
    let mut actions = StrMap::new();
    actions.insert("wipe".to_string(), action("rm -rf /tmp/x", true, false));
    let mut workflows = StrMap::new();
    workflows.insert(
        "demo".to_string(),
        WorkflowConfig {
            description: None,
            steps: vec![
                WorkflowStep { action: "sim.echo".into(), targets: ApiTargets::All, continue_on_error: false },
                WorkflowStep { action: "sim.up".into(), targets: ApiTargets::All, continue_on_error: true },
            ],
            on_failure: WorkflowOnFailure::Abort,
        },
    );
    workflows.insert(
        "chain".to_string(),
        WorkflowConfig {
            description: None,
            steps: vec![
                WorkflowStep { action: "sim.echo".into(), targets: ApiTargets::All, continue_on_error: true },
                WorkflowStep { action: "sim.echo".into(), targets: ApiTargets::All, continue_on_error: false },
            ],
            on_failure: WorkflowOnFailure::Abort,
        },
    );
    SwarmConfig {
        controller: ControllerConfig {
            name: "lab".into(),
            id_code: "s".into(),
            grpc_listen: "0.0.0.0:50051".into(),
            ui_bind: "0.0.0.0:8080".into(),
            tls: None,
        },
        robot_types,
        actions,
        vars: StrMap::new(),
        workflows,
        robots: vec![robot("sim-01"), robot("sim-02")],
    }
}

/// A dispatcher with both robots online; their command channels.
fn online() -> (Dispatcher, UnboundedReceiver<Command>, UnboundedReceiver<Command>) {
    let mut reg = Registry::new(swarm());
    let (tx1, rx1) = unbounded_channel();
    let (tx2, rx2) = unbounded_channel();
    reg.set_cmd_tx("sim-01", tx1);
    reg.set_cmd_tx("sim-02", tx2);
    let now = swarmdeck::registry::now_ms();
    for id in ["sim-01", "sim-02"] {
        reg.apply_report(
            id,
            &Report::Register {
                robot_id: id.into(),
                id_code: "s".into(),
                agent_version: "1".into(),
                hostname: String::new(),
                name: String::new(),
            },
            now,
        );
    }
    (Dispatcher::new(reg), rx1, rx2)
}

fn req(action: &str, targets: ApiTargets) -> RunRequest {
    RunRequest { action: action.into(), targets, timeout_sec: None, confirm: false, background: false }
}

#[test]
fn offline_robots_are_reported_offline() {
    let mut d = Dispatcher::new(Registry::new(swarm()));
    let (r, notices) = d.run_with(req("sim.echo", ApiTargets::All), "run1".into(), 100);
    let resp = r.unwrap();
    assert_eq!(resp.run_id, "run1");
    assert!(resp.targeted.is_empty());
    assert_eq!(resp.offline, vec!["sim-01", "sim-02"]);
    assert!(matches!(notices.last(), Some(Notice::Runs { .. })));
    assert!(d.registry.run_store.get("run1").unwrap().robots.is_empty());
}

#[test]
fn online_robots_get_the_rendered_command() {
    let (mut d, mut rx1, _rx2) = online();
    let now = swarmdeck::registry::now_ms();
    let (r, _) = d.run_with(req("sim.echo", ApiTargets::All), "run1".into(), now);
    let resp = r.unwrap();
    assert_eq!(resp.targeted, vec!["sim-01", "sim-02"]);
    match rx1.try_recv().unwrap() {
        Command::Run(run) => {
            assert_eq!(run.action_id, "run1:sim-01");
            assert_eq!(run.action_name, "sim.echo");
            assert_eq!(run.command, "echo sim-01");
            assert_eq!(run.timeout_sec, 30);
            assert!(run.kill_on_disconnect);
        }
        other => panic!("unexpected {other:?}"),
    }
    let active = d.registry.view_at("sim-01", now).active.unwrap();
    assert_eq!(active.command, "echo sim-01");
    assert_eq!(active.started_ms, now);
    let group = d.registry.run_store.get("run1").unwrap();
    assert!(matches!(&group.robots[0].1, RunRobotStatus::Running { action_id, .. } if action_id == "run1:sim-01"));
    // Both robots are now busy for foreground work.
    let (r, _) = d.run_with(req("sim.echo", ApiTargets::All), "run2".into(), now);
    assert_eq!(r.unwrap().busy, vec!["sim-01", "sim-02"]);
    // Background work still goes through.
    let (r, _) = d.run_with(req("sim.up", ApiTargets::All), "run3".into(), now);
    assert_eq!(r.unwrap().targeted.len(), 2);
}

#[test]
fn dangerous_batches_need_confirmation() {
    let (mut d, _rx1, _rx2) = online();
    let (r, notices) = d.run(req("wipe", ApiTargets::All));
    match r {
        Err(ConfigError::ConfirmRequired { action, count }) => {
            assert_eq!(action, "wipe");
            assert_eq!(count, 2);
        }
        other => panic!("unexpected {other:?}"),
    }
    assert!(notices.is_empty());
    let single = d.run(req("wipe", ApiTargets::Robots(vec!["sim-01".into()]))).0.unwrap();
    assert_eq!(single.targeted, vec!["sim-01"]);
    assert_eq!(single.run_id.len(), 32);
    assert!(single.run_id.chars().all(|c| c.is_ascii_hexdigit() && !c.is_ascii_uppercase()));
    let mut confirmed = req("wipe", ApiTargets::All);
    confirmed.confirm = true;
    assert!(d.run(confirmed).0.is_ok());
}

#[test]
fn template_errors_fail_the_batch() {
    let (mut d, _rx1, _rx2) = online();
    let (r, _) = d.run_with(req("sim.bad", ApiTargets::All), "r".into(), swarmdeck::registry::now_ms());
    match r {
        Err(ConfigError::UnknownAction { kind, action }) => {
            assert_eq!(kind, "sim");
            assert_eq!(action, "unknown placeholder 'missing' in command template");
        }
        other => panic!("unexpected {other:?}"),
    }
    assert!(d.registry.run_store.get("r").is_none());
}

#[test]
fn closed_sessions_count_as_offline() {
    let (mut d, rx1, _rx2) = online();
    drop(rx1);
    let (r, _) = d.run_with(req("sim.echo", ApiTargets::All), "r".into(), swarmdeck::registry::now_ms());
    let resp = r.unwrap();
    assert_eq!(resp.targeted, vec!["sim-02"]);
    assert_eq!(resp.offline, vec!["sim-01"]);
}

#[test]
fn stop_sends_to_running_robots() {
    let (mut d, mut rx1, mut rx2) = online();
    let now = swarmdeck::registry::now_ms();
    d.run_with(req("sim.echo", ApiTargets::Robots(vec!["sim-01".into()])), "fg".into(), now).0.unwrap();
    d.run_with(req("sim.up", ApiTargets::Robots(vec!["sim-02".into()])), "bg".into(), now).0.unwrap();
    let _ = rx1.try_recv();
    let _ = rx2.try_recv();
    let stopped = d.stop(&StopRequest { targets: ApiTargets::All, confirm: true }).unwrap();
    assert_eq!(stopped, vec!["sim-01", "sim-02"]);
    assert!(matches!(rx1.try_recv().unwrap(), Command::Stop { action_id } if action_id == "fg:sim-01"));
    assert!(matches!(rx2.try_recv().unwrap(), Command::Stop { action_id } if action_id == "bg:sim-02"));
    assert!(d.stop(&StopRequest { targets: ApiTargets::Robots(vec!["x".into()]), confirm: false }).is_err());
}

#[test]
fn workflows_record_their_steps() {
    let (mut d, _rx1, _rx2) = online();
    let (r, notices) = d.run_workflow_with("demo", false, "wf".into(), 5);
    let (resp, wf) = r.unwrap();
    assert_eq!(resp.run_id, "wf");
    assert_eq!(resp.action, "demo");
    assert_eq!(notices.len(), 1);
    assert_eq!(wf.steps.len(), 2);
    let step = wf.step_request(0);
    assert_eq!(step.action, "sim.echo");
    assert!(step.confirm == wf.confirm && !step.background && step.timeout_sec.is_none());
    let sub = d.run(step).0.unwrap();
    let n = d.record_workflow_step(&wf, 0, &sub);
    assert_eq!(n.len(), 1);
    let info = d.registry.run_store.get("wf").unwrap().workflow.unwrap();
    assert_eq!(info.current_step, 1);
    assert_eq!(info.step_run_id, sub.run_id);
    assert!(!d.workflow_step_stops(&wf, 0, &sub.run_id));
    assert!(wf.aborts_on_dispatch_error());
    let n = d.finish_workflow(&wf);
    assert_eq!(n.len(), 1);
    assert_eq!(d.registry.run_store.get("wf").unwrap().workflow.unwrap().current_step, 2);
    assert!(matches!(d.run_workflow("nope", false).0, Err(ConfigError::UnknownWorkflow { .. })));
}

#[test]
fn request_time_limits_override_the_action_unless_zero() {
    let (mut d, mut rx1, _rx2) = online();
    let now = swarmdeck::registry::now_ms();
    let mut r = req("sim.up", ApiTargets::Robots(vec!["sim-01".into()]));
    r.timeout_sec = Some(5);
    d.run_with(r, "run1".into(), now).0.unwrap();
    match rx1.try_recv().unwrap() {
        Command::Run(run) => assert_eq!(run.timeout_sec, 5),
        other => panic!("unexpected {other:?}"),
    }
    let mut r = req("sim.up", ApiTargets::Robots(vec!["sim-01".into()]));
    r.timeout_sec = Some(0);
    d.run_with(r, "run2".into(), now).0.unwrap();
    match rx1.try_recv().unwrap() {
        Command::Run(run) => {
            assert_eq!(run.timeout_sec, 30);
            assert!(run.background);
            assert_eq!(run.cwd, "");
        }
        other => panic!("unexpected {other:?}"),
    }
}

#[test]
fn workflow_driver_walks_the_steps() {
    let (mut d, _rx1, _rx2) = online();
    let (r, _) = d.run_workflow_with("demo", false, "wf".into(), 5);
    let (_, wf) = r.unwrap();
    assert_eq!(wf.first_step(), WorkflowNext::Step(0));
    let result = d.run(wf.step_request(0)).0;
    let step_run = result.as_ref().unwrap().run_id.clone();
    let (next, notices) = d.after_dispatch(&wf, 0, &result);
    assert_eq!(next, WorkflowNext::Await(0, step_run.clone()));
    assert_eq!(notices.len(), 1);
    // Step 0 fails on one robot: it does not continue on error and the
    // workflow aborts on failure, so the workflow ends.
    let now = swarmdeck::registry::now_ms();
    d.registry.apply_report(
        "sim-01",
        &Report::Result {
            action_id: format!("{step_run}:sim-01"),
            exit_code: 2,
            killed: false,
            error: "boom".into(),
            started_ms: now,
            finished_ms: now,
        },
        now,
    );
    assert_eq!(d.after_step(&wf, 0, &step_run), WorkflowNext::Finish);
    // A step that cannot be dispatched ends an aborting workflow.
    let bad: Result<_, ConfigError> = Err(ConfigError::BadActionRef);
    let (next, notices) = d.after_dispatch(&wf, 0, &bad);
    assert_eq!(next, WorkflowNext::Finish);
    assert!(notices.is_empty());
    // The last step leads to the end.
    assert_eq!(wf.step_after(0), WorkflowNext::Step(1));
    assert_eq!(wf.step_after(1), WorkflowNext::Finish);
}

#[test]
fn steps_that_continue_on_error_survive_dispatch_errors() {
    let (mut d, _rx1, _rx2) = online();
    let (r, _) = d.run_workflow_with("chain", false, "wf".into(), 5);
    let (_, wf) = r.unwrap();
    let bad: Result<_, ConfigError> = Err(ConfigError::BadActionRef);
    assert_eq!(d.after_dispatch(&wf, 0, &bad).0, WorkflowNext::Step(1));
    assert_eq!(d.after_dispatch(&wf, 1, &bad).0, WorkflowNext::Finish);
}

#[test]
fn empty_steps_finish_at_once() {
    let mut d = Dispatcher::new(Registry::new(swarm()));
    let (r, _) = d.run_workflow_with("chain", false, "wf".into(), 5);
    let (_, wf) = r.unwrap();
    let step = d.run(wf.step_request(0)).0;
    let (next, _) = d.after_dispatch(&wf, 0, &step);
    let WorkflowNext::Await(0, run_id) = next else { panic!("unexpected {next:?}") };
    assert!(d.registry.run_store.run_finished(&run_id));
    assert_eq!(d.after_step(&wf, 0, &run_id), WorkflowNext::Step(1));
}

#[test]
fn batches_account_for_each_robot_once() {
    let (mut d, _rx1, rx2) = online();
    drop(rx2);
    let now = swarmdeck::registry::now_ms();
    let first = d.run_with(req("sim.echo", ApiTargets::Robots(vec!["sim-01".into()])), "a".into(), now).0.unwrap();
    assert_eq!(first.targeted, vec!["sim-01"]);
    let ids = vec!["sim-01".to_string(), "sim-02".to_string(), "sim-01".to_string()];
    let resp = d.run_with(req("sim.echo", ApiTargets::Robots(ids)), "b".into(), now).0.unwrap();
    assert!(resp.targeted.is_empty());
    assert_eq!(resp.busy, vec!["sim-01", "sim-01"]);
    assert_eq!(resp.offline, vec!["sim-02"]);
}

#[test]
fn stop_leaves_idle_robots_alone() {
    let (mut d, mut rx1, mut rx2) = online();
    let stopped = d.stop(&StopRequest { targets: ApiTargets::All, confirm: false }).unwrap();
    assert!(stopped.is_empty());
    assert!(rx1.try_recv().is_err());
    assert!(rx2.try_recv().is_err());
}
