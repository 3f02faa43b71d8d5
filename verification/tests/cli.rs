use swarmdeck::agent::{Report, RunnerEvent};
use swarmdeck::api::{parse_action_ref, ApiTargets, RobotView, RunRobotStatus, RunView};
use swarmdeck::cli::{
    agent_endpoint, agent_toml, api_url, base_url, is_confirm_rejection, join, provision_targets, robot_state_label, run_in_progress,
    run_status_label, stop_needs_confirmation, stop_prompt, target, ws_url, ProvisionError, ProvisionTarget,
    TargetError,
};
use swarmdeck::config::{ActionConfig, ControllerConfig, RobotConfig, RobotTypeConfig, SwarmConfig};
use swarmdeck::listing::{actions_view, config_view, mime_for, sort_strings};
use swarmdeck::strmap::StrMap;

#[test]
fn exactly_one_target_flag() {
    assert!(matches!(target(true, vec![], vec![], None), Ok(ApiTargets::All)));
    assert!(matches!(target(false, vec!["a".into()], vec![], None), Ok(ApiTargets::Robots(v)) if v == vec!["a"]));
    assert!(matches!(target(false, vec![], vec!["t".into()], None), Ok(ApiTargets::Types(v)) if v == vec!["t"]));
    assert!(matches!(target(false, vec![], vec![], Some("n".into())), Ok(ApiTargets::Name(n)) if n == "n"));
    assert_eq!(target(false, vec![], vec![], None).unwrap_err(), TargetError::NoTargets);
    assert_eq!(target(true, vec!["a".into()], vec![], None).unwrap_err(), TargetError::Conflicting);
    assert_eq!(target(true, vec![], vec![], Some("n".into())).unwrap_err(), TargetError::Conflicting);
    assert!(TargetError::NoTargets.message().starts_with("no targets given"));
}

#[test]
fn action_refs_split_at_the_first_dot() {
    assert_eq!(parse_action_ref("turtlebot3.bringup"), Some(("turtlebot3", "bringup")));
    assert_eq!(parse_action_ref("a.b.c"), Some(("a", "b.c")));
    assert_eq!(parse_action_ref("start"), None);
    assert_eq!(parse_action_ref(".x"), None);
    assert_eq!(parse_action_ref("x."), None);
}

fn view(connected: bool, simulated: bool) -> RobotView {
    RobotView {
        id: "r".into(),
        name: "r".into(),
        kind: "k".into(),
        address: None,
        simulated,
        adopted: false,
        connected,
        agent_version: String::new(),
        hostname: None,
        last_seen_ms: 0,
        active: None,
    }
}

#[test]
fn labels() {
    assert_eq!(robot_state_label(&view(true, true)), "sim-online");
    assert_eq!(robot_state_label(&view(true, false)), "online");
    assert_eq!(robot_state_label(&view(false, true)), "offline");
    assert_eq!(run_status_label(&RunRobotStatus::Queued), "queued");
    assert_eq!(run_status_label(&RunRobotStatus::Running { action_id: "a".into(), started_ms: 1 }), "running");
    assert_eq!(run_status_label(&RunRobotStatus::Done { exit_code: 0, killed: true, finished_ms: 1 }), "stopped");
    assert_eq!(run_status_label(&RunRobotStatus::Done { exit_code: 0, killed: false, finished_ms: 1 }), "done");
    assert_eq!(run_status_label(&RunRobotStatus::Failed { error: "e".into() }), "failed");
}

#[test]
fn runs_in_progress() {
    let mut run = RunView { run_id: "r".into(), action: "a".into(), created_ms: 0, robots: vec![], workflow: None };
    assert!(!run_in_progress(&run));
    run.robots.push(("x".into(), RunRobotStatus::Done { exit_code: 0, killed: false, finished_ms: 1 }));
    assert!(!run_in_progress(&run));
    run.robots.push(("y".into(), RunRobotStatus::Queued));
    assert!(run_in_progress(&run));
}

#[test]
fn stopping_one_named_robot_needs_no_confirmation() {
    assert!(!stop_needs_confirmation(false, &ApiTargets::Robots(vec!["a".into()])));
    assert!(stop_needs_confirmation(false, &ApiTargets::Robots(vec!["a".into(), "b".into()])));
    assert!(stop_needs_confirmation(false, &ApiTargets::All));
    assert!(!stop_needs_confirmation(true, &ApiTargets::All));
}

#[test]
fn urls() {
    assert_eq!(base_url("http://127.0.0.1:8080//"), "http://127.0.0.1:8080");
    assert_eq!(base_url("http://h"), "http://h");
    assert_eq!(api_url("http://h", "/api/run"), "http://h/api/run");
    assert_eq!(ws_url("http://127.0.0.1:8080"), "ws://127.0.0.1:8080/api/ws");
    assert_eq!(ws_url("https://host"), "wss://host/api/ws");
    assert_eq!(ws_url("host:1"), "ws://host:1/api/ws");
}

#[test]
fn confirm_rejections_are_recognised() {
    let text = swarmdeck::error::ConfigError::ConfirmRequired { action: "x".into(), count: 3 }.message();
    assert!(is_confirm_rejection(&text));
    assert!(!is_confirm_rejection("unknown robot id 'x'"));
}

#[test]
fn strings_sort_in_text_order() {
    let v = vec!["b".to_string(), "a.x".into(), "a-b.y".into(), "a".into(), "b".into()];
    let mut expected = v.clone();
    expected.sort();
    assert_eq!(sort_strings(v), expected);
}

#[test]
fn runner_events_become_reports() {
    match (RunnerEvent::Log { action_id: "a".into(), stderr: true, line: "hé".into() }).into_report() {
        Report::Log { action_id, data, stderr } => {
            assert_eq!(action_id, "a");
            assert_eq!(data, "hé".as_bytes());
            assert!(stderr);
        }
        other => panic!("unexpected {other:?}"),
    }
    let done = RunnerEvent::Done {
        action_id: "a".into(),
        exit_code: None,
        killed: false,
        error: Some("timed out".into()),
        started_ms: 1,
        finished_ms: 2,
    };
    match done.into_report() {
        Report::Result { exit_code, error, .. } => {
            assert_eq!(exit_code, 1);
            assert_eq!(error, "timed out");
        }
        other => panic!("unexpected {other:?}"),
    }
}

#[test]
fn listings() {
    let act = || ActionConfig {
        command: "x".into(),
        timeout_sec: None,
        env: StrMap::new(),
        cwd: None,
        dangerous: false,
        concurrency: 1,
        background: false,
    };
    let mut a_actions = StrMap::new();
    a_actions.insert("x".to_string(), act());
    let mut ab_actions = StrMap::new();
    ab_actions.insert("y".to_string(), act());
    let mut robot_types = StrMap::new();
    robot_types.insert("a".to_string(), RobotTypeConfig { display_name: None, actions: a_actions });
    robot_types.insert("a-b".to_string(), RobotTypeConfig { display_name: None, actions: ab_actions });
    robot_types.insert("idle".to_string(), RobotTypeConfig { display_name: None, actions: StrMap::new() });
    let mut actions = StrMap::new();
    actions.insert("trial".to_string(), act());
    let r = |id: &str, kind: &str| RobotConfig {
        id: id.into(),
        name: None,
        kind: kind.into(),
        address: None,
        simulated: false,
        vars: StrMap::new(),
        env: StrMap::new(),
        adopted: false,
    };
    let cfg = SwarmConfig {
        controller: ControllerConfig {
            name: "lab".into(),
            id_code: "s".into(),
            grpc_listen: "0.0.0.0:50051".into(),
            ui_bind: "0.0.0.0:8080".into(),
            tls: None,
        },
        robot_types,
        actions,
        vars: StrMap::new(),
        workflows: StrMap::new(),
        robots: vec![r("1", "a"), r("2", "a-b"), r("3", "")],
    };
    let v = actions_view(&cfg);
    assert_eq!(v.robot_type, vec!["a-b.y", "a.x"]);
    assert_eq!(v.swarm, vec!["trial"]);
    let c = config_view(&cfg);
    assert_eq!(c.controller, "lab");
    assert_eq!(c.robot_types, vec!["a", "a-b", "idle"]);
    assert_eq!(c.robot_count, 3);
    assert_eq!(c.grpc_listen, "0.0.0.0:50051");
    assert_eq!(c.ui_bind, "0.0.0.0:8080");
}

fn fleet() -> SwarmConfig {
    let r = |id: &str, address: Option<&str>, simulated: bool| RobotConfig {
        id: id.into(),
        name: None,
        kind: "k".into(),
        address: address.map(|a| a.to_string()),
        simulated,
        vars: StrMap::new(),
        env: StrMap::new(),
        adopted: false,
    };
    SwarmConfig {
        controller: ControllerConfig {
            name: "lab".into(),
            id_code: "s".into(),
            grpc_listen: "0.0.0.0:50051".into(),
            ui_bind: "0.0.0.0:8080".into(),
            tls: None,
        },
        robot_types: StrMap::new(),
        actions: StrMap::new(),
        vars: StrMap::new(),
        workflows: StrMap::new(),
        robots: vec![
            r("tb-02", Some("10.0.0.2"), false),
            r("sim-01", Some("127.0.0.1"), true),
            r("tb-01", Some("10.0.0.1"), false),
            r("tb-03", None, false),
        ],
    }
}

fn target_of(id: &str, address: &str) -> ProvisionTarget {
    ProvisionTarget { id: id.into(), address: address.into() }
}

#[test]
fn provisioning_reaches_real_robots_with_an_address() {
    let cfg = fleet();
    assert_eq!(
        provision_targets(&cfg, &vec![]),
        Ok(vec![target_of("tb-02", "10.0.0.2"), target_of("tb-01", "10.0.0.1")])
    );
    assert_eq!(provision_targets(&cfg, &vec!["tb-01".to_string()]), Ok(vec![target_of("tb-01", "10.0.0.1")]));
}

#[test]
fn provisioning_refuses_unreachable_robots() {
    let cfg = fleet();
    let only = vec!["tb-01".to_string(), "tb-03".to_string(), "sim-01".to_string()];
    let e = provision_targets(&cfg, &only).unwrap_err();
    assert_eq!(e, ProvisionError::NotAddressed { id: "tb-03".into() });
    assert_eq!(e.message(), "robot 'tb-03' has no address in the swarm config (or doesn't exist)");
    let mut empty = fleet();
    empty.robots.clear();
    let e = provision_targets(&empty, &vec![]).unwrap_err();
    assert_eq!(e, ProvisionError::NoTargets);
    assert_eq!(e.message(), "no provisionable robots (with an address) matched");
}

#[test]
fn stop_prompts_name_the_targets() {
    assert_eq!(stop_prompt(&ApiTargets::All), "stop every running action on all robots?");
    assert_eq!(
        stop_prompt(&ApiTargets::Robots(vec!["a".into(), "b".into()])),
        "stop every running action on 2 robots?"
    );
    assert_eq!(
        stop_prompt(&ApiTargets::Types(vec!["tb".into(), "uav".into()])),
        "stop every running action on all tb,uav robots?"
    );
    assert_eq!(stop_prompt(&ApiTargets::Name("tb".into())), "stop every running action on robots matching \"tb\"?");
    assert_eq!(join(&vec![], ", "), "");
    assert_eq!(join(&vec!["a".to_string()], ", "), "a");
    assert_eq!(join(&vec!["a".to_string(), "b".to_string(), "c".to_string()], ", "), "a, b, c");
}

#[test]
fn static_files_get_their_content_type() {
    assert_eq!(mime_for(Some("js")), "text/javascript");
    assert_eq!(mime_for(Some("css")), "text/css");
    assert_eq!(mime_for(Some("html")), "text/html");
    assert_eq!(mime_for(Some("svg")), "image/svg+xml");
    assert_eq!(mime_for(Some("png")), "image/png");
    assert_eq!(mime_for(Some("ico")), "image/x-icon");
    assert_eq!(mime_for(Some("wasm")), "application/octet-stream");
    assert_eq!(mime_for(None), "application/octet-stream");
}

#[test]
fn agents_dial_the_controller_listener() {
    assert_eq!(agent_endpoint(Some("ctl:9".into()), "10.0.0.1", false, 50051, None), "ctl:9");
    assert_eq!(agent_endpoint(None, "10.0.0.1", false, 50051, Some("1.2.3.4".into())), "10.0.0.1:50051");
    assert_eq!(agent_endpoint(None, "0.0.0.0", true, 50051, None), "127.0.0.1:50051");
    assert_eq!(agent_endpoint(None, "0.0.0.0", true, 7, Some("100.64.0.1".into())), "100.64.0.1:7");
}

#[test]
fn agent_toml_is_valid_toml() {
    assert_eq!(
        agent_toml("tb-01", "10.0.0.1:50051", "s3cret"),
        "robot_id = \"tb-01\"\n\n[controller]\nendpoint = \"10.0.0.1:50051\"\nid_code = \"s3cret\"\ntls = false\n"
    );
    let odd = agent_toml("a\"b\\c\n\u{1b}é", "h", "c");
    assert!(odd.starts_with("robot_id = \"a\\\"b\\\\c\\n\\u001bé\"\n"), "{odd}");
    let doc: toml::Value = toml::from_str(&odd).unwrap();
    assert_eq!(doc["robot_id"].as_str(), Some("a\"b\\c\n\u{1b}é"));
}
