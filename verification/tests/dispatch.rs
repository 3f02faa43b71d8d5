use swarmdeck::api::ApiTargets;
use swarmdeck::config::{ActionConfig, ControllerConfig, RobotConfig, RobotTypeConfig, SwarmConfig};
use swarmdeck::dispatch::{resolve, select_robots};
use swarmdeck::error::ConfigError;
use swarmdeck::strmap::StrMap;

fn action(command: &str, timeout_sec: Option<u64>, dangerous: bool) -> ActionConfig {
    ActionConfig {
        command: command.into(),
        timeout_sec,
        env: StrMap::new(),
        cwd: None,
        dangerous,
        concurrency: 1,
        background: false,
    }
}

fn robot(id: &str, name: Option<&str>, kind: &str, vars: &[(&str, &str)]) -> RobotConfig {
    let mut v = StrMap::new();
    for (k, x) in vars {
        v.insert(k.to_string(), x.to_string());
    }
    RobotConfig {
        id: id.into(),
        name: name.map(|n| n.to_string()),
        kind: kind.into(),
        address: None,
        simulated: false,
        env: StrMap::new(),
        vars: v,
        adopted: false,
    }
}

fn cfg() -> SwarmConfig {
    let mut tb_actions = StrMap::new();
    tb_actions.insert("bringup".to_string(), action("echo {{robot_id}}", Some(10), false));
    let mut robot_types = StrMap::new();
    robot_types.insert(
        "turtlebot3".to_string(),
        RobotTypeConfig { display_name: Some("TurtleBot3".into()), actions: tb_actions },
    );
    robot_types.insert(
        "uav".to_string(),
        RobotTypeConfig { display_name: Some("UAV".into()), actions: StrMap::new() },
    );
    let mut actions = StrMap::new();
    actions.insert("start_trial".to_string(), action("trial on {{robot_id}}", None, true));
    let mut vars = StrMap::new();
    vars.insert("site".to_string(), "lab-1".to_string());
    vars.insert("ns".to_string(), "swarm".to_string());
    SwarmConfig {
        controller: ControllerConfig {
            name: "t".into(),
            id_code: "s".into(),
            grpc_listen: "0.0.0.0:1".into(),
            ui_bind: "0.0.0.0:1".into(),
            tls: None,
        },
        robot_types,
        actions,
        vars,
        workflows: StrMap::new(),
        robots: vec![
            robot("tb-01", Some("turtlebot-1"), "turtlebot3", &[("ns", "tb01")]),
            robot("uav-01", None, "uav", &[]),
        ],
    }
}

#[test]
fn resolves_robot_type_action() {
    let c = cfg();
    let r = resolve(&c, "turtlebot3.bringup", &ApiTargets::Types(vec!["turtlebot3".into()]), &[]).unwrap();
    assert_eq!(r.action_name, "turtlebot3.bringup");
    assert_eq!(r.robots.len(), 1);
    assert!(!r.dangerous);
}

#[test]
fn resolves_swarm_action_across_types() {
    let c = cfg();
    let r = resolve(&c, "start_trial", &ApiTargets::All, &[]).unwrap();
    assert_eq!(r.action_name, "start_trial");
    assert_eq!(r.robots.len(), 2);
    assert!(r.dangerous);
}

#[test]
fn unknown_swarm_action_fails() {
    let c = cfg();
    let e = resolve(&c, "nope", &ApiTargets::All, &[]).unwrap_err();
    assert!(matches!(e, ConfigError::UnknownSwarmAction { .. }));
}

#[test]
fn dot_in_swarm_action_name_rejected() {
    let c = cfg();
    let mut bad = swarmdeck::strmap::Duplicate::duplicate(&c);
    let trial = swarmdeck::strmap::Duplicate::duplicate(bad.actions.get("start_trial").unwrap());
    bad.actions.insert("bad.name".into(), trial);
    assert!(matches!(bad.validate(), Err(ConfigError::BadSwarmActionName { .. })));
}

#[test]
fn swarm_vars_inherit_to_all_robots() {
    let c = cfg();
    let r = select_robots(&c, &ApiTargets::All, &[]).unwrap();
    for robot in &r {
        assert_eq!(robot.vars.get("site").map(String::as_str), Some("lab-1"), "{} inherits swarm var", robot.id);
    }
}

#[test]
fn robot_var_wins_over_swarm_default() {
    let c = cfg();
    let r = select_robots(&c, &ApiTargets::All, &[]).unwrap();
    let tb = r.iter().find(|r| r.id == "tb-01").unwrap();
    assert_eq!(tb.vars.get("ns").map(String::as_str), Some("tb01"));
    let uav = r.iter().find(|r| r.id == "uav-01").unwrap();
    assert_eq!(uav.vars.get("ns").map(String::as_str), Some("swarm"));
}

#[test]
fn unknown_robot_type_in_reference() {
    let c = cfg();
    let e = resolve(&c, "rover.go", &ApiTargets::All, &[]).unwrap_err();
    match e {
        ConfigError::UnknownRobotType { robot, kind } => {
            assert_eq!(robot, "targets");
            assert_eq!(kind, "rover");
        }
        other => panic!("unexpected {other:?}"),
    }
}

#[test]
fn unknown_action_of_type() {
    let c = cfg();
    let e = resolve(&c, "uav.takeoff", &ApiTargets::All, &[]).unwrap_err();
    match e {
        ConfigError::UnknownAction { kind, action } => {
            assert_eq!(kind, "uav");
            assert_eq!(action, "takeoff");
        }
        other => panic!("unexpected {other:?}"),
    }
}

#[test]
fn robots_by_id_keep_request_order() {
    let c = cfg();
    let r = select_robots(&c, &ApiTargets::Robots(vec!["uav-01".into(), "tb-01".into()]), &[]).unwrap();
    let ids: Vec<&str> = r.iter().map(|r| r.id.as_str()).collect();
    assert_eq!(ids, vec!["uav-01", "tb-01"]);
}

#[test]
fn back_to_back_repeats_collapse() {
    let c = cfg();
    let r = select_robots(
        &c,
        &ApiTargets::Robots(vec!["tb-01".into(), "tb-01".into(), "uav-01".into(), "tb-01".into()]),
        &[],
    )
    .unwrap();
    let ids: Vec<&str> = r.iter().map(|r| r.id.as_str()).collect();
    assert_eq!(ids, vec!["tb-01", "uav-01", "tb-01"]);
}

#[test]
fn unknown_and_unadopted_robots() {
    let c = cfg();
    let e = select_robots(&c, &ApiTargets::Robots(vec!["ghost".into()]), &[]).unwrap_err();
    assert!(matches!(e, ConfigError::UnknownRobot { ref id } if id == "ghost"));
    let e = select_robots(&c, &ApiTargets::Robots(vec!["ghost".into()]), &["ghost".to_string()]).unwrap_err();
    assert!(matches!(e, ConfigError::UnadoptedRobot { ref robot } if robot == "ghost"));
}

#[test]
fn name_matches_id_or_display_name() {
    let c = cfg();
    let r = select_robots(&c, &ApiTargets::Name("turtle".into()), &[]).unwrap();
    assert_eq!(r.len(), 1);
    assert_eq!(r[0].id, "tb-01");
    let r = select_robots(&c, &ApiTargets::Name("-01".into()), &[]).unwrap();
    assert_eq!(r.len(), 2);
    let r = select_robots(&c, &ApiTargets::Name("zzz".into()), &[]).unwrap();
    assert!(r.is_empty());
}

#[test]
fn types_filter_keeps_config_order() {
    let c = cfg();
    let r = select_robots(&c, &ApiTargets::Types(vec!["uav".into(), "turtlebot3".into()]), &[]).unwrap();
    let ids: Vec<&str> = r.iter().map(|r| r.id.as_str()).collect();
    assert_eq!(ids, vec!["tb-01", "uav-01"]);
}

#[test]
fn the_first_missing_id_decides_the_error() {
    let c = cfg();
    let ids = vec!["tb-01".to_string(), "ghost".to_string(), "phantom".to_string()];
    let e = select_robots(&c, &ApiTargets::Robots(ids.clone()), &["phantom".to_string()]).unwrap_err();
    assert!(matches!(e, ConfigError::UnknownRobot { ref id } if id == "ghost"));
    let e = select_robots(&c, &ApiTargets::Robots(ids), &["ghost".to_string()]).unwrap_err();
    assert!(matches!(e, ConfigError::UnadoptedRobot { ref robot } if robot == "ghost"));
}
