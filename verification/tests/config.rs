use swarmdeck::api::ApiTargets;
use swarmdeck::config::{
    is_types_file, ActionConfig, AgentConfig, AgentControllerConfig, ControllerConfig, RobotConfig, RobotTypeConfig,
    RobotTypesFile, SwarmConfig, WorkflowConfig, WorkflowOnFailure, WorkflowStep,
};
use swarmdeck::error::ConfigError;
use swarmdeck::layers::{
    clone_node, merge_toml, parse_config_text, split_extends, ChainNext, ExtendsChain, ExtendsStep, TomlDoc,
};
use swarmdeck::strmap::StrMap;

fn action(command: &str) -> ActionConfig {
    ActionConfig {
        command: command.into(),
        timeout_sec: None,
        env: StrMap::new(),
        cwd: None,
        dangerous: false,
        concurrency: swarmdeck::config::default_concurrency(),
        background: false,
    }
}

fn robot(id: &str, name: Option<&str>, kind: &str) -> RobotConfig {
    RobotConfig {
        id: id.into(),
        name: name.map(|n| n.to_string()),
        kind: kind.into(),
        address: None,
        simulated: false,
        vars: StrMap::new(),
        env: StrMap::new(),
        adopted: false,
    }
}

fn cfg(robots: Vec<RobotConfig>) -> SwarmConfig {
    let mut acts = StrMap::new();
    acts.insert("bringup".to_string(), action("echo up"));
    let mut robot_types = StrMap::new();
    robot_types.insert("tb".to_string(), RobotTypeConfig { display_name: None, actions: acts });
    let mut actions = StrMap::new();
    actions.insert("trial".to_string(), action("echo trial"));
    SwarmConfig {
        controller: ControllerConfig {
            name: "lab".into(),
            id_code: "s3cret".into(),
            grpc_listen: "0.0.0.0:50051".into(),
            ui_bind: swarmdeck::config::default_ui_bind(),
            tls: None,
        },
        robot_types,
        actions,
        vars: StrMap::new(),
        workflows: StrMap::new(),
        robots,
    }
}

fn agent(robot_id: &str, endpoint: &str) -> AgentConfig {
    AgentConfig {
        robot_id: robot_id.into(),
        name: None,
        controller: AgentControllerConfig {
            endpoint: endpoint.into(),
            id_code: "s3cret".into(),
            tls: false,
            ca: None,
            server_name: None,
        },
        env: StrMap::new(),
    }
}

#[test]
fn valid_config_passes() {
    let c = cfg(vec![robot("a", None, "tb"), robot("b", Some("Bee"), "tb")]);
    assert!(c.validate().is_ok());
}

#[test]
fn unknown_robot_type_is_rejected() {
    let c = cfg(vec![robot("a", None, "rover")]);
    match c.validate() {
        Err(ConfigError::UnknownRobotType { robot, kind }) => {
            assert_eq!(robot, "a");
            assert_eq!(kind, "rover");
        }
        other => panic!("unexpected {other:?}"),
    }
}

#[test]
fn duplicate_robot_id_names_the_first_by_display_name() {
    let c = cfg(vec![robot("a", Some("Alpha"), "tb"), robot("b", None, "tb"), robot("a", None, "tb")]);
    match c.validate() {
        Err(ConfigError::DuplicateRobotId { id, first }) => {
            assert_eq!(id, "a");
            assert_eq!(first, "Alpha");
        }
        other => panic!("unexpected {other:?}"),
    }
}

#[test]
fn empty_swarm_action_name_is_rejected() {
    let mut c = cfg(vec![]);
    c.actions.insert(String::new(), action("x"));
    assert!(matches!(c.validate(), Err(ConfigError::BadSwarmActionName { ref action }) if action.is_empty()));
}

#[test]
fn workflow_step_must_name_an_action() {
    let mut c = cfg(vec![]);
    let wf = WorkflowConfig {
        description: None,
        steps: vec![
            WorkflowStep { action: "tb.bringup".into(), targets: ApiTargets::All, continue_on_error: false },
            WorkflowStep { action: "trial".into(), targets: ApiTargets::All, continue_on_error: true },
            WorkflowStep { action: "tb.missing".into(), targets: ApiTargets::All, continue_on_error: false },
        ],
        on_failure: WorkflowOnFailure::default(),
    };
    c.workflows.insert("demo".to_string(), wf);
    match c.validate() {
        Err(ConfigError::UnknownWorkflowAction { workflow, step, action }) => {
            assert_eq!(workflow, "demo");
            assert_eq!(step, 3);
            assert_eq!(action, "tb.missing");
        }
        other => panic!("unexpected {other:?}"),
    }
}

#[test]
fn action_references_resolve() {
    let c = cfg(vec![]);
    assert!(c.action_exists("tb.bringup"));
    assert!(c.action_exists("trial"));
    assert!(!c.action_exists("tb.nope"));
    assert!(!c.action_exists("nope.bringup"));
    assert!(!c.action_exists("nope"));
}

#[test]
fn unclaimed_robot_is_merged_once() {
    let c = cfg(vec![robot("a", None, "tb")]);
    let merged = c.with_unclaimed("pi-7", Some("raspberrypi"));
    assert_eq!(merged.robots.len(), 2);
    let r = &merged.robots[1];
    assert_eq!(r.id, "pi-7");
    assert_eq!(r.name.as_deref(), Some("raspberrypi"));
    assert_eq!(r.kind, "");
    assert!(!r.adopted);
    let again = merged.with_unclaimed("pi-7", None);
    assert_eq!(again.robots.len(), 2);
    let named_by_id = c.with_unclaimed("pi-8", None);
    assert_eq!(named_by_id.robots[1].name.as_deref(), Some("pi-8"));
    let known = c.with_unclaimed("a", Some("x"));
    assert_eq!(known.robots.len(), 1);
}

#[test]
fn shared_robot_types_do_not_override_the_swarm_file() {
    let mut c = cfg(vec![]);
    let mut other = StrMap::new();
    other.insert("tb".to_string(), RobotTypeConfig { display_name: Some("shadow".into()), actions: StrMap::new() });
    other.insert("uav".to_string(), RobotTypeConfig { display_name: Some("UAV".into()), actions: StrMap::new() });
    c.merge_robot_types(RobotTypesFile { robot_types: other });
    assert_eq!(c.robot_types.len(), 2);
    assert!(c.robot_types.get("tb").unwrap().display_name.is_none());
    assert_eq!(c.robot_types.get("uav").unwrap().display_name.as_deref(), Some("UAV"));
}

#[test]
fn blank_robot_id_is_rejected() {
    assert!(agent("   ", "x").validate().is_err());
    assert!(agent("", "x").validate().is_err());
    assert!(agent("\t\n", "x").validate().is_err());
    assert!(agent(" r-1 ", "x").validate().is_ok());
    let err = agent("", "x").validate().unwrap_err();
    assert!(err.message().contains("robot_id"), "{}", err.message());
}

#[test]
fn default_port_is_appended_once() {
    let mut a = agent("r", "10.0.0.1");
    a.controller.apply_default_port();
    assert_eq!(a.controller.endpoint, "10.0.0.1:50051");
    a.controller.apply_default_port();
    assert_eq!(a.controller.endpoint, "10.0.0.1:50051");
    let mut b = agent("r", "127.0.0.1:6000");
    b.controller.apply_default_port();
    assert_eq!(b.controller.endpoint, "127.0.0.1:6000");
}

#[test]
fn config_error_texts() {
    let e = ConfigError::ConfirmRequired { action: "sim.echo".into(), count: 12 };
    assert_eq!(
        e.message(),
        "action 'sim.echo' targets 12 robots and is flagged dangerous; confirm with confirm=true"
    );
    assert_eq!(ConfigError::UnknownRobot { id: "x".into() }.message(), "unknown robot id 'x'");
    assert_eq!(
        ConfigError::DuplicateRobotId { id: "a".into(), first: "Alpha".into() }.message(),
        "duplicate robot id 'a' (also used by 'Alpha')"
    );
    assert_eq!(
        ConfigError::UnknownWorkflowAction { workflow: "w".into(), step: 2, action: "x.y".into() }.message(),
        "workflow 'w' step 2 references unknown action 'x.y'"
    );
    assert!(ConfigError::ConfigCycle { path: "/a.toml".into() }.message().contains("cycle"));
}

#[test]
fn defaults() {
    assert_eq!(swarmdeck::config::default_ui_bind(), "0.0.0.0:8080");
    assert_eq!(swarmdeck::config::default_concurrency(), 1);
    assert_eq!(swarmdeck::listing::default_tail(), 200);
}

#[test]
fn display_name_prefers_name() {
    assert_eq!(robot("a", Some("Alpha"), "tb").display_name(), "Alpha");
    assert_eq!(robot("a", None, "tb").display_name(), "a");
}

fn table(entries: Vec<(&str, TomlDoc)>) -> TomlDoc {
    TomlDoc::Table(entries.into_iter().map(|(k, v)| (k.to_string(), v)).collect())
}

#[test]
fn extending_file_overrides_only_given_fields() {
    // base: [controller] endpoint, id_code; child: robot_id
    let base = table(vec![("controller", table(vec![("endpoint", TomlDoc::Int(0)), ("id_code", TomlDoc::Int(1))]))]);
    let child = table(vec![("robot_id", TomlDoc::Int(2))]);
    assert_eq!(
        merge_toml(base, &child),
        table(vec![
            ("controller", table(vec![("endpoint", TomlDoc::Int(0)), ("id_code", TomlDoc::Int(1))])),
            ("robot_id", TomlDoc::Int(2)),
        ])
    );
}

#[test]
fn extending_file_wins_key_by_key() {
    let base = table(vec![
        ("robot_id", TomlDoc::Int(0)),
        ("controller", table(vec![("endpoint", TomlDoc::Int(1)), ("id_code", TomlDoc::Int(2))])),
    ]);
    let child = table(vec![("robot_id", TomlDoc::Int(3)), ("controller", table(vec![("endpoint", TomlDoc::Int(4))]))]);
    assert_eq!(
        merge_toml(base, &child),
        table(vec![
            ("robot_id", TomlDoc::Int(3)),
            ("controller", table(vec![("endpoint", TomlDoc::Int(4)), ("id_code", TomlDoc::Int(2))])),
        ])
    );
}

#[test]
fn non_tables_replace_whole() {
    let base = table(vec![("env", table(vec![("A", TomlDoc::Int(0))]))]);
    let child = table(vec![("env", TomlDoc::Int(1))]);
    assert_eq!(merge_toml(base, &child), table(vec![("env", TomlDoc::Int(1))]));
    let base = table(vec![("env", TomlDoc::Int(0))]);
    let child = table(vec![("env", table(vec![("A", TomlDoc::Int(1))]))]);
    assert_eq!(merge_toml(base, &child), table(vec![("env", table(vec![("A", TomlDoc::Int(1))]))]));
    assert_eq!(merge_toml(TomlDoc::Int(5), &table(vec![])), table(vec![]));
    assert_eq!(merge_toml(table(vec![("a", TomlDoc::Int(1))]), &TomlDoc::Int(7)), TomlDoc::Int(7));
    let t = table(vec![("a", table(vec![("b", TomlDoc::Int(1))]))]);
    assert_eq!(clone_node(&t), t);
}

/// Loads `entry` from the in-memory files, following `extends`.
fn load(files: &[(&str, &str)], entry: &str) -> Result<AgentConfig, ConfigError> {
    let mut chain = ExtendsChain::new();
    let mut name = entry.to_string();
    loop {
        chain.enter(&name)?;
        let text = files.iter().find(|(n, _)| *n == name).map(|(_, t)| *t).unwrap();
        match chain.take_text(text) {
            ChainNext::Finished(r) => return r,
            ChainNext::Load(rel_path) => name = rel_path,
        }
    }
}

#[test]
fn extends_overrides_only_given_fields() {
    let cfg = load(
        &[
            ("base.toml", "[controller]\nendpoint = \"10.0.0.1\"\nid_code = \"s3cret\"\n"),
            ("child.toml", "extends = \"base.toml\"\nrobot_id = \"r-1\"\n"),
        ],
        "child.toml",
    )
    .unwrap();
    assert_eq!(cfg.robot_id, "r-1");
    assert_eq!(cfg.controller.endpoint, "10.0.0.1:50051");
    assert_eq!(cfg.controller.id_code, "s3cret");
}

#[test]
fn child_wins_over_base() {
    let cfg = load(
        &[
            ("base.toml", "robot_id = \"generic\"\n[controller]\nendpoint = \"10.0.0.1\"\nid_code = \"s3cret\"\n"),
            ("child.toml", "extends = \"base.toml\"\nrobot_id = \"r-2\"\n[controller]\nendpoint = \"127.0.0.1\"\n"),
        ],
        "child.toml",
    )
    .unwrap();
    assert_eq!(cfg.robot_id, "r-2");
    assert_eq!(cfg.controller.endpoint, "127.0.0.1:50051");
    assert_eq!(cfg.controller.id_code, "s3cret");
}

#[test]
fn missing_required_field_still_errors() {
    let cfg = load(
        &[
            ("base.toml", "[controller]\nendpoint = \"10.0.0.1\"\nid_code = \"s3cret\"\n"),
            ("child.toml", "extends = \"base.toml\"\n"),
        ],
        "child.toml",
    )
    .unwrap();
    let err = cfg.validate().unwrap_err();
    assert!(err.message().contains("robot_id"), "{}", err.message());
}

#[test]
fn whitespace_only_robot_id_is_rejected() {
    let cfg = load(
        &[("solo.toml", "robot_id = \"   \"\n[controller]\nendpoint = \"10.0.0.1\"\nid_code = \"s3cret\"\n")],
        "solo.toml",
    )
    .unwrap();
    assert!(cfg.validate().is_err());
}

#[test]
fn extends_cycle_is_rejected() {
    let err = load(
        &[("a.toml", "extends = \"b.toml\"\nrobot_id = \"r\"\n"), ("b.toml", "extends = \"a.toml\"\n")],
        "a.toml",
    )
    .unwrap_err();
    assert!(err.message().contains("cycle"), "{}", err.message());
}

#[test]
fn no_extends_works_as_before() {
    let cfg = load(
        &[("solo.toml", "robot_id = \"r-3\"\n[controller]\nendpoint = \"10.0.0.1\"\nid_code = \"s3cret\"\n")],
        "solo.toml",
    )
    .unwrap();
    assert_eq!(cfg.robot_id, "r-3");
}

#[test]
fn agent_config_schema_is_enforced() {
    let one = |text: &str| load(&[("a.toml", text)], "a.toml");
    let e = one("robot_id = \"r\"\n").unwrap_err();
    assert_eq!(e.message(), "failed to parse TOML: missing field `controller`");
    let e = one("robot_id = 3\n[controller]\nendpoint = \"h\"\nid_code = \"c\"\n").unwrap_err();
    assert_eq!(e.message(), "failed to parse TOML: invalid type for `robot_id`, expected a string");
    let e = one("colour = \"red\"\n[controller]\nendpoint = \"h\"\nid_code = \"c\"\n").unwrap_err();
    assert_eq!(e.message(), "failed to parse TOML: unknown field `colour`");
    let e = one("[controller]\nendpoint = \"h\"\n").unwrap_err();
    assert_eq!(e.message(), "failed to parse TOML: missing field `id_code`");
    let e = one("[controller]\nendpoint = \"h\"\nid_code = \"c\"\ntls = \"yes\"\n").unwrap_err();
    assert_eq!(e.message(), "failed to parse TOML: invalid type for `tls`, expected a boolean");
    let e = one("[controller]\nendpoint = \"h\"\nid_code = \"c\"\n[env]\nX = 1.5\n").unwrap_err();
    assert_eq!(e.message(), "failed to parse TOML: invalid type for `env`, expected a table of strings");
    assert!(one("robot_id = ").unwrap_err().message().starts_with("failed to parse TOML: "));
    let c = one(
        "name = \"front\"\n[controller]\nendpoint = \"h:1\"\nid_code = \"c\"\ntls = true\nca = \"ca.pem\"\nserver_name = \"ctl\"\n[env]\nB = \"2\"\nA = \"1\"\n",
    )
    .unwrap();
    assert_eq!(c.robot_id, "");
    assert_eq!(c.name.as_deref(), Some("front"));
    assert_eq!(c.controller.endpoint, "h:1");
    assert!(c.controller.tls);
    assert_eq!(c.controller.ca.as_deref(), Some("ca.pem"));
    assert_eq!(c.controller.server_name.as_deref(), Some("ctl"));
    assert_eq!(c.env.keys(), vec!["A".to_string(), "B".to_string()]);
    assert_eq!(c.env.get("B").map(|v| v.as_str()), Some("2"));
}

#[test]
fn non_string_extends_is_an_unknown_field() {
    let e = load(&[("a.toml", "extends = 3\n[controller]\nendpoint = \"h\"\nid_code = \"c\"\n")], "a.toml").unwrap_err();
    assert_eq!(e.message(), "failed to parse TOML: unknown field `extends`");
}

#[test]
fn types_files_are_toml_files() {
    assert!(is_types_file("uav.toml"));
    assert!(is_types_file("..toml"));
    assert!(!is_types_file(".toml"));
    assert!(!is_types_file("uav.toml.bak"));
    assert!(!is_types_file("README"));
}

#[test]
fn earlier_types_files_win() {
    let ty = |d: &str| RobotTypeConfig { display_name: Some(d.into()), actions: StrMap::new() };
    let file = |entries: &[(&str, &str)]| {
        let mut m = StrMap::new();
        for (k, d) in entries {
            m.insert(k.to_string(), ty(d));
        }
        RobotTypesFile { robot_types: m }
    };
    let mut c = cfg(vec![]);
    c.robot_types.insert("own".to_string(), ty("swarm"));
    c.merge_robot_type_files(vec![file(&[("own", "f1"), ("a", "f1")]), file(&[("a", "f2"), ("b", "f2")])]);
    let name = |k: &str| c.robot_types.get(k).unwrap().display_name.clone().unwrap();
    assert_eq!(name("own"), "swarm");
    assert_eq!(name("a"), "f1");
    assert_eq!(name("b"), "f2");
}

#[test]
fn extends_is_split_off_a_document() {
    let doc = parse_config_text("extends = \"base.toml\"\nrobot_id = \"tb-01\"\n").unwrap();
    match split_extends(doc) {
        ExtendsStep::Base { rel_path, over } => {
            assert_eq!(rel_path, "base.toml");
            assert_eq!(over, table(vec![("robot_id", TomlDoc::Str("tb-01".into()))]));
        }
        other => panic!("unexpected {other:?}"),
    }
    let doc = parse_config_text("extends = 3\n").unwrap();
    assert!(matches!(split_extends(doc), ExtendsStep::Done(_)));
    assert!(matches!(parse_config_text("robot_id = "), Err(ConfigError::Toml(_))));
}

#[test]
fn a_chain_asks_for_its_base_then_finishes() {
    let mut chain = ExtendsChain::new();
    assert!(chain.enter("/etc/agent.toml").is_ok());
    match chain.take_text("extends = \"base.toml\"\nrobot_id = \"tb-01\"\n") {
        ChainNext::Load(p) => assert_eq!(p, "base.toml"),
        other => panic!("unexpected {other:?}"),
    }
    assert!(chain.enter("/etc/base.toml").is_ok());
    match chain.take_text("[controller]\nendpoint = \"host\"\nid_code = \"c\"\n") {
        ChainNext::Finished(Ok(c)) => {
            assert_eq!(c.robot_id, "tb-01");
            assert_eq!(c.controller.endpoint, "host:50051");
        }
        other => panic!("unexpected {other:?}"),
    }
    let mut chain = ExtendsChain::new();
    assert!(chain.enter("/a").is_ok());
    assert!(matches!(chain.enter("/a"), Err(ConfigError::ConfigCycle { ref path }) if path == "/a"));
}
