use swarmdeck::agent::{Command, Report};
use swarmdeck::api::{Event, LogLine, RunRobotStatus};
use swarmdeck::config::{ControllerConfig, RobotConfig, RobotTypeConfig, SwarmConfig};
use swarmdeck::registry::{now_ms, LogRing, Notice, Registry, SessionRefusal, STALE_AFTER_MS};
use swarmdeck::runs::RunGroup;
use swarmdeck::strmap::StrMap;

fn swarm() -> SwarmConfig {
    let mut robot_types = StrMap::new();
    robot_types.insert("tb".to_string(), RobotTypeConfig { display_name: None, actions: StrMap::new() });
    SwarmConfig {
        controller: ControllerConfig {
            name: "lab".into(),
            id_code: "s3cret".into(),
            grpc_listen: "0.0.0.0:50051".into(),
            ui_bind: "0.0.0.0:8080".into(),
            tls: None,
        },
        robot_types,
        actions: StrMap::new(),
        vars: StrMap::new(),
        workflows: StrMap::new(),
        robots: vec![RobotConfig {
            id: "tb-01".into(),
            name: Some("turtle".into()),
            kind: "tb".into(),
            address: Some("10.0.0.5".into()),
            simulated: true,
            vars: StrMap::new(),
            env: StrMap::new(),
            adopted: false,
        }],
    }
}

fn register(reg: &mut Registry, id: &str, now: u64) -> Vec<Notice> {
    reg.apply_report(
        id,
        &Report::Register {
            robot_id: id.into(),
            id_code: "s3cret".into(),
            agent_version: "1.2.3".into(),
            hostname: "host-a".into(),
            name: String::new(),
        },
        now,
    )
}

fn line(ts: u64, text: &str) -> LogLine {
    LogLine { ts_ms: ts, stderr: false, text: text.into() }
}

#[test]
fn log_ring_keeps_the_newest_lines() {
    let mut ring = LogRing::new(3);
    for i in 0..5 {
        ring.push(line(i, &format!("l{i}")));
    }
    let all = ring.tail(10);
    let texts: Vec<&str> = all.iter().map(|l| l.text.as_str()).collect();
    assert_eq!(texts, vec!["l2", "l3", "l4"]);
    let last = ring.tail(1);
    assert_eq!(last.len(), 1);
    assert_eq!(last[0].text, "l4");
    assert!(ring.tail(0).is_empty());
    ring.clear();
    assert!(ring.tail(5).is_empty());
}

#[test]
fn log_ring_of_zero_keeps_one_line() {
    let mut ring = LogRing::new(0);
    ring.push(line(1, "a"));
    ring.push(line(2, "b"));
    let all = ring.tail(5);
    assert_eq!(all.len(), 1);
    assert_eq!(all[0].text, "b");
}

#[test]
fn register_marks_robot_online() {
    let mut reg = Registry::new(swarm());
    let notices = register(&mut reg, "tb-01", 1_000);
    assert!(matches!(&notices[..], [Notice::Robot { id }] if id == "tb-01"));
    let v = reg.view_at("tb-01", 1_500);
    assert!(v.connected);
    assert_eq!(v.name, "turtle");
    assert_eq!(v.kind, "tb");
    assert_eq!(v.address.as_deref(), Some("10.0.0.5"));
    assert!(v.simulated);
    assert_eq!(v.agent_version, "1.2.3");
    assert_eq!(v.hostname.as_deref(), Some("host-a"));
    assert_eq!(v.last_seen_ms, 1_000);
    // Silent for too long: shown offline.
    let v = reg.view_at("tb-01", 1_000 + STALE_AFTER_MS);
    assert!(!v.connected);
    assert_eq!(v.last_seen_ms, 0);
}

#[test]
fn unknown_robot_view_is_blank() {
    let reg = Registry::new(swarm());
    let v = reg.view_at("nobody", 5);
    assert_eq!(v.id, "");
    assert!(!v.connected);
    let v = reg.view_at("tb-01", 5);
    assert_eq!(v.id, "tb-01");
    assert_eq!(v.name, "turtle");
    assert_eq!(reg.all_views_at(5).len(), 1);
}

#[test]
fn heartbeat_and_status_update_a_known_robot() {
    let mut reg = Registry::new(swarm());
    register(&mut reg, "tb-01", 100);
    reg.apply_report("tb-01", &Report::Heartbeat, 200);
    assert_eq!(reg.view_at("tb-01", 200).last_seen_ms, 200);
    reg.apply_report("tb-01", &Report::Status { active_action_id: "r1:tb-01".into() }, 300);
    assert_eq!(reg.robots.get("tb-01").unwrap().active_action_id.as_deref(), Some("r1:tb-01"));
    // Active only shows once its metadata is known.
    assert!(reg.view_at("tb-01", 300).active.is_none());
    reg.apply_report("tb-01", &Report::Status { active_action_id: String::new() }, 400);
    assert!(reg.robots.get("tb-01").unwrap().active_action_id.is_none());
    // Reports from robots never registered change nothing.
    reg.apply_report("ghost", &Report::Heartbeat, 500);
    assert!(!reg.robots.contains_key("ghost"));
}

#[test]
fn log_reports_are_decoded_and_queued() {
    let mut reg = Registry::new(swarm());
    register(&mut reg, "tb-01", 100);
    reg.apply_report("tb-01", &Report::Log { action_id: "a".into(), data: b"hello".to_vec(), stderr: false }, 110);
    reg.apply_report("tb-01", &Report::Log { action_id: "a".into(), data: vec![b'o', 0xff, b'k'], stderr: true }, 120);
    let lines = reg.logs("tb-01", 10);
    assert_eq!(lines.len(), 2);
    assert_eq!(lines[0].text, "hello");
    assert_eq!(lines[1].text, "o\u{fffd}k");
    assert!(lines[1].stderr);
    assert_eq!(lines[1].ts_ms, 120);
    let events = reg.take_pending_logs();
    assert_eq!(events.len(), 1);
    match &events[0] {
        Event::Logs { robot, lines } => {
            assert_eq!(robot, "tb-01");
            assert_eq!(lines.len(), 2);
        }
        other => panic!("unexpected {other:?}"),
    }
    assert!(reg.take_pending_logs().is_empty());
    reg.clear_logs();
    assert!(reg.logs("tb-01", 10).is_empty());
}

#[test]
fn results_finish_runs() {
    let mut reg = Registry::new(swarm());
    register(&mut reg, "tb-01", 100);
    let mut group = RunGroup::new("r1".into(), "tb.go".into(), 50, None, 0);
    group.robots.insert("tb-01".into(), RunRobotStatus::Running { action_id: "r1:tb-01".into(), started_ms: 60 });
    reg.run_store.insert(group);
    reg.mark_action_started("tb-01", "r1:tb-01".into(), "tb.go".into(), "go --fast".into(), 150);
    let active = reg.view_at("tb-01", 120).active.unwrap();
    assert_eq!(active.action_id, "r1:tb-01");
    assert_eq!(active.action_name, "tb.go");
    assert_eq!(active.command, "go --fast");
    assert_eq!(active.started_ms, 150);
    let notices = reg.apply_report(
        "tb-01",
        &Report::Result {
            action_id: "r1:tb-01".into(),
            exit_code: 3,
            killed: false,
            error: String::new(),
            started_ms: 60,
            finished_ms: 130,
        },
        130,
    );
    assert_eq!(notices.len(), 2);
    match &notices[0] {
        Notice::Run { run } => match &run.robots[0].1 {
            RunRobotStatus::Failed { error } => assert_eq!(error, "exit code 3"),
            other => panic!("unexpected {other:?}"),
        },
        other => panic!("unexpected {other:?}"),
    }
    assert!(matches!(&notices[1], Notice::Robot { id } if id == "tb-01"));
    assert!(reg.view_at("tb-01", 130).active.is_none());
    assert!(reg.run_store.run_finished("r1"));
    assert!(reg.run_store.run_failed("r1"));
}

#[test]
fn clean_and_killed_results_are_done() {
    let mut reg = Registry::new(swarm());
    let mut group = RunGroup::new("r2".into(), "x".into(), 1, None, 0);
    group.robots.insert("a".into(), RunRobotStatus::Queued);
    group.robots.insert("b".into(), RunRobotStatus::Queued);
    reg.run_store.insert(group);
    let ok = Report::Result { action_id: "r2:a".into(), exit_code: 0, killed: false, error: String::new(), started_ms: 1, finished_ms: 9 };
    reg.apply_report("a", &ok, 10);
    let killed = Report::Result { action_id: "r2:b".into(), exit_code: 143, killed: true, error: String::new(), started_ms: 1, finished_ms: 11 };
    reg.apply_report("b", &killed, 12);
    let run = reg.run_store.get("r2").unwrap();
    assert!(matches!(run.robots[0].1, RunRobotStatus::Done { exit_code: 0, killed: false, finished_ms: 9 }));
    assert!(matches!(run.robots[1].1, RunRobotStatus::Done { exit_code: 143, killed: true, finished_ms: 11 }));
    assert!(!reg.run_store.run_failed("r2"));
}

#[test]
fn refused_acks_fail_the_robot() {
    let mut reg = Registry::new(swarm());
    let mut group = RunGroup::new("r3".into(), "x".into(), 1, None, 0);
    group.robots.insert("a".into(), RunRobotStatus::Queued);
    reg.run_store.insert(group);
    let accepted = reg.apply_report("a", &Report::Ack { action_id: "r3:a".into(), accepted: true, reason: String::new() }, 5);
    assert!(accepted.is_empty());
    let refused = reg.apply_report("a", &Report::Ack { action_id: "r3:a".into(), accepted: false, reason: "busy".into() }, 6);
    assert_eq!(refused.len(), 1);
    let run = reg.run_store.get("r3").unwrap();
    assert!(matches!(&run.robots[0].1, RunRobotStatus::Failed { error } if error == "busy"));
    // An id without a run part changes nothing.
    assert!(reg.apply_report("a", &Report::Ack { action_id: "plain".into(), accepted: false, reason: "x".into() }, 7).is_empty());
}

#[test]
fn only_the_current_session_can_disconnect() {
    let mut reg = Registry::new(swarm());
    let (tx1, _rx1) = tokio::sync::mpsc::unbounded_channel::<Command>();
    let (tx2, _rx2) = tokio::sync::mpsc::unbounded_channel::<Command>();
    let s1 = reg.set_cmd_tx("tb-01", tx1);
    register(&mut reg, "tb-01", 100);
    let s2 = reg.set_cmd_tx("tb-01", tx2);
    assert_eq!(s1, 1);
    assert_eq!(s2, 2);
    assert!(reg.disconnect("tb-01", s1).is_empty());
    assert!(reg.cmd_tx("tb-01").is_some());
    assert!(reg.view_at("tb-01", 100).connected);
    assert_eq!(reg.disconnect("tb-01", s2).len(), 1);
    assert!(reg.cmd_tx("tb-01").is_none());
    assert!(!reg.view_at("tb-01", 100).connected);
}

#[test]
fn staleness_sweep_flips_silent_robots() {
    let mut reg = Registry::new(swarm());
    let (tx, _rx) = tokio::sync::mpsc::unbounded_channel::<Command>();
    reg.set_cmd_tx("tb-01", tx);
    register(&mut reg, "tb-01", 1_000);
    assert!(reg.sweep_stale_at(2_000).is_empty());
    let flipped = reg.sweep_stale_at(1_000 + STALE_AFTER_MS);
    assert!(matches!(&flipped[..], [Notice::Robot { id }] if id == "tb-01"));
    let e = reg.robots.get("tb-01").unwrap();
    assert!(!e.connected);
    assert_eq!(e.last_seen_ms, 0);
    assert!(reg.sweep_stale_at(1_000 + STALE_AFTER_MS).is_empty());
}

#[test]
fn adopt_and_release() {
    let mut reg = Registry::new(swarm());
    register(&mut reg, "pi-7", 10);
    assert!(matches!(reg.adopt("pi-7", "rover", None), Err(swarmdeck::error::ConfigError::UnknownRobotType { .. })));
    match reg.adopt("tb-01", "tb", None) {
        Err(swarmdeck::error::ConfigError::DuplicateRobotId { id, first }) => {
            assert_eq!(id, "tb-01");
            assert_eq!(first, "turtle");
        }
        other => panic!("unexpected {other:?}"),
    }
    assert!(reg.adopt("pi-7", "tb", Some("Pi")).is_ok());
    assert_eq!(reg.config.robots.len(), 2);
    assert!(reg.config.robots[1].adopted);
    let v = reg.view_at("pi-7", 10);
    assert!(v.adopted);
    assert_eq!(v.name, "Pi");
    assert_eq!(v.kind, "tb");
    assert!(reg.release("pi-7").is_ok());
    assert_eq!(reg.config.robots.len(), 1);
    let v = reg.view_at("pi-7", 10);
    assert!(!v.adopted);
    assert_eq!(v.name, "pi-7");
    assert_eq!(v.kind, "");
    assert!(matches!(reg.release("nobody"), Err(swarmdeck::error::ConfigError::UnknownRobot { .. })));
}

#[test]
fn all_views_list_entries_then_configured_robots() {
    let mut reg = Registry::new(swarm());
    register(&mut reg, "zz-9", 10);
    let views = reg.all_views_at(10);
    let ids: Vec<&str> = views.iter().map(|v| v.id.as_str()).collect();
    assert_eq!(ids, vec!["zz-9", "tb-01"]);
}

#[test]
fn clock_reads_after_the_epoch() {
    let a = now_ms();
    assert!(a > 1_500_000_000_000);
    let b = now_ms();
    assert!(b >= a);
    let reg = Registry::new(swarm());
    assert_eq!(reg.view("tb-01").id, "tb-01");
    assert_eq!(reg.all_views().len(), 1);
}

#[test]
fn reload_puts_the_new_config_in_place() {
    let mut reg = Registry::new(swarm());
    let mut next = swarm();
    next.robots.clear();
    let views = reg.reload_config(next);
    assert!(views.is_empty());
    assert!(reg.config.robots.is_empty());
    assert_eq!(reg.all_views_at(5).len(), 0);
}

fn registration(id: &str, code: &str) -> Report {
    Report::Register {
        robot_id: id.into(),
        id_code: code.into(),
        agent_version: "1.2.3".into(),
        hostname: "host-a".into(),
        name: String::new(),
    }
}

#[test]
fn sessions_open_only_with_the_right_registration() {
    let mut reg = Registry::new(swarm());
    let (tx, _rx) = tokio::sync::mpsc::unbounded_channel::<Command>();
    let r = reg.open_session(&Report::Heartbeat, tx.clone());
    assert!(matches!(r, Err(SessionRefusal::NotRegistered)));
    assert_eq!(SessionRefusal::NotRegistered.message(), "first report must be a register");
    let r = reg.open_session(&registration("tb-01", "wrong"), tx.clone());
    assert!(matches!(r, Err(SessionRefusal::WrongIdCode)));
    assert_eq!(SessionRefusal::WrongIdCode.message(), "registration rejected: id_code mismatch");
    assert!(!reg.view("tb-01").connected);
    let (seq, notices) = reg.open_session(&registration("tb-01", "s3cret"), tx.clone()).unwrap();
    assert!(matches!(&notices[..], [Notice::Robot { id }] if id == "tb-01"));
    assert!(reg.view("tb-01").connected);
    assert!(reg.cmd_tx("tb-01").is_some());
    let (seq2, _) = reg.open_session(&registration("tb-01", "s3cret"), tx).unwrap();
    assert_ne!(seq, seq2);
    // The first session's end no longer disconnects the robot.
    reg.disconnect("tb-01", seq);
    assert!(reg.view("tb-01").connected);
}
