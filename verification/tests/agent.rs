use swarmdeck::agent::{controller_url, tls_domain, exit_outcome, log_text, spawn_ack, Report, Runner, RunningEntry, WaitOutcome};

fn entry(pid: u32, kill_on_disconnect: bool, started_ms: u64) -> RunningEntry {
    RunningEntry { pid, kill_on_disconnect, background: false, started_ms }
}

#[test]
fn runner_tracks_started_actions() {
    let mut r = Runner::new();
    assert_eq!(r.active_action(), None);
    r.start("run-b:tb-01".to_string(), entry(20, true, 200));
    r.start("run-a:tb-01".to_string(), entry(10, false, 100));
    assert_eq!(r.active_action(), Some(("run-a:tb-01".to_string(), 100)));
    assert!(matches!(r.status_report(), Report::Status { active_action_id } if active_action_id == "run-a:tb-01"));
    r.finish("run-a:tb-01");
    assert_eq!(r.active_action(), Some(("run-b:tb-01".to_string(), 200)));
}

#[test]
fn kill_gives_the_process_group_once() {
    let mut r = Runner::new();
    r.start("a".to_string(), entry(42, false, 1));
    assert_eq!(r.kill("a"), Some(42));
    assert_eq!(r.kill("a"), None);
    assert_eq!(r.kill("nothing"), None);
    assert!(matches!(r.status_report(), Report::Status { active_action_id } if active_action_id.is_empty()));
}

#[test]
fn only_flagged_actions_die_with_the_session() {
    let mut r = Runner::new();
    r.start("c".to_string(), entry(3, true, 1));
    r.start("a".to_string(), entry(1, true, 1));
    r.start("b".to_string(), entry(2, false, 1));
    assert_eq!(r.kill_on_disconnect_all(), vec![("a".to_string(), 1), ("c".to_string(), 3)]);
}

#[test]
fn exit_outcomes() {
    assert_eq!(exit_outcome(WaitOutcome::TimedOut), (None, Some("timed out".to_string())));
    assert_eq!(exit_outcome(WaitOutcome::Exited(Some(0))), (Some(0), None));
    assert_eq!(exit_outcome(WaitOutcome::Exited(Some(3))), (Some(3), None));
    assert_eq!(exit_outcome(WaitOutcome::Exited(Some(-1))), (None, None));
    assert_eq!(exit_outcome(WaitOutcome::Exited(None)), (None, None));
    assert_eq!(exit_outcome(WaitOutcome::Failed("boom".to_string())), (None, Some("boom".to_string())));
}

#[test]
fn log_lines_lose_their_line_ends() {
    assert_eq!(log_text("hello\n"), Some("hello".to_string()));
    assert_eq!(log_text("hello\r\n"), Some("hello".to_string()));
    assert_eq!(log_text("a\nb\r\n\r\n"), Some("a\nb".to_string()));
    assert_eq!(log_text("  x  \n"), Some("  x  ".to_string()));
    assert_eq!(log_text("\r\n"), None);
    assert_eq!(log_text(""), None);
}

#[test]
fn spawn_acks() {
    match spawn_ack("a".to_string(), None) {
        Report::Ack { action_id, accepted, reason } => {
            assert_eq!(action_id, "a");
            assert!(accepted);
            assert!(reason.is_empty());
        }
        other => panic!("unexpected {other:?}"),
    }
    match spawn_ack("b".to_string(), Some("no such file".to_string())) {
        Report::Ack { action_id, accepted, reason } => {
            assert_eq!(action_id, "b");
            assert!(!accepted);
            assert_eq!(reason, "no such file");
        }
        other => panic!("unexpected {other:?}"),
    }
}

#[test]
fn background_actions_are_not_active() {
    let mut r = Runner::new();
    r.start("a-launch".to_string(), RunningEntry { pid: 1, kill_on_disconnect: true, background: true, started_ms: 5 });
    assert_eq!(r.active_action(), None);
    r.start("b-task".to_string(), entry(2, false, 7));
    assert_eq!(r.active_action(), Some(("b-task".to_string(), 7)));
    assert!(matches!(r.status_report(), Report::Status { active_action_id } if active_action_id == "b-task"));
}

#[test]
fn killed_actions_report_killed() {
    let mut r = Runner::new();
    r.start("a".to_string(), entry(7, false, 5));
    r.start("b".to_string(), entry(8, false, 6));
    assert_eq!(r.kill("a"), Some(7));
    match r.done_event("a".to_string(), WaitOutcome::Exited(None), 5, 9) {
        swarmdeck::agent::RunnerEvent::Done { action_id, exit_code, killed, error, started_ms, finished_ms } => {
            assert_eq!(action_id, "a");
            assert_eq!(exit_code, None);
            assert!(killed);
            assert_eq!(error, None);
            assert_eq!((started_ms, finished_ms), (5, 9));
        }
        other => panic!("unexpected {other:?}"),
    }
    // Reported once: a second end of the same id is not a kill.
    assert!(!r.finish("a"));
    match r.done_event("b".to_string(), WaitOutcome::Exited(Some(0)), 6, 10) {
        swarmdeck::agent::RunnerEvent::Done { killed, exit_code, .. } => {
            assert!(!killed);
            assert_eq!(exit_code, Some(0));
        }
        other => panic!("unexpected {other:?}"),
    }
}

#[test]
fn session_drop_kills_are_reported_killed() {
    let mut r = Runner::new();
    r.start("a".to_string(), entry(1, true, 1));
    r.start("b".to_string(), entry(2, false, 1));
    assert_eq!(r.kill_on_disconnect_all(), vec![("a".to_string(), 1)]);
    assert!(r.finish("a"));
    assert!(!r.finish("b"));
}

fn agent_cfg(endpoint: &str, tls: bool, server_name: Option<&str>) -> swarmdeck::config::AgentConfig {
    swarmdeck::config::AgentConfig {
        robot_id: "tb-01".into(),
        name: Some("Turtle".into()),
        controller: swarmdeck::config::AgentControllerConfig {
            endpoint: endpoint.into(),
            id_code: "secret".into(),
            tls,
            ca: None,
            server_name: server_name.map(String::from),
        },
        env: swarmdeck::strmap::StrMap::new(),
    }
}

#[test]
fn session_addresses() {
    let c = agent_cfg("host.lan:50051", true, None);
    assert_eq!(controller_url(&c.controller), "https://host.lan:50051");
    assert_eq!(tls_domain(&c.controller), "host.lan");
    let c = agent_cfg("10.0.0.2", false, Some("deck.example"));
    assert_eq!(controller_url(&c.controller), "http://10.0.0.2");
    assert_eq!(tls_domain(&c.controller), "deck.example");
}

#[test]
fn registration_carries_identity() {
    let c = agent_cfg("h:1", false, None);
    match swarmdeck::agent::registration(&c, "0.3.0", "rover\n") {
        Report::Register { robot_id, id_code, agent_version, hostname, name } => {
            assert_eq!((robot_id.as_str(), id_code.as_str()), ("tb-01", "secret"));
            assert_eq!(agent_version, "0.3.0");
            assert_eq!(hostname, "rover");
            assert_eq!(name, "Turtle");
        }
        other => panic!("unexpected {other:?}"),
    }
}
