use swarmdeck::config::RobotConfig;
use swarmdeck::error::TemplateError;
use swarmdeck::strmap::StrMap;
use swarmdeck::template::resolve_command;

fn robot() -> RobotConfig {
    let mut vars = StrMap::new();
    vars.insert("ns".to_string(), "tb01".to_string());
    RobotConfig {
        id: "tb-01".into(),
        name: Some("turtlebot-1".into()),
        kind: "turtlebot3".into(),
        address: Some("10.0.0.21".into()),
        simulated: false,
        vars,
        env: StrMap::new(),
        adopted: false,
    }
}

#[test]
fn resolves_placeholders() {
    let spec = resolve_command(
        "ros2 launch x ns:={{vars.ns}} id:={{robot_id}}",
        &robot(),
        None,
        &StrMap::new(),
        None,
    )
    .unwrap();
    assert_eq!(spec.command, "ros2 launch x ns:=tb01 id:=tb-01");
}

#[test]
fn leaves_shell_braces_alone() {
    let spec = resolve_command("echo ${HOME} {1..3}", &robot(), None, &StrMap::new(), None).unwrap();
    assert_eq!(spec.command, "echo ${HOME} {1..3}");
}

#[test]
fn unknown_var_is_error() {
    let err = resolve_command("x {{vars.nope}}", &robot(), None, &StrMap::new(), None).unwrap_err();
    assert!(matches!(err, TemplateError::UnknownPlaceholder { .. }));
}

#[test]
fn unknown_var_names_the_key() {
    let err = resolve_command("x {{ vars.nope }}", &robot(), None, &StrMap::new(), None).unwrap_err();
    match err {
        TemplateError::UnknownPlaceholder { name } => assert_eq!(name, "nope"),
        other => panic!("unexpected {other:?}"),
    }
}

#[test]
fn unknown_placeholder_names_the_trimmed_expression() {
    let err = resolve_command("{{  bogus }}", &robot(), None, &StrMap::new(), None).unwrap_err();
    match err {
        TemplateError::UnknownPlaceholder { name } => assert_eq!(name, "bogus"),
        other => panic!("unexpected {other:?}"),
    }
}

#[test]
fn unclosed_placeholder_is_error() {
    let err = resolve_command("echo {{robot_id", &robot(), None, &StrMap::new(), None).unwrap_err();
    assert!(matches!(err, TemplateError::Unclosed));
    assert_eq!(err.message(), "unclosed placeholder in template");
}

#[test]
fn all_robot_placeholders() {
    let spec = resolve_command(
        "{{robot_name}}/{{robot_type}}/{{ address }}/{{robot_id}}",
        &robot(),
        Some(7),
        &StrMap::new(),
        Some("/tmp".to_string()),
    )
    .unwrap();
    assert_eq!(spec.command, "turtlebot-1/turtlebot3/10.0.0.21/tb-01");
    assert_eq!(spec.timeout_sec, Some(7));
    assert_eq!(spec.cwd.as_deref(), Some("/tmp"));
}

#[test]
fn missing_address_is_empty_and_name_falls_back_to_id() {
    let mut r = robot();
    r.address = None;
    r.name = None;
    let spec = resolve_command("[{{address}}] {{robot_name}}", &r, None, &StrMap::new(), None).unwrap();
    assert_eq!(spec.command, "[] tb-01");
}

#[test]
fn non_ascii_text_is_copied_as_is() {
    let spec = resolve_command("é {{robot_id}} ✓", &robot(), None, &StrMap::new(), None).unwrap();
    assert_eq!(spec.command, "é tb-01 ✓");
}

#[test]
fn action_env_overrides_robot_env() {
    let mut r = robot();
    r.env.insert("A".to_string(), "robot".to_string());
    r.env.insert("B".to_string(), "robot".to_string());
    let mut extra = StrMap::new();
    extra.insert("B".to_string(), "action".to_string());
    extra.insert("C".to_string(), "action".to_string());
    let spec = resolve_command("true", &r, None, &extra, None).unwrap();
    assert_eq!(spec.env.get("A").map(String::as_str), Some("robot"));
    assert_eq!(spec.env.get("B").map(String::as_str), Some("action"));
    assert_eq!(spec.env.get("C").map(String::as_str), Some("action"));
    assert_eq!(spec.env.len(), 3);
}

#[test]
fn template_error_text() {
    let err = TemplateError::UnknownPlaceholder { name: "vars.x".to_string() };
    assert_eq!(err.message(), "unknown placeholder 'vars.x' in command template");
}
