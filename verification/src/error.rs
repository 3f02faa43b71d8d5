//! Errors raised while loading configuration, resolving targets and
//! rendering command templates.

use vstd::prelude::*;

verus! {

#[derive(Debug, Clone)]
pub enum ConfigError {
    /// The configuration text is not valid TOML for its schema.
    Toml(String),
    /// Reading a configuration file failed.
    Io(String),
    UnknownRobotType { robot: String, kind: String },
    DuplicateRobotId { id: String, first: String },
    UnadoptedRobot { robot: String },
    UnknownRobot { id: String },
    BadActionRef,
    BadSwarmActionName { action: String },
    UnknownAction { kind: String, action: String },
    UnknownSwarmAction { action: String },
    ConfirmRequired { action: String, count: usize },
    ConfigCycle { path: String },
    MissingRobotId,
    MissingTypesDir { path: String },
    UnknownWorkflowAction { workflow: String, step: usize, action: String },
    UnknownWorkflow { name: String },
}

pub enum ConfigErrorModel {
    Toml(Seq<char>),
    Io(Seq<char>),
    UnknownRobotType { robot: Seq<char>, kind: Seq<char> },
    DuplicateRobotId { id: Seq<char>, first: Seq<char> },
    UnadoptedRobot { robot: Seq<char> },
    UnknownRobot { id: Seq<char> },
    BadActionRef,
    BadSwarmActionName { action: Seq<char> },
    UnknownAction { kind: Seq<char>, action: Seq<char> },
    UnknownSwarmAction { action: Seq<char> },
    ConfirmRequired { action: Seq<char>, count: usize },
    ConfigCycle { path: Seq<char> },
    MissingRobotId,
    MissingTypesDir { path: Seq<char> },
    UnknownWorkflowAction { workflow: Seq<char>, step: usize, action: Seq<char> },
    UnknownWorkflow { name: Seq<char> },
}

impl DeepView for ConfigError {
    type V = ConfigErrorModel;

    open spec fn deep_view(&self) -> ConfigErrorModel {
        match self {
            ConfigError::Toml(m) => ConfigErrorModel::Toml(m@),
            ConfigError::Io(m) => ConfigErrorModel::Io(m@),
            ConfigError::UnknownRobotType { robot, kind } => ConfigErrorModel::UnknownRobotType {
                robot: robot@,
                kind: kind@,
            },
            ConfigError::DuplicateRobotId { id, first } => ConfigErrorModel::DuplicateRobotId {
                id: id@,
                first: first@,
            },
            ConfigError::UnadoptedRobot { robot } => ConfigErrorModel::UnadoptedRobot {
                robot: robot@,
            },
            ConfigError::UnknownRobot { id } => ConfigErrorModel::UnknownRobot { id: id@ },
            ConfigError::BadActionRef => ConfigErrorModel::BadActionRef,
            ConfigError::BadSwarmActionName { action } => ConfigErrorModel::BadSwarmActionName {
                action: action@,
            },
            ConfigError::UnknownAction { kind, action } => ConfigErrorModel::UnknownAction {
                kind: kind@,
                action: action@,
            },
            ConfigError::UnknownSwarmAction { action } => ConfigErrorModel::UnknownSwarmAction {
                action: action@,
            },
            ConfigError::ConfirmRequired { action, count } => ConfigErrorModel::ConfirmRequired {
                action: action@,
                count: *count,
            },
            ConfigError::ConfigCycle { path } => ConfigErrorModel::ConfigCycle { path: path@ },
            ConfigError::MissingRobotId => ConfigErrorModel::MissingRobotId,
            ConfigError::MissingTypesDir { path } => ConfigErrorModel::MissingTypesDir {
                path: path@,
            },
            ConfigError::UnknownWorkflowAction { workflow, step, action } =>
                ConfigErrorModel::UnknownWorkflowAction {
                workflow: workflow@,
                step: *step,
                action: action@,
            },
            ConfigError::UnknownWorkflow { name } => ConfigErrorModel::UnknownWorkflow {
                name: name@,
            },
        }
    }
}

#[derive(Debug, Clone)]
pub enum TemplateError {
    UnknownPlaceholder { name: String },
    Unclosed,
}

pub enum TemplateErrorModel {
    UnknownPlaceholder { name: Seq<char> },
    Unclosed,
}

impl DeepView for TemplateError {
    type V = TemplateErrorModel;

    open spec fn deep_view(&self) -> TemplateErrorModel {
        match self {
            TemplateError::UnknownPlaceholder { name } => TemplateErrorModel::UnknownPlaceholder {
                name: name@,
            },
            TemplateError::Unclosed => TemplateErrorModel::Unclosed,
        }
    }
}

} // verus!

verus! {

/// `a`, `b` and `c` one after another.
fn join3(a: &str, b: &str, c: &str) -> (r: String)
    ensures
        r@ == a@ + b@ + c@,
{
    let mut s = String::from_str(a);
    s.append(b);
    s.append(c);
    s
}

/// `a` then `b`.
fn join2(a: &str, b: &str) -> (r: String)
    ensures
        r@ == a@ + b@,
{
    let mut s = String::from_str(a);
    s.append(b);
    s
}

/// `a` to `e` one after another.
fn join5(a: &str, b: &str, c: &str, d: &str, e: &str) -> (r: String)
    ensures
        r@ == a@ + b@ + c@ + d@ + e@,
{
    let mut s = join3(a, b, c);
    s.append(d);
    s.append(e);
    s
}

/// The text a configuration error is reported with.
pub open spec fn config_error_text(e: ConfigErrorModel) -> Seq<char> {
    match e {
        ConfigErrorModel::Toml(m) => "failed to parse TOML: "@ + m,
        ConfigErrorModel::Io(m) => "i/o error: "@ + m,
        ConfigErrorModel::UnknownRobotType { robot, kind } => "robot '"@ + robot
            + "' references unknown robot type '"@ + kind + "'"@,
        ConfigErrorModel::DuplicateRobotId { id, first } => "duplicate robot id '"@ + id
            + "' (also used by '"@ + first + "')"@,
        ConfigErrorModel::UnadoptedRobot { robot } => "robot '"@ + robot
            + "' is not defined in the swarm and has no type; adopt it first"@,
        ConfigErrorModel::UnknownRobot { id } => "unknown robot id '"@ + id + "'"@,
        ConfigErrorModel::BadActionRef => "action reference must be '<type>.<action>' or a swarm action name"@,
        ConfigErrorModel::BadSwarmActionName { action } => "swarm action name must not contain '.' (got '"@
            + action + "')"@,
        ConfigErrorModel::UnknownAction { kind, action } => "unknown action '"@ + action
            + "' for robot type '"@ + kind + "'"@,
        ConfigErrorModel::UnknownSwarmAction { action } => "unknown swarm action '"@ + action + "'"@,
        ConfigErrorModel::ConfirmRequired { action, count } => "action '"@ + action + "' targets "@
            + crate::text::decimal_seq(count as u64)
            + " robots and is flagged dangerous; confirm with confirm=true"@,
        ConfigErrorModel::ConfigCycle { path } => "agent config `extends` cycle at '"@ + path + "'"@,
        ConfigErrorModel::MissingRobotId => "agent config is missing `robot_id` (set it in the per-agent TOML or pass --robot-id)"@,
        ConfigErrorModel::MissingTypesDir { path } => "robot types directory '"@ + path
            + "' does not exist"@,
        ConfigErrorModel::UnknownWorkflowAction { workflow, step, action } => "workflow '"@ + workflow
            + "' step "@ + crate::text::decimal_seq(step as u64) + " references unknown action '"@
            + action + "'"@,
        ConfigErrorModel::UnknownWorkflow { name } => "unknown workflow '"@ + name + "'"@,
    }
}

impl ConfigError {
    /// The text the error is reported with.
    pub fn message(&self) -> (r: String)
        ensures
            r@ == config_error_text(self.deep_view()),
    {
        match self {
            ConfigError::Toml(m) => join2("failed to parse TOML: ", m.as_str()),
            ConfigError::Io(m) => join2("i/o error: ", m.as_str()),
            ConfigError::UnknownRobotType { robot, kind } => join5(
                "robot '",
                robot.as_str(),
                "' references unknown robot type '",
                kind.as_str(),
                "'",
            ),
            ConfigError::DuplicateRobotId { id, first } => join5(
                "duplicate robot id '",
                id.as_str(),
                "' (also used by '",
                first.as_str(),
                "')",
            ),
            ConfigError::UnadoptedRobot { robot } => join3(
                "robot '",
                robot.as_str(),
                "' is not defined in the swarm and has no type; adopt it first",
            ),
            ConfigError::UnknownRobot { id } => join3("unknown robot id '", id.as_str(), "'"),
            ConfigError::BadActionRef => String::from_str(
                "action reference must be '<type>.<action>' or a swarm action name",
            ),
            ConfigError::BadSwarmActionName { action } => join3(
                "swarm action name must not contain '.' (got '",
                action.as_str(),
                "')",
            ),
            ConfigError::UnknownAction { kind, action } => join5(
                "unknown action '",
                action.as_str(),
                "' for robot type '",
                kind.as_str(),
                "'",
            ),
            ConfigError::UnknownSwarmAction { action } => join3(
                "unknown swarm action '",
                action.as_str(),
                "'",
            ),
            ConfigError::ConfirmRequired { action, count } => {
                let n = crate::text::decimal(*count as u64);
                join5(
                    "action '",
                    action.as_str(),
                    "' targets ",
                    n.as_str(),
                    " robots and is flagged dangerous; confirm with confirm=true",
                )
            },
            ConfigError::ConfigCycle { path } => join3(
                "agent config `extends` cycle at '",
                path.as_str(),
                "'",
            ),
            ConfigError::MissingRobotId => String::from_str(
                "agent config is missing `robot_id` (set it in the per-agent TOML or pass --robot-id)",
            ),
            ConfigError::MissingTypesDir { path } => join3(
                "robot types directory '",
                path.as_str(),
                "' does not exist",
            ),
            ConfigError::UnknownWorkflowAction { workflow, step, action } => {
                let head = join5(
                    "workflow '",
                    workflow.as_str(),
                    "' step ",
                    crate::text::decimal(*step as u64).as_str(),
                    " references unknown action '",
                );
                let r = join3(head.as_str(), action.as_str(), "'");
                assert(r@ =~= config_error_text(self.deep_view()));
                r
            },
            ConfigError::UnknownWorkflow { name } => join3("unknown workflow '", name.as_str(), "'"),
        }
    }
}

/// The text a template error is reported with.
pub open spec fn template_error_text(e: TemplateErrorModel) -> Seq<char> {
    match e {
        TemplateErrorModel::UnknownPlaceholder { name } => "unknown placeholder '"@ + name
            + "' in command template"@,
        TemplateErrorModel::Unclosed => "unclosed placeholder in template"@,
    }
}

impl TemplateError {
    /// The text the error is reported with.
    pub fn message(&self) -> (r: String)
        ensures
            r@ == template_error_text(self.deep_view()),
    {
        match self {
            TemplateError::UnknownPlaceholder { name } => join3(
                "unknown placeholder '",
                name.as_str(),
                "' in command template",
            ),
            TemplateError::Unclosed => String::from_str("unclosed placeholder in template"),
        }
    }
}

} // verus!
