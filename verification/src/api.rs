//! Data shared between the control host's HTTP/WS API and its clients.
//! Each type has a model (its deep view) over which contracts are stated.

use vstd::prelude::*;

use crate::strmap::Duplicate;
use crate::text::{find_char, index_of_char};

verus! {

/// Batch target selector, resolved against the swarm by the host.
#[derive(Debug, Clone)]
pub enum ApiTargets {
    All,
    Robots(Vec<String>),
    Types(Vec<String>),
    /// Substring matched against robot id and name.
    Name(String),
}

pub enum ApiTargetsModel {
    All,
    Robots(Seq<Seq<char>>),
    Types(Seq<Seq<char>>),
    Name(Seq<char>),
}

impl DeepView for ApiTargets {
    type V = ApiTargetsModel;

    open spec fn deep_view(&self) -> ApiTargetsModel {
        match self {
            ApiTargets::All => ApiTargetsModel::All,
            ApiTargets::Robots(v) => ApiTargetsModel::Robots(v.deep_view()),
            ApiTargets::Types(v) => ApiTargetsModel::Types(v.deep_view()),
            ApiTargets::Name(n) => ApiTargetsModel::Name(n@),
        }
    }
}

impl Default for ApiTargets {
    fn default() -> (r: Self)
        ensures
            r is All,
    {
        ApiTargets::All
    }
}

#[derive(Debug, Clone)]
pub struct RunRequest {
    /// `<type>.<action>` (e.g. `turtlebot3.bringup`) or a swarm action name.
    pub action: String,
    pub targets: ApiTargets,
    /// Overrides the action's configured timeout.
    pub timeout_sec: Option<u64>,
    /// The operator confirmed the batch (required for dangerous actions
    /// targeting more than one robot).
    pub confirm: bool,
    /// Run as a background action that does not block other dispatches.
    pub background: bool,
}

#[derive(Debug, Clone)]
pub struct RunResponse {
    pub run_id: String,
    pub action: String,
    pub targeted: Vec<String>,
    /// Robots skipped because another action is running there.
    pub busy: Vec<String>,
    /// Robots skipped because they are offline.
    pub offline: Vec<String>,
}

pub struct RunResponseModel {
    pub run_id: Seq<char>,
    pub action: Seq<char>,
    pub targeted: Seq<Seq<char>>,
    pub busy: Seq<Seq<char>>,
    pub offline: Seq<Seq<char>>,
}

impl DeepView for RunResponse {
    type V = RunResponseModel;

    open spec fn deep_view(&self) -> RunResponseModel {
        RunResponseModel {
            run_id: self.run_id@,
            action: self.action@,
            targeted: self.targeted.deep_view(),
            busy: self.busy.deep_view(),
            offline: self.offline.deep_view(),
        }
    }
}

#[derive(Debug, Clone)]
pub struct StopRequest {
    pub targets: ApiTargets,
    pub confirm: bool,
}

#[derive(Debug, Clone)]
pub struct AdoptRequest {
    pub kind: String,
    pub name: Option<String>,
}

/// Request to start a named workflow.
#[derive(Debug, Clone)]
pub struct WorkflowRunRequest {
    pub workflow: String,
    pub confirm: bool,
}

/// Dispatchable actions: robot-type actions as `"<type>.<action>"` refs,
/// plus swarm-level actions by bare name.
#[derive(Debug, Clone)]
pub struct ActionsView {
    pub robot_type: Vec<String>,
    pub swarm: Vec<String>,
}

/// Summary of the loaded swarm config.
#[derive(Debug, Clone)]
pub struct ConfigView {
    pub controller: String,
    pub robot_types: Vec<String>,
    pub robot_count: usize,
    pub grpc_listen: String,
    pub ui_bind: String,
}

/// Live snapshot of one robot.
#[derive(Debug, Clone)]
pub struct RobotView {
    pub id: String,
    pub name: String,
    pub kind: String,
    pub address: Option<String>,
    pub simulated: bool,
    pub adopted: bool,
    pub connected: bool,
    pub agent_version: String,
    pub hostname: Option<String>,
    pub last_seen_ms: u64,
    pub active: Option<ActiveView>,
}

pub struct RobotViewModel {
    pub id: Seq<char>,
    pub name: Seq<char>,
    pub kind: Seq<char>,
    pub address: Option<Seq<char>>,
    pub simulated: bool,
    pub adopted: bool,
    pub connected: bool,
    pub agent_version: Seq<char>,
    pub hostname: Option<Seq<char>>,
    pub last_seen_ms: u64,
    pub active: Option<ActiveViewModel>,
}

impl DeepView for RobotView {
    type V = RobotViewModel;

    open spec fn deep_view(&self) -> RobotViewModel {
        RobotViewModel {
            id: self.id@,
            name: self.name@,
            kind: self.kind@,
            address: self.address.deep_view(),
            simulated: self.simulated,
            adopted: self.adopted,
            connected: self.connected,
            agent_version: self.agent_version@,
            hostname: self.hostname.deep_view(),
            last_seen_ms: self.last_seen_ms,
            active: self.active.deep_view(),
        }
    }
}

#[derive(Debug, Clone)]
pub struct ActiveView {
    pub action_id: String,
    pub action_name: String,
    pub command: String,
    pub started_ms: u64,
}

pub struct ActiveViewModel {
    pub action_id: Seq<char>,
    pub action_name: Seq<char>,
    pub command: Seq<char>,
    pub started_ms: u64,
}

impl DeepView for ActiveView {
    type V = ActiveViewModel;

    open spec fn deep_view(&self) -> ActiveViewModel {
        ActiveViewModel {
            action_id: self.action_id@,
            action_name: self.action_name@,
            command: self.command@,
            started_ms: self.started_ms,
        }
    }
}

/// Per-robot state of one batch run.
#[derive(Debug, Clone)]
pub enum RunRobotStatus {
    Queued,
    Running { action_id: String, started_ms: u64 },
    Done { exit_code: u32, killed: bool, finished_ms: u64 },
    Failed { error: String },
}

pub enum RunRobotStatusModel {
    Queued,
    Running { action_id: Seq<char>, started_ms: u64 },
    Done { exit_code: u32, killed: bool, finished_ms: u64 },
    Failed { error: Seq<char> },
}

impl DeepView for RunRobotStatus {
    type V = RunRobotStatusModel;

    open spec fn deep_view(&self) -> RunRobotStatusModel {
        match self {
            RunRobotStatus::Queued => RunRobotStatusModel::Queued,
            RunRobotStatus::Running { action_id, started_ms } => RunRobotStatusModel::Running {
                action_id: action_id@,
                started_ms: *started_ms,
            },
            RunRobotStatus::Done { exit_code, killed, finished_ms } => RunRobotStatusModel::Done {
                exit_code: *exit_code,
                killed: *killed,
                finished_ms: *finished_ms,
            },
            RunRobotStatus::Failed { error } => RunRobotStatusModel::Failed { error: error@ },
        }
    }
}

impl RunRobotStatusModel {
    /// Done or failed: the robot's part of the run is over.
    pub open spec fn terminal(self) -> bool {
        self is Done || self is Failed
    }
}

impl RunRobotStatus {
    /// Done or failed: the robot's part of the run is over.
    pub fn is_terminal(&self) -> (r: bool)
        ensures
            r == self.deep_view().terminal(),
            r == (self is Done || self is Failed),
    {
        match self {
            RunRobotStatus::Done { .. } | RunRobotStatus::Failed { .. } => true,
            _ => false,
        }
    }
}

impl Duplicate for RunRobotStatus {
    fn duplicate(&self) -> (r: Self) {
        match self {
            RunRobotStatus::Queued => RunRobotStatus::Queued,
            RunRobotStatus::Running { action_id, started_ms } => RunRobotStatus::Running {
                action_id: action_id.clone(),
                started_ms: *started_ms,
            },
            RunRobotStatus::Done { exit_code, killed, finished_ms } => RunRobotStatus::Done {
                exit_code: *exit_code,
                killed: *killed,
                finished_ms: *finished_ms,
            },
            RunRobotStatus::Failed { error } => RunRobotStatus::Failed { error: error.clone() },
        }
    }
}

/// Progress of a workflow, attached to the run that tracks it.
#[derive(Debug, Clone)]
pub struct WorkflowRunInfo {
    pub workflow_name: String,
    pub current_step: usize,
    pub total_steps: usize,
    pub step_action: String,
    pub step_run_id: String,
}

pub struct WorkflowRunInfoModel {
    pub workflow_name: Seq<char>,
    pub current_step: usize,
    pub total_steps: usize,
    pub step_action: Seq<char>,
    pub step_run_id: Seq<char>,
}

impl DeepView for WorkflowRunInfo {
    type V = WorkflowRunInfoModel;

    open spec fn deep_view(&self) -> WorkflowRunInfoModel {
        WorkflowRunInfoModel {
            workflow_name: self.workflow_name@,
            current_step: self.current_step,
            total_steps: self.total_steps,
            step_action: self.step_action@,
            step_run_id: self.step_run_id@,
        }
    }
}

/// One batch run, as served to clients.
#[derive(Debug, Clone)]
pub struct RunView {
    pub run_id: String,
    pub action: String,
    pub created_ms: u64,
    pub robots: Vec<(String, RunRobotStatus)>,
    pub workflow: Option<WorkflowRunInfo>,
}

pub struct RunViewModel {
    pub run_id: Seq<char>,
    pub action: Seq<char>,
    pub created_ms: u64,
    pub robots: Seq<(Seq<char>, RunRobotStatusModel)>,
    pub workflow: Option<WorkflowRunInfoModel>,
}

impl DeepView for RunView {
    type V = RunViewModel;

    open spec fn deep_view(&self) -> RunViewModel {
        RunViewModel {
            run_id: self.run_id@,
            action: self.action@,
            created_ms: self.created_ms,
            robots: self.robots.deep_view(),
            workflow: self.workflow.deep_view(),
        }
    }
}

/// One line of action output.
#[derive(Debug, Clone)]
pub struct LogLine {
    pub ts_ms: u64,
    pub stderr: bool,
    pub text: String,
}

pub struct LogLineModel {
    pub ts_ms: u64,
    pub stderr: bool,
    pub text: Seq<char>,
}

impl DeepView for LogLine {
    type V = LogLineModel;

    open spec fn deep_view(&self) -> LogLineModel {
        LogLineModel { ts_ms: self.ts_ms, stderr: self.stderr, text: self.text@ }
    }
}

impl Duplicate for LogLine {
    fn duplicate(&self) -> (r: Self) {
        LogLine { ts_ms: self.ts_ms, stderr: self.stderr, text: self.text.clone() }
    }
}

/// Events pushed to live clients.
#[allow(inconsistent_fields)]
#[derive(Debug, Clone)]
pub enum Event {
    Robots { robots: Vec<RobotView> },
    Robot { robot: RobotView },
    Runs { runs: Vec<RunView> },
    Run { run: RunView },
    Logs { robot: String, lines: Vec<LogLine> },
}

pub enum EventModel {
    Robots { robots: Seq<RobotViewModel> },
    Robot { robot: RobotViewModel },
    Runs { runs: Seq<RunViewModel> },
    Run { run: RunViewModel },
    Logs { robot: Seq<char>, lines: Seq<LogLineModel> },
}

impl DeepView for Event {
    type V = EventModel;

    open spec fn deep_view(&self) -> EventModel {
        match self {
            Event::Robots { robots } => EventModel::Robots { robots: robots.deep_view() },
            Event::Robot { robot } => EventModel::Robot { robot: robot.deep_view() },
            Event::Runs { runs } => EventModel::Runs { runs: runs.deep_view() },
            Event::Run { run } => EventModel::Run { run: run.deep_view() },
            Event::Logs { robot, lines } => EventModel::Logs { robot: robot@, lines: lines.deep_view() },
        }
    }
}

/// Where `s` splits into a non-empty type and a non-empty action at its
/// first `.`.
pub open spec fn action_ref_split(s: Seq<char>) -> Option<(Seq<char>, Seq<char>)> {
    match index_of_char(s, '.') {
        Some(i) => if i > 0 && i + 1 < s.len() {
            Some((s.subrange(0, i as int), s.subrange(i + 1 as int, s.len() as int)))
        } else {
            None
        },
        None => None,
    }
}

/// Parse a `<type>.<action>` reference: split at the first `.`; both parts
/// must be non-empty.
pub fn parse_action_ref(s: &str) -> (r: Option<(&str, &str)>)
    ensures
        match r {
            Some((t, a)) => action_ref_split(s@) == Some((t@, a@)),
            None => action_ref_split(s@) is None,
        },
{
    let n = s.unicode_len();
    match find_char(s, '.') {
        Some(i) => {
            if i > 0 && i + 1 < n {
                Some((s.substring_char(0, i), s.substring_char(i + 1, n)))
            } else {
                None
            }
        },
        None => None,
    }
}

} // verus!
