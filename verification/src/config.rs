//! Swarm and agent configuration: the schema, its validation, and the
//! runtime merge of robots that phone home unannounced.

use vstd::prelude::*;

use crate::api::{ApiTargets, ApiTargetsModel};
use crate::error::{ConfigError, ConfigErrorModel};
use crate::strmap::{pairs_to_map, Duplicate, StrMap};
use crate::text::{
    first_index, find_char, index_of_char, lemma_first_index_is, lemma_first_index_none, str_eq,
    str_trim, to_owned_string, trim_seq,
};

verus! {

/// Top-level swarm configuration read by the control host.
#[derive(Debug)]
pub struct SwarmConfig {
    pub controller: ControllerConfig,
    pub robot_types: StrMap<RobotTypeConfig>,
    /// Swarm-level actions, dispatched by bare name to any robot.
    pub actions: StrMap<ActionConfig>,
    /// Swarm-wide default variables; a robot's own entry wins per key.
    pub vars: StrMap<String>,
    /// Named multi-step sequences composed from existing actions.
    pub workflows: StrMap<WorkflowConfig>,
    pub robots: Vec<RobotConfig>,
}

pub struct SwarmConfigModel {
    pub controller: ControllerConfigModel,
    pub robot_types: Seq<(Seq<char>, RobotTypeConfigModel)>,
    pub actions: Seq<(Seq<char>, ActionConfigModel)>,
    pub vars: Seq<(Seq<char>, Seq<char>)>,
    pub workflows: Seq<(Seq<char>, WorkflowConfigModel)>,
    pub robots: Seq<RobotConfigModel>,
}

impl DeepView for SwarmConfig {
    type V = SwarmConfigModel;

    open spec fn deep_view(&self) -> SwarmConfigModel {
        SwarmConfigModel {
            controller: self.controller.deep_view(),
            robot_types: self.robot_types.deep_view(),
            actions: self.actions.deep_view(),
            vars: self.vars.deep_view(),
            workflows: self.workflows.deep_view(),
            robots: self.robots.deep_view(),
        }
    }
}

impl Duplicate for SwarmConfig {
    fn duplicate(&self) -> (r: Self) {
        SwarmConfig {
            controller: self.controller.duplicate(),
            robot_types: self.robot_types.duplicate(),
            actions: self.actions.duplicate(),
            vars: self.vars.duplicate(),
            workflows: self.workflows.duplicate(),
            robots: self.robots.duplicate(),
        }
    }
}

/// Where the control host listens and how agents authenticate.
#[derive(Debug, Clone)]
pub struct ControllerConfig {
    pub name: String,
    /// Shared secret presented by agents at registration.
    pub id_code: String,
    /// Socket address agents dial, as `ip:port` text.
    pub grpc_listen: String,
    /// Socket address of the WebUI and HTTP API, as `ip:port` text.
    pub ui_bind: String,
    pub tls: Option<TlsConfig>,
}

pub struct ControllerConfigModel {
    pub name: Seq<char>,
    pub id_code: Seq<char>,
    pub grpc_listen: Seq<char>,
    pub ui_bind: Seq<char>,
    pub tls: Option<TlsConfigModel>,
}

impl DeepView for ControllerConfig {
    type V = ControllerConfigModel;

    open spec fn deep_view(&self) -> ControllerConfigModel {
        ControllerConfigModel {
            name: self.name@,
            id_code: self.id_code@,
            grpc_listen: self.grpc_listen@,
            ui_bind: self.ui_bind@,
            tls: self.tls.deep_view(),
        }
    }
}

impl Duplicate for ControllerConfig {
    fn duplicate(&self) -> (r: Self) {
        ControllerConfig {
            name: self.name.clone(),
            id_code: self.id_code.clone(),
            grpc_listen: self.grpc_listen.clone(),
            ui_bind: self.ui_bind.clone(),
            tls: self.tls.duplicate(),
        }
    }
}

/// The WebUI address used when the config names none.
pub fn default_ui_bind() -> (r: String)
    ensures
        r@ == "0.0.0.0:8080"@,
{
    String::from_str("0.0.0.0:8080")
}

/// Certificate files for the gRPC endpoint.
#[derive(Debug, Clone, Default)]
pub struct TlsConfig {
    pub cert: String,
    pub key: String,
    /// Optional CA bundle for client certificates.
    pub ca: Option<String>,
}

pub struct TlsConfigModel {
    pub cert: Seq<char>,
    pub key: Seq<char>,
    pub ca: Option<Seq<char>>,
}

impl DeepView for TlsConfig {
    type V = TlsConfigModel;

    open spec fn deep_view(&self) -> TlsConfigModel {
        TlsConfigModel { cert: self.cert@, key: self.key@, ca: self.ca.deep_view() }
    }
}

impl Duplicate for TlsConfig {
    fn duplicate(&self) -> (r: Self) {
        TlsConfig { cert: self.cert.clone(), key: self.key.clone(), ca: self.ca.duplicate() }
    }
}

/// A shared robot-types file: only a `robot_types` table.
#[derive(Debug)]
pub struct RobotTypesFile {
    pub robot_types: StrMap<RobotTypeConfig>,
}

#[derive(Debug)]
pub struct RobotTypeConfig {
    pub display_name: Option<String>,
    pub actions: StrMap<ActionConfig>,
}

pub struct RobotTypeConfigModel {
    pub display_name: Option<Seq<char>>,
    pub actions: Seq<(Seq<char>, ActionConfigModel)>,
}

impl DeepView for RobotTypeConfig {
    type V = RobotTypeConfigModel;

    open spec fn deep_view(&self) -> RobotTypeConfigModel {
        RobotTypeConfigModel {
            display_name: self.display_name.deep_view(),
            actions: self.actions.deep_view(),
        }
    }
}

impl Duplicate for RobotTypeConfig {
    fn duplicate(&self) -> (r: Self) {
        RobotTypeConfig {
            display_name: self.display_name.duplicate(),
            actions: self.actions.duplicate(),
        }
    }
}

#[derive(Debug)]
pub struct ActionConfig {
    /// Shell command; may contain `{{...}}` placeholders resolved per robot.
    pub command: String,
    pub timeout_sec: Option<u64>,
    pub env: StrMap<String>,
    pub cwd: Option<String>,
    /// Needs explicit confirmation when dispatched to a batch.
    pub dangerous: bool,
    /// Maximum number of concurrent invocations per robot.
    pub concurrency: usize,
    /// Does not count as the robot's active action.
    pub background: bool,
}

pub struct ActionConfigModel {
    pub command: Seq<char>,
    pub timeout_sec: Option<u64>,
    pub env: Seq<(Seq<char>, Seq<char>)>,
    pub cwd: Option<Seq<char>>,
    pub dangerous: bool,
    pub concurrency: usize,
    pub background: bool,
}

impl DeepView for ActionConfig {
    type V = ActionConfigModel;

    open spec fn deep_view(&self) -> ActionConfigModel {
        ActionConfigModel {
            command: self.command@,
            timeout_sec: self.timeout_sec,
            env: self.env.deep_view(),
            cwd: self.cwd.deep_view(),
            dangerous: self.dangerous,
            concurrency: self.concurrency,
            background: self.background,
        }
    }
}

impl Duplicate for ActionConfig {
    fn duplicate(&self) -> (r: Self) {
        ActionConfig {
            command: self.command.clone(),
            timeout_sec: self.timeout_sec,
            env: self.env.duplicate(),
            cwd: self.cwd.duplicate(),
            dangerous: self.dangerous,
            concurrency: self.concurrency,
            background: self.background,
        }
    }
}

/// The per-robot concurrency used when an action names none.
pub fn default_concurrency() -> (r: usize)
    ensures
        r == 1,
{
    1
}

/// A named sequence of actions dispatched across the swarm.
#[derive(Debug)]
pub struct WorkflowConfig {
    pub description: Option<String>,
    pub steps: Vec<WorkflowStep>,
    /// Workflow-level default for failure handling.
    pub on_failure: WorkflowOnFailure,
}

pub struct WorkflowConfigModel {
    pub description: Option<Seq<char>>,
    pub steps: Seq<WorkflowStepModel>,
    pub on_failure: WorkflowOnFailure,
}

impl DeepView for WorkflowConfig {
    type V = WorkflowConfigModel;

    open spec fn deep_view(&self) -> WorkflowConfigModel {
        WorkflowConfigModel {
            description: self.description.deep_view(),
            steps: self.steps.deep_view(),
            on_failure: self.on_failure,
        }
    }
}

impl Duplicate for WorkflowConfig {
    fn duplicate(&self) -> (r: Self) {
        WorkflowConfig {
            description: self.description.duplicate(),
            steps: self.steps.duplicate(),
            on_failure: self.on_failure,
        }
    }
}

/// One step of a workflow; `action` names an existing action.
#[derive(Debug, Clone)]
pub struct WorkflowStep {
    pub action: String,
    pub targets: ApiTargets,
    /// Run the next step regardless of this step's outcome.
    pub continue_on_error: bool,
}

pub struct WorkflowStepModel {
    pub action: Seq<char>,
    pub targets: ApiTargetsModel,
    pub continue_on_error: bool,
}

impl DeepView for WorkflowStep {
    type V = WorkflowStepModel;

    open spec fn deep_view(&self) -> WorkflowStepModel {
        WorkflowStepModel {
            action: self.action@,
            targets: self.targets.deep_view(),
            continue_on_error: self.continue_on_error,
        }
    }
}

impl Duplicate for ApiTargets {
    fn duplicate(&self) -> (r: Self) {
        match self {
            ApiTargets::All => ApiTargets::All,
            ApiTargets::Robots(v) => ApiTargets::Robots(v.duplicate()),
            ApiTargets::Types(v) => ApiTargets::Types(v.duplicate()),
            ApiTargets::Name(n) => ApiTargets::Name(n.clone()),
        }
    }
}

impl Duplicate for WorkflowStep {
    fn duplicate(&self) -> (r: Self) {
        WorkflowStep {
            action: self.action.clone(),
            targets: self.targets.duplicate(),
            continue_on_error: self.continue_on_error,
        }
    }
}

#[derive(Debug, Clone, Copy, PartialEq, Eq, Structural, Default)]
pub enum WorkflowOnFailure {
    #[default]
    Abort,
    Continue,
}

impl DeepView for WorkflowOnFailure {
    type V = WorkflowOnFailure;

    open spec fn deep_view(&self) -> WorkflowOnFailure {
        *self
    }
}

/// One robot of the swarm.
#[derive(Debug)]
pub struct RobotConfig {
    /// Registration identity, unique across the swarm.
    pub id: String,
    pub name: Option<String>,
    /// Key into `robot_types` (TOML key `type`).
    pub kind: String,
    /// SSH endpoint used by the provisioner.
    pub address: Option<String>,
    /// Agent runs on the host itself.
    pub simulated: bool,
    /// Values available as `{{vars.<key>}}` in action commands.
    pub vars: StrMap<String>,
    /// Extra environment for every action process on this robot.
    pub env: StrMap<String>,
    /// Not defined in the config file, but phoned home and was adopted.
    pub adopted: bool,
}

pub struct RobotConfigModel {
    pub id: Seq<char>,
    pub name: Option<Seq<char>>,
    pub kind: Seq<char>,
    pub address: Option<Seq<char>>,
    pub simulated: bool,
    pub vars: Seq<(Seq<char>, Seq<char>)>,
    pub env: Seq<(Seq<char>, Seq<char>)>,
    pub adopted: bool,
}

impl DeepView for RobotConfig {
    type V = RobotConfigModel;

    open spec fn deep_view(&self) -> RobotConfigModel {
        RobotConfigModel {
            id: self.id@,
            name: self.name.deep_view(),
            kind: self.kind@,
            address: self.address.deep_view(),
            simulated: self.simulated,
            vars: self.vars.deep_view(),
            env: self.env.deep_view(),
            adopted: self.adopted,
        }
    }
}

impl Duplicate for RobotConfig {
    fn duplicate(&self) -> (r: Self) {
        RobotConfig {
            id: self.id.clone(),
            name: self.name.duplicate(),
            kind: self.kind.clone(),
            address: self.address.duplicate(),
            simulated: self.simulated,
            vars: self.vars.duplicate(),
            env: self.env.duplicate(),
            adopted: self.adopted,
        }
    }
}

impl RobotConfigModel {
    /// The configured name, else the id.
    pub open spec fn display_name(self) -> Seq<char> {
        match self.name {
            Some(n) => n,
            None => self.id,
        }
    }
}

impl RobotConfig {
    /// The configured name, else the id.
    pub fn display_name(&self) -> (r: &str)
        ensures
            r@ == self.deep_view().display_name(),
    {
        match &self.name {
            Some(n) => n.as_str(),
            None => self.id.as_str(),
        }
    }
}

} // verus!

verus! {

/// `action` names an existing action: `<type>.<action>` (split at the first
/// `.`) on a robot type, or else a swarm action.
pub open spec fn action_exists_in(m: SwarmConfigModel, action: Seq<char>) -> bool {
    match index_of_char(action, '.') {
        Some(i) => {
            let ty = action.subrange(0, i as int);
            let name = action.subrange(i + 1 as int, action.len() as int);
            &&& pairs_to_map(m.robot_types).contains_key(ty)
            &&& pairs_to_map(pairs_to_map(m.robot_types)[ty].actions).contains_key(name)
        },
        None => pairs_to_map(m.actions).contains_key(action),
    }
}

/// Robots whose id is `id`.
pub open spec fn has_id(id: Seq<char>) -> spec_fn(RobotConfigModel) -> bool {
    |r: RobotConfigModel| r.id == id
}

/// The problem with robot `j`, given that the robots before it passed.
pub open spec fn robot_error(m: SwarmConfigModel, j: int) -> Option<ConfigErrorModel> {
    let r = m.robots[j];
    if !pairs_to_map(m.robot_types).contains_key(r.kind) {
        Some(ConfigErrorModel::UnknownRobotType { robot: r.id, kind: r.kind })
    } else {
        match first_index(m.robots.take(j), has_id(r.id)) {
            Some(k) => Some(
                ConfigErrorModel::DuplicateRobotId {
                    id: r.id,
                    first: m.robots[k as int].display_name(),
                },
            ),
            None => None,
        }
    }
}

/// The first problem among the first `n` robots, in order.
pub open spec fn robots_error(m: SwarmConfigModel, n: int) -> Option<ConfigErrorModel>
    decreases n,
{
    if n <= 0 {
        None
    } else {
        match robots_error(m, n - 1) {
            Some(e) => Some(e),
            None => robot_error(m, n - 1),
        }
    }
}

/// Once a robot has failed, the first problem stays the same.
pub proof fn lemma_robots_error_stable(m: SwarmConfigModel, a: int, b: int)
    requires
        a <= b,
        robots_error(m, a) is Some,
    ensures
        robots_error(m, b) == robots_error(m, a),
    decreases b - a,
{
    if a < b {
        lemma_robots_error_stable(m, a, b - 1);
    }
}

/// Once a workflow has failed, the first problem stays the same.
pub proof fn lemma_workflows_error_stable(m: SwarmConfigModel, a: int, b: int)
    requires
        a <= b,
        workflows_error(m, a) is Some,
    ensures
        workflows_error(m, b) == workflows_error(m, a),
    decreases b - a,
{
    if a < b {
        lemma_workflows_error_stable(m, a, b - 1);
    }
}

/// A swarm action name must be non-empty and contain no `.`.
pub open spec fn bad_swarm_action_name(name: Seq<char>) -> bool {
    name.len() == 0 || index_of_char(name, '.') is Some
}

/// The first badly named swarm action, in key order.
pub open spec fn actions_error(m: SwarmConfigModel) -> Option<ConfigErrorModel> {
    let keys = m.actions.map_values(|p: (Seq<char>, ActionConfigModel)| p.0);
    match first_index(keys, |k: Seq<char>| bad_swarm_action_name(k)) {
        Some(i) => Some(ConfigErrorModel::BadSwarmActionName { action: keys[i as int] }),
        None => None,
    }
}

/// The first step of workflow `name` whose action does not exist.
pub open spec fn workflow_error(m: SwarmConfigModel, name: Seq<char>, wf: WorkflowConfigModel) -> Option<
    ConfigErrorModel,
> {
    match first_index(wf.steps, |s: WorkflowStepModel| !action_exists_in(m, s.action)) {
        Some(i) => Some(
            ConfigErrorModel::UnknownWorkflowAction {
                workflow: name,
                step: (i + 1) as usize,
                action: wf.steps[i as int].action,
            },
        ),
        None => None,
    }
}

/// The first broken workflow step among the first `n` workflows, in key order.
pub open spec fn workflows_error(m: SwarmConfigModel, n: int) -> Option<ConfigErrorModel>
    decreases n,
{
    if n <= 0 {
        None
    } else {
        match workflows_error(m, n - 1) {
            Some(e) => Some(e),
            None => workflow_error(m, m.workflows[n - 1].0, m.workflows[n - 1].1),
        }
    }
}

/// What `SwarmConfig::validate` reports: robots first (unknown type, then
/// duplicate id, robot by robot), then swarm action names, then workflow
/// steps.
pub open spec fn config_error(m: SwarmConfigModel) -> Option<ConfigErrorModel> {
    match robots_error(m, m.robots.len() as int) {
        Some(e) => Some(e),
        None => match actions_error(m) {
            Some(e) => Some(e),
            None => workflows_error(m, m.workflows.len() as int),
        },
    }
}

/// The robot a runtime merge adds for an unclaimed id.
pub open spec fn unclaimed_robot(id: Seq<char>, hostname: Option<Seq<char>>) -> RobotConfigModel {
    RobotConfigModel {
        id,
        name: Some(
            match hostname {
                Some(h) => h,
                None => id,
            },
        ),
        kind: Seq::empty(),
        address: None,
        simulated: false,
        vars: Seq::empty(),
        env: Seq::empty(),
        adopted: false,
    }
}

/// The config with robot `id` merged in: unchanged when a robot already
/// has that id, else with `unclaimed_robot` appended.
pub open spec fn unclaimed_merge(m: SwarmConfigModel, id: Seq<char>, hostname: Option<Seq<char>>) -> SwarmConfigModel {
    if exists|i: int| 0 <= i < m.robots.len() && (#[trigger] m.robots[i]).id == id {
        m
    } else {
        SwarmConfigModel { robots: m.robots.push(unclaimed_robot(id, hostname)), ..m }
    }
}

impl SwarmConfig {
    /// Whether an action reference resolves to an existing action.
    pub fn action_exists(&self, action: &str) -> (r: bool)
        ensures
            r == action_exists_in(self.deep_view(), action@),
    {
        match find_char(action, '.') {
            Some(i) => {
                let n = action.unicode_len();
                let ty = action.substring_char(0, i);
                let name = action.substring_char(i + 1, n);
                match self.robot_types.get(ty) {
                    Some(t) => t.actions.contains_key(name),
                    None => false,
                }
            },
            None => self.actions.contains_key(action),
        }
    }

    /// Check robot types, id uniqueness, swarm action names and workflow
    /// step references.
    pub fn validate(&self) -> (r: Result<(), ConfigError>)
        ensures
            match r {
                Ok(()) => config_error(self.deep_view()) is None,
                Err(e) => config_error(self.deep_view()) == Some(e.deep_view()),
            },
    {
        let ghost m = self.deep_view();
        let n = self.robots.len();
        let mut j: usize = 0;
        while j < n
            invariant
                m == self.deep_view(),
                n == m.robots.len(),
                j <= n,
                robots_error(m, j as int) is None,
            decreases n - j,
        {
            let robot = &self.robots[j];
            assert(robot.deep_view() == m.robots[j as int]);
            if !self.robot_types.contains_key(robot.kind.as_str()) {
                proof {
                    lemma_robots_error_stable(m, j + 1, n as int);
                }
                return Err(
                    ConfigError::UnknownRobotType {
                        robot: robot.id.clone(),
                        kind: robot.kind.clone(),
                    },
                );
            }
            let ghost p = has_id(robot.id@);
            let mut k: usize = 0;
            while k < j
                invariant
                    m == self.deep_view(),
                    n == m.robots.len(),
                    j < n,
                    k <= j,
                    p == has_id(m.robots[j as int].id),
                    pairs_to_map(m.robot_types).contains_key(m.robots[j as int].kind),
                    robots_error(m, j as int) is None,
                    forall|q: int| 0 <= q < k ==> !p(#[trigger] m.robots.take(j as int)[q]),
                decreases j - k,
            {
                if str_eq(self.robots[k].id.as_str(), self.robots[j].id.as_str()) {
                    assert(self.robots[k as int].deep_view() == m.robots[k as int]);
                    assert(self.robots[j as int].deep_view() == m.robots[j as int]);
                    let e = ConfigError::DuplicateRobotId {
                        id: self.robots[j].id.clone(),
                        first: to_owned_string(self.robots[k].display_name()),
                    };
                    proof {
                        assert(m.robots.take(j as int)[k as int] == m.robots[k as int]);
                        crate::text::lemma_first_index_is(m.robots.take(j as int), p, k as int);
                        assert(robot_error(m, j as int) == Some(e.deep_view()));
                        assert(robots_error(m, j + 1) == Some(e.deep_view()));
                        lemma_robots_error_stable(m, j + 1, n as int);
                        assert(config_error(m) == Some(e.deep_view()));
                    }
                    return Err(e);
                }
                assert(m.robots.take(j as int)[k as int] == m.robots[k as int]);
                k = k + 1;
            }
            proof {
                crate::text::lemma_first_index_none(m.robots.take(j as int), p);
                assert(robot_error(m, j as int) is None);
            }
            j = j + 1;
        }
        let ghost keys = m.actions.map_values(|p: (Seq<char>, ActionConfigModel)| p.0);
        let na = self.actions.len();
        let mut a: usize = 0;
        while a < na
            invariant
                m == self.deep_view(),
                keys == m.actions.map_values(|p: (Seq<char>, ActionConfigModel)| p.0),
                na == m.actions.len(),
                a <= na,
                robots_error(m, m.robots.len() as int) is None,
                forall|q: int| 0 <= q < a ==> !bad_swarm_action_name(#[trigger] keys[q]),
            decreases na - a,
        {
            let name = self.actions.key_at(a);
            assert(keys[a as int] == name@);
            if name.unicode_len() == 0 || find_char(name.as_str(), '.').is_some() {
                proof {
                    crate::text::lemma_first_index_is(keys, |k: Seq<char>| bad_swarm_action_name(k), a as int);
                    assert(actions_error(m) == Some(ConfigErrorModel::BadSwarmActionName { action: name@ }));
                }
                return Err(ConfigError::BadSwarmActionName { action: name.clone() });
            }
            a = a + 1;
        }
        proof {
            crate::text::lemma_first_index_none(keys, |k: Seq<char>| bad_swarm_action_name(k));
            assert(actions_error(m) is None);
        }
        let nw = self.workflows.len();
        let mut w: usize = 0;
        while w < nw
            invariant
                m == self.deep_view(),
                config_error(m) == workflows_error(m, m.workflows.len() as int),
                nw == m.workflows.len(),
                w <= nw,
                workflows_error(m, w as int) is None,
            decreases nw - w,
        {
            let wf_name = self.workflows.key_at(w);
            let wf = self.workflows.value_at(w);
            assert(wf_name@ == m.workflows[w as int].0);
            let ghost wm = m.workflows[w as int].1;
            let ghost p = |s: WorkflowStepModel| !action_exists_in(m, s.action);
            assert(wf.deep_view() == wm);
            let ns = wf.steps.len();
            let mut i: usize = 0;
            while i < ns
                invariant
                    m == self.deep_view(),
                    wm == wf.deep_view(),
                    ns == wm.steps.len(),
                    i <= ns,
                    p == (|s: WorkflowStepModel| !action_exists_in(m, s.action)),
                    w < nw,
                    nw == m.workflows.len(),
                    wm == m.workflows[w as int].1,
                    wf_name@ == m.workflows[w as int].0,
                    workflows_error(m, w as int) is None,
                    config_error(m) == workflows_error(m, m.workflows.len() as int),
                    forall|q: int| 0 <= q < i ==> !p(#[trigger] wm.steps[q]),
                decreases ns - i,
            {
                let step = &wf.steps[i];
                assert(step.deep_view() == wm.steps[i as int]);
                if !self.action_exists(step.action.as_str()) {
                    proof {
                        crate::text::lemma_first_index_is(wm.steps, p, i as int);
                        assert(wf_name@ == m.workflows[w as int].0);
                        assert(workflow_error(m, wf_name@, wm) is Some);
                        assert(workflows_error(m, w + 1) is Some);
                        lemma_workflows_error_stable(m, w + 1, nw as int);
                    }
                    return Err(
                        ConfigError::UnknownWorkflowAction {
                            workflow: wf_name.clone(),
                            step: i + 1,
                            action: step.action.clone(),
                        },
                    );
                }
                i = i + 1;
            }
            proof {
                crate::text::lemma_first_index_none(wm.steps, p);
                assert(workflow_error(m, m.workflows[w as int].0, wm) is None);
            }
            w = w + 1;
        }
        Ok(())
    }

    /// Merge a robot that phoned home with a valid id_code but is not in the
    /// config into a runtime copy: unchanged when the id is already present,
    /// else with an untyped robot named after its hostname (or id) appended.
    pub fn with_unclaimed(&self, id: &str, hostname: Option<&str>) -> (r: Self)
        ensures
            r.deep_view() == unclaimed_merge(
                self.deep_view(),
                id@,
                match hostname {
                    Some(h) => Some(h@),
                    None => None,
                },
            ),
    {
        let mut clone = self.duplicate();
        let n = clone.robots.len();
        let mut i: usize = 0;
        while i < n
            invariant
                n == clone.robots@.len(),
                clone.deep_view() == self.deep_view(),
                i <= n,
                forall|j: int| 0 <= j < i ==> (#[trigger] self.deep_view().robots[j]).id != id@,
            decreases n - i,
        {
            if str_eq(clone.robots[i].id.as_str(), id) {
                assert(clone.robots[i as int].deep_view() == self.deep_view().robots[i as int]);
                assert(self.deep_view().robots[i as int].id == id@);
                return clone;
            }
            assert(clone.robots[i as int].deep_view() == self.deep_view().robots[i as int]);
            i = i + 1;
        }
        let name = match hostname {
            Some(h) => to_owned_string(h),
            None => to_owned_string(id),
        };
        let robot = RobotConfig {
            id: to_owned_string(id),
            name: Some(name),
            kind: String::new(),
            address: None,
            simulated: false,
            vars: StrMap::new(),
            env: StrMap::new(),
            adopted: false,
        };
        let ghost before = clone.robots.deep_view();
        clone.robots.push(robot);
        assert(clone.robots.deep_view() =~= before.push(robot.deep_view()));
        clone
    }
}


} // verus!

verus! {

/// Runtime configuration of a robot's agent.
#[derive(Debug)]
pub struct AgentConfig {
    /// Robot identity; an empty (or blank) id is refused before the agent
    /// runs.
    pub robot_id: String,
    /// Optional human-readable name sent at registration.
    pub name: Option<String>,
    pub controller: AgentControllerConfig,
    /// Robot-local environment inherited by every action process.
    pub env: StrMap<String>,
}

/// Where an agent phones home.
#[derive(Debug, Clone)]
pub struct AgentControllerConfig {
    /// `host:port` of the control host's agent endpoint.
    pub endpoint: String,
    pub id_code: String,
    /// Connect over TLS.
    pub tls: bool,
    /// PEM CA to trust for the controller's certificate.
    pub ca: Option<String>,
    /// Override of the TLS server name.
    pub server_name: Option<String>,
}

/// The endpoint an agent dials: the configured one, with the default port
/// `50051` appended when it names no port (has no `:`).
pub open spec fn endpoint_with_port(endpoint: Seq<char>) -> Seq<char> {
    if index_of_char(endpoint, ':') is None {
        endpoint + ":50051"@
    } else {
        endpoint
    }
}

impl AgentControllerConfig {
    /// Append the default port to an endpoint that names none.
    pub fn apply_default_port(&mut self)
        ensures
            final(self).endpoint@ == endpoint_with_port(old(self).endpoint@),
            final(self).id_code == old(self).id_code,
            final(self).tls == old(self).tls,
            final(self).ca == old(self).ca,
            final(self).server_name == old(self).server_name,
    {
        if find_char(self.endpoint.as_str(), ':').is_none() {
            self.endpoint.append(":50051");
        }
    }
}

impl AgentConfig {
    /// Refuse an empty or blank robot id (a base config may omit it; the
    /// per-agent file or the command line must supply one).
    pub fn validate(&self) -> (r: Result<(), ConfigError>)
        ensures
            match r {
                Ok(()) => trim_seq(self.robot_id@).len() > 0,
                Err(e) => trim_seq(self.robot_id@).len() == 0 && e.deep_view() == ConfigErrorModel::MissingRobotId,
            },
            r is Err <==> crate::text::all_ws(self.robot_id@),
    {
        proof {
            crate::text::lemma_trim_empty_iff_all_ws(self.robot_id@);
        }
        if str_trim(self.robot_id.as_str()).unicode_len() == 0 {
            return Err(ConfigError::MissingRobotId);
        }
        Ok(())
    }
}

} // verus!

verus! {

/// A file of the shared robot-types directory: its extension is `toml`
/// (as `Path::extension` reads a file name: after the last `.`, with
/// something before that `.`).
pub fn is_types_file(file_name: &str) -> (r: bool)
    ensures
        r == (file_name@.len() > 5 && file_name@.skip(file_name@.len() - 5) == ".toml"@),
{
    let n = file_name.unicode_len();
    if n <= 5 {
        return false;
    }
    let tail = file_name.substring_char(n - 5, n);
    assert(tail@ =~= file_name@.skip(n - 5));
    str_eq(tail, ".toml")
}

impl SwarmConfig {
    /// Add the robot types of a shared types file; types the swarm file
    /// defines itself win.
    pub fn merge_robot_types(&mut self, types: RobotTypesFile)
        ensures
            final(self).robot_types.map() == types.robot_types.map().union_prefer_right(old(self).robot_types.map()),
            final(self).deep_view() == (SwarmConfigModel {
                robot_types: final(self).deep_view().robot_types,
                ..old(self).deep_view()
            }),
    {
        proof {
            use_type_invariant(&types.robot_types);
        }
        let ghost tp = types.robot_types.pairs();
        let ghost own = self.robot_types.map();
        let n = types.robot_types.len();
        let mut src = types.robot_types;
        let ghost m0 = self.deep_view();
        let mut i: usize = 0;
        assert(pairs_to_map(tp.take(0)) =~= Map::<Seq<char>, RobotTypeConfigModel>::empty());
        assert(self.robot_types.map() =~= pairs_to_map(tp.take(0)).union_prefer_right(own));
        while i < n
            invariant
                i <= n,
                n == tp.len(),
                src.pairs().len() == n,
                forall|q: int| i <= q < n ==> #[trigger] src.pairs()[q] == tp[q],
                crate::strmap::keys_sorted(tp),
                self.robot_types.map() == pairs_to_map(tp.take(i as int)).union_prefer_right(own),
                self.deep_view() == (SwarmConfigModel { robot_types: self.deep_view().robot_types, ..m0 }),
            decreases n - i,
        {
            let key = src.key_at(i).clone();
            assert(key@ == tp[i as int].0);
            let placeholder = RobotTypeConfig { display_name: None, actions: StrMap::new() };
            let ty = src.replace_at(i, placeholder);
            assert(ty.deep_view() == tp[i as int].1);
            proof {
                let t1 = tp.take(i + 1);
                assert(t1 =~= tp.take(i as int).push(tp[i as int]));
                assert(crate::strmap::keys_sorted(t1)) by {
                    assert forall|a: int, b: int| 0 <= a < b < t1.len() implies crate::text::seq_lt(
                        (#[trigger] t1[a]).0,
                        (#[trigger] t1[b]).0,
                    ) by {
                        assert(t1[a] == tp[a] && t1[b] == tp[b]);
                    }
                }
                crate::strmap::lemma_pairs_to_map_push(tp.take(i as int), tp[i as int]);
            }
            if !self.robot_types.contains_key(key.as_str()) {
                self.robot_types.insert(key, ty);
            }
            assert(self.robot_types.map() =~= pairs_to_map(tp.take(i + 1)).union_prefer_right(own));
            i = i + 1;
        }
        assert(tp.take(n as int) =~= tp);
    }
}

/// The robot types of a swarm file (`own`) with the shared types files
/// `files` added in order: a type the swarm file or an earlier file defines
/// wins.
pub open spec fn types_with_files(
    own: Map<Seq<char>, RobotTypeConfigModel>,
    files: Seq<Map<Seq<char>, RobotTypeConfigModel>>,
) -> Map<Seq<char>, RobotTypeConfigModel>
    decreases files.len(),
{
    if files.len() == 0 {
        own
    } else {
        files.last().union_prefer_right(types_with_files(own, files.drop_last()))
    }
}

/// The type maps of shared types files.
pub open spec fn files_maps(files: Seq<RobotTypesFile>) -> Seq<Map<Seq<char>, RobotTypeConfigModel>> {
    files.map_values(|f: RobotTypesFile| f.robot_types.map())
}

impl SwarmConfig {
    /// Add the robot types of the shared types files, in the order given;
    /// types the swarm file or an earlier file defines win.
    pub fn merge_robot_type_files(&mut self, files: Vec<RobotTypesFile>)
        ensures
            final(self).robot_types.map() == types_with_files(old(self).robot_types.map(), files_maps(files@)),
            final(self).deep_view() == (SwarmConfigModel {
                robot_types: final(self).deep_view().robot_types,
                ..old(self).deep_view()
            }),
    {
        let ghost fm = files_maps(files@);
        let ghost own = self.robot_types.map();
        let ghost m0 = self.deep_view();
        let n = files.len();
        let mut rest = files;
        let mut i: usize = 0;
        assert(fm.take(0) =~= Seq::<Map<Seq<char>, RobotTypeConfigModel>>::empty());
        while i < n
            invariant
                i <= n,
                n == fm.len(),
                rest@.len() == n - i,
                forall|q: int| 0 <= q < rest@.len() ==> #[trigger] rest@[q].robot_types.map() == fm[i + q],
                self.robot_types.map() == types_with_files(own, fm.take(i as int)),
                self.deep_view() == (SwarmConfigModel { robot_types: self.deep_view().robot_types, ..m0 }),
            decreases n - i,
        {
            let ghost r0 = rest@;
            let f = rest.remove(0);
            assert(f.robot_types.map() == fm[i as int]);
            assert forall|q: int| 0 <= q < rest@.len() implies #[trigger] rest@[q].robot_types.map() == fm[i + 1 + q] by {
                assert(rest@[q] == r0[q + 1]);
            }
            self.merge_robot_types(f);
            assert(fm.take(i + 1).drop_last() =~= fm.take(i as int));
            i = i + 1;
        }
        assert(fm.take(n as int) =~= fm);
    }
}

/// Merging a types directory: a type the swarm file defines keeps its
/// definition, and a type no file defines stays undefined.
pub proof fn law_types_directory_swarm_wins(
    own: Map<Seq<char>, RobotTypeConfigModel>,
    files: Seq<Map<Seq<char>, RobotTypeConfigModel>>,
    name: Seq<char>,
)
    ensures
        own.contains_key(name) ==> types_with_files(own, files).contains_key(name) && types_with_files(own, files)[name]
            == own[name],
        !own.contains_key(name) && (forall|j: int| 0 <= j < files.len() ==> !(#[trigger] files[j]).contains_key(name))
            ==> !types_with_files(own, files).contains_key(name),
    decreases files.len(),
{
    if files.len() > 0 {
        law_types_directory_swarm_wins(own, files.drop_last(), name);
        if !own.contains_key(name) && (forall|j: int| 0 <= j < files.len() ==> !(#[trigger] files[j]).contains_key(name)) {
            assert forall|j: int| 0 <= j < files.drop_last().len() implies !(#[trigger] files.drop_last()[j]).contains_key(name) by {
                assert(files.drop_last()[j] == files[j]);
            }
            assert(!files.last().contains_key(name));
        }
    }
}

/// Merging a types directory: a type the swarm file does not define gets
/// the definition of the first file that has one.
pub proof fn law_types_directory_first_file_wins(
    own: Map<Seq<char>, RobotTypeConfigModel>,
    files: Seq<Map<Seq<char>, RobotTypeConfigModel>>,
    name: Seq<char>,
    k: int,
)
    requires
        !own.contains_key(name),
        0 <= k < files.len(),
        files[k].contains_key(name),
        forall|j: int| 0 <= j < k ==> !(#[trigger] files[j]).contains_key(name),
    ensures
        types_with_files(own, files).contains_key(name),
        types_with_files(own, files)[name] == files[k][name],
    decreases files.len(),
{
    let d = files.drop_last();
    if k < files.len() - 1 {
        assert forall|j: int| 0 <= j < k implies !(#[trigger] d[j]).contains_key(name) by {
            assert(d[j] == files[j]);
        }
        assert(d[k] == files[k]);
        law_types_directory_first_file_wins(own, d, name, k);
    } else {
        assert forall|j: int| 0 <= j < d.len() implies !(#[trigger] d[j]).contains_key(name) by {
            assert(d[j] == files[j]);
        }
        law_types_directory_swarm_wins(own, d, name);
    }
}

} // verus!
