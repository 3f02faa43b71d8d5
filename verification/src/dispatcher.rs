//! The dispatch engine: turns run and stop requests into commands on the
//! robots' session channels, tracks each batch in the run store, and
//! enforces confirmation of dangerous batches and one active action per
//! robot.

use vstd::prelude::*;

use crate::agent::{send_command, Command, CommandModel, RunAction, RunActionModel};
use crate::api::{ApiTargetsModel, RunRequest, RunResponse, RunResponseModel, RunRobotStatus, RunRobotStatusModel};
use crate::config::{
    ActionConfigModel, RobotConfigModel, SwarmConfigModel, WorkflowOnFailure, WorkflowStep, WorkflowStepModel,
};
use crate::dispatch::{ids_of, inherited, lemma_inherits_is, resolve, resolve_spec, selected_robots};
use crate::error::{template_error_text, ConfigError, ConfigErrorModel};
use crate::registry::{
    config_robot, is_online, meta_map, robot_view_spec, robots_map, runs_map, ActionMetaModel, NoticeModel,
    Notice, Registry, RegistryModel, RobotEntryModel,
};
use crate::runs::{lists_recent, RunGroup, RunGroupModel};
use crate::strmap::{keys_sorted, lemma_sorted_insert_is, lemma_sorted_of_is, pairs_to_map, sorted_insert, sorted_of, StrMap};
use crate::template::{render, resolve_command};
use crate::text::to_owned_string;

verus! {

/// A fresh run id: a random (version 4) UUID from `uuid::Uuid::new_v4`,
/// written in its simple form. Claimed: 32 characters, each a lowercase
/// hex digit; which id comes out is chance.
#[verifier::external_body]
fn new_run_id() -> (r: String)
    ensures
        r@.len() == 32,
        forall|i: int| 0 <= i < 32 ==> is_lower_hex(#[trigger] r@[i]),
{
    uuid::Uuid::new_v4().simple().to_string()
}

/// `c` is one of `0-9a-f`.
pub open spec fn is_lower_hex(c: char) -> bool {
    ('0' <= c && c <= '9') || ('a' <= c && c <= 'f')
}

/// The id an action gets on one robot: `<run id>:<robot id>`.
pub open spec fn action_id_of(run_id: Seq<char>, robot: Seq<char>) -> Seq<char> {
    run_id + ":"@ + robot
}

/// What stays fixed while one batch is dispatched.
pub struct DispatchConsts {
    pub cfg: SwarmConfigModel,
    pub now: u64,
    pub background: bool,
    pub run_id: Seq<char>,
    pub action_name: Seq<char>,
    pub action: ActionConfigModel,
    /// Seconds the agent gives each command, when limited.
    pub timeout: Option<u64>,
}

/// The state of a batch being dispatched: the registry's robots and action
/// metadata, the run's robots, the robots sorted into targeted, busy and
/// offline, and the notices so far.
pub struct DispatchModel {
    pub robots: Map<Seq<char>, RobotEntryModel>,
    pub meta: Map<Seq<char>, ActionMetaModel>,
    pub group: Seq<(Seq<char>, RunRobotStatusModel)>,
    pub targeted: Seq<Seq<char>>,
    pub busy: Seq<Seq<char>>,
    pub offline: Seq<Seq<char>>,
    pub notices: Seq<NoticeModel>,
    /// Commands handed to robot sessions, with the robot.
    pub handed: Seq<(Seq<char>, CommandModel)>,
    /// Whether the session took each command handed, in the same order.
    pub taken: Seq<bool>,
}

/// The time limit a batch runs with: the request's, unless it names none
/// or 0, in which case the action's.
pub open spec fn effective_timeout(requested: Option<u64>, configured: Option<u64>) -> Option<u64> {
    match requested {
        Some(t) => if t > 0 {
            Some(t)
        } else {
            configured
        },
        None => configured,
    }
}

/// The run command robot `r` gets in a batch, its template rendered as
/// `text`: the robot's environment overridden by the action's, the
/// action's directory (none: empty), the batch's time limit (none: 0), and
/// stopped when the robot's session drops.
pub open spec fn run_action_of(c: DispatchConsts, r: RobotConfigModel, text: Seq<char>) -> RunActionModel {
    RunActionModel {
        action_id: action_id_of(c.run_id, r.id),
        action_name: c.action_name,
        command: text,
        env: sorted_of(pairs_to_map(r.env).union_prefer_right(pairs_to_map(c.action.env))),
        cwd: match c.action.cwd {
            Some(d) => d,
            None => Seq::empty(),
        },
        timeout_sec: match c.timeout {
            Some(t) => t as u32,
            None => 0,
        },
        kill_on_disconnect: true,
        background: c.background,
    }
}

/// One robot of a batch. An offline robot is skipped as offline; a robot
/// already running a (non-background) action is skipped as busy unless
/// this batch runs in the background. Otherwise the command is rendered
/// for the robot (a template problem fails the whole batch) and handed to
/// the robot's session when it has one; `sent` is whether the session took
/// it. A robot
/// that took it is targeted: its action is recorded as active (or as a
/// background action) and it runs in the batch; one that did not counts as
/// offline.
pub open spec fn dispatch_step(c: DispatchConsts, s: DispatchModel, r: RobotConfigModel, sent: bool) -> (
    DispatchModel,
    Option<ConfigErrorModel>,
) {
    let id = r.id;
    let v = robot_view_spec(
        if s.robots.contains_key(id) {
            Some(s.robots[id])
        } else {
            None
        },
        config_robot(c.cfg, id),
        s.meta,
        c.now,
    );
    if !v.connected {
        (DispatchModel { offline: s.offline.push(id), ..s }, None)
    } else if !c.background && v.active is Some {
        (DispatchModel { busy: s.busy.push(id), ..s }, None)
    } else {
        match render(c.action.command, r) {
            Err(e) => (
                s,
                Some(ConfigErrorModel::UnknownAction { kind: r.kind, action: template_error_text(e) }),
            ),
            Ok(text) => {
                let s = if s.robots[id].has_channel {
                    DispatchModel {
                        handed: s.handed.push((id, CommandModel::Run(run_action_of(c, r, text)))),
                        taken: s.taken.push(sent),
                        ..s
                    }
                } else {
                    s
                };
                if s.robots[id].has_channel && sent {
                let aid = action_id_of(c.run_id, id);
                let e = s.robots[id];
                (
                    DispatchModel {
                        robots: s.robots.insert(
                            id,
                            if c.background {
                                RobotEntryModel {
                                    background_actions: sorted_insert(e.background_actions, aid, c.action_name),
                                    ..e
                                }
                            } else {
                                RobotEntryModel { active_action_id: Some(aid), ..e }
                            },
                        ),
                        meta: s.meta.insert(aid, ActionMetaModel { action_name: c.action_name, command: text, started_ms: c.now }),
                        group: sorted_insert(
                            s.group,
                            id,
                            RunRobotStatusModel::Running { action_id: aid, started_ms: c.now },
                        ),
                        targeted: s.targeted.push(id),
                        notices: s.notices.push(NoticeModel::Robot { id }),
                        ..s
                    },
                    None,
                )
            } else {
                (DispatchModel { offline: s.offline.push(id), ..s }, None)
            }
            },
        }
    }
}

/// The robots of a batch taken in order, `sent[i]` telling whether the
/// session of robot `i` took its command; stops at the first error.
pub open spec fn dispatch_fold(
    c: DispatchConsts,
    robots: Seq<RobotConfigModel>,
    sent: Seq<bool>,
    s0: DispatchModel,
) -> (DispatchModel, Option<ConfigErrorModel>)
    decreases robots.len(),
{
    if robots.len() == 0 {
        (s0, None)
    } else {
        let (s, err) = dispatch_fold(c, robots.drop_last(), sent.drop_last(), s0);
        if err is Some {
            (s, err)
        } else {
            dispatch_step(c, s, robots.last(), sent.last())
        }
    }
}

proof fn lemma_fold_error_stable(
    c: DispatchConsts,
    robots: Seq<RobotConfigModel>,
    sent: Seq<bool>,
    s0: DispatchModel,
    k: int,
)
    requires
        0 <= k <= robots.len(),
        sent.len() == robots.len(),
        dispatch_fold(c, robots.take(k), sent.take(k), s0).1 is Some,
    ensures
        dispatch_fold(c, robots, sent, s0) == dispatch_fold(c, robots.take(k), sent.take(k), s0),
    decreases robots.len() - k,
{
    if k < robots.len() {
        assert(robots.take(k + 1).drop_last() =~= robots.take(k));
        assert(sent.take(k + 1).drop_last() =~= sent.take(k));
        lemma_fold_error_stable(c, robots, sent, s0, k + 1);
    } else {
        assert(robots.take(k) =~= robots);
        assert(sent.take(k) =~= sent);
    }
}

/// The robots a request resolves to, with the swarm's variables.
pub open spec fn batch_robots(m: RegistryModel, req_targets: ApiTargetsModel) -> Seq<RobotConfigModel> {
    match selected_robots(m.config, req_targets, m.robots.map_values(|p: (Seq<char>, RobotEntryModel)| p.0)) {
        Ok(s) => s.map_values(|r: RobotConfigModel| inherited(r, m.config.vars)),
        Err(_) => Seq::empty(),
    }
}

/// The run a dispatched batch is recorded as.
pub open spec fn batch_group(run_id: Seq<char>, action_name: Seq<char>, now: u64, robots: Seq<(Seq<char>, RunRobotStatusModel)>) -> RunGroupModel {
    RunGroupModel {
        run_id,
        action: action_name,
        created_ms: now,
        robots,
        workflow_name: None,
        current_step: 0,
        total_steps: 0,
        step_run_ids: Seq::empty(),
        current_step_action: Seq::empty(),
    }
}

/// The outcome of dispatching request (`action`, `targets`, `confirm`,
/// `background`, `timeout`) as run `run_id` at time `now`, given the send
/// outcomes `sent`: the new registry, the log of commands handed to robot
/// sessions (`h` before, `h2` after), the result and the notices.
pub open spec fn run_outcome(
    m: RegistryModel,
    m2: RegistryModel,
    action: Seq<char>,
    targets: ApiTargetsModel,
    confirm: bool,
    background: bool,
    timeout: Option<u64>,
    run_id: Seq<char>,
    now: u64,
    sent: Seq<bool>,
    h: Seq<(Seq<char>, CommandModel)>,
    h2: Seq<(Seq<char>, CommandModel)>,
    t: Seq<bool>,
    t2: Seq<bool>,
    result: Result<RunResponseModel, ConfigErrorModel>,
    notices: Seq<NoticeModel>,
) -> bool {
    let known = m.robots.map_values(|p: (Seq<char>, RobotEntryModel)| p.0);
    match resolve_spec(m.config, action, targets, known) {
        Err(e) => result == Err::<RunResponseModel, ConfigErrorModel>(e) && m2 == m && notices.len() == 0 && h2 == h
            && t2 == t,
        Ok((name, act)) => {
            let robots = batch_robots(m, targets);
            if act.dangerous && robots.len() > 1 && !confirm {
                &&& result == Err::<RunResponseModel, ConfigErrorModel>(
                    ConfigErrorModel::ConfirmRequired { action: name, count: robots.len() as usize },
                )
                &&& m2 == m
                &&& notices.len() == 0
                &&& h2 == h
                &&& t2 == t
            } else {
                let c = DispatchConsts {
                    cfg: m.config,
                    now,
                    background: background || act.background,
                    run_id,
                    action_name: name,
                    action: act,
                    timeout: effective_timeout(timeout, act.timeout_sec),
                };
                let s0 = DispatchModel {
                    robots: robots_map(m),
                    meta: meta_map(m),
                    group: Seq::empty(),
                    targeted: Seq::empty(),
                    busy: Seq::empty(),
                    offline: Seq::empty(),
                    notices: Seq::empty(),
                    handed: Seq::empty(),
                    taken: Seq::empty(),
                };
                let (s, err) = dispatch_fold(c, robots, sent, s0);
                &&& sent.len() == robots.len()
                &&& h2 == h + s.handed
                &&& t2 == t + s.taken
                &&& m2.config == m.config
                &&& m2.pending_logs == m.pending_logs
                &&& m2.session_seq == m.session_seq
                &&& robots_map(m2) == s.robots
                &&& meta_map(m2) == s.meta
                &&& match err {
                    Some(e) => {
                        &&& result == Err::<RunResponseModel, ConfigErrorModel>(e)
                        &&& runs_map(m2) == runs_map(m)
                        &&& notices == s.notices
                    },
                    None => {
                        &&& result == Ok::<RunResponseModel, ConfigErrorModel>(
                            RunResponseModel {
                                run_id,
                                action: name,
                                targeted: s.targeted,
                                busy: s.busy,
                                offline: s.offline,
                            },
                        )
                        &&& runs_map(m2) == runs_map(m).insert(run_id, batch_group(run_id, name, now, s.group))
                        &&& notices.len() == s.notices.len() + 1
                        &&& notices.take(s.notices.len() as int) == s.notices
                        &&& notices.last() matches NoticeModel::Runs { runs } && lists_recent(runs, m2.runs, 20)
                    },
                }
            }
        },
    }
}

/// The high-level runner over the registry's robot sessions.
pub struct Dispatcher {
    pub registry: Registry,
    /// Every command handed to a robot's session so far, with the robot.
    pub handed: Ghost<Seq<(Seq<char>, CommandModel)>>,
    /// Whether the session took each command handed so far, in the same
    /// order.
    pub taken: Ghost<Seq<bool>>,
}

impl Dispatcher {
    pub fn new(registry: Registry) -> (r: Self)
        ensures
            r.registry.deep_view() == registry.deep_view(),
            r.handed@ == Seq::<(Seq<char>, CommandModel)>::empty(),
            r.taken@ == Seq::<bool>::empty(),
    {
        Dispatcher { registry, handed: Ghost(Seq::empty()), taken: Ghost(Seq::empty()) }
    }

    /// Hands `cmd` to the session of robot `id`, when it has one, and logs
    /// the command and whether the session took it.
    fn hand_command(&mut self, id: &str, cmd: Command) -> (delivered: bool)
        ensures
            final(self).registry == old(self).registry,
            if old(self).registry.robots.map().contains_key(id@) && old(self).registry.robots.map()[id@].has_channel {
                &&& final(self).handed@ == old(self).handed@.push((id@, cmd.deep_view()))
                &&& final(self).taken@ == old(self).taken@.push(delivered)
            } else {
                &&& final(self).handed@ == old(self).handed@
                &&& final(self).taken@ == old(self).taken@
                &&& !delivered
            },
    {
        let ghost cm = cmd.deep_view();
        let delivered = match self.registry.cmd_tx(id) {
            Some(tx) => {
                let ok = send_command(tx, cmd);
                proof {
                    self.handed@ = self.handed@.push((id@, cm));
                    self.taken@ = self.taken@.push(ok);
                }
                ok
            },
            None => false,
        };
        delivered
    }
}


/// `run_id:robot`.
fn action_id(run_id: &str, robot: &str) -> (r: String)
    ensures
        r@ == action_id_of(run_id@, robot@),
{
    let mut s = to_owned_string(run_id);
    s.append(":");
    s.append(robot);
    s
}

/// The result of a dispatch as a model.
pub open spec fn result_model(r: &Result<RunResponse, ConfigError>) -> Result<RunResponseModel, ConfigErrorModel> {
    match r {
        Ok(resp) => Ok(resp.deep_view()),
        Err(e) => Err(e.deep_view()),
    }
}

impl Dispatcher {
    /// Dispatch a run request as run `run_id` at time `now` (`run_outcome`).
    /// Whether each robot's session took its command is what the sessions
    /// answered, as logged in `taken`.
    pub fn run_with(&mut self, req: RunRequest, run_id: String, now: u64) -> (r: (
        Result<RunResponse, ConfigError>,
        Vec<Notice>,
    ))
        ensures
            exists|sent: Seq<bool>|
                run_outcome(
                    old(self).registry.deep_view(),
                    final(self).registry.deep_view(),
                    req.action@,
                    req.targets.deep_view(),
                    req.confirm,
                    req.background,
                    req.timeout_sec,
                    run_id@,
                    now,
                    sent,
                    old(self).handed@,
                    final(self).handed@,
                    old(self).taken@,
                    final(self).taken@,
                    #[trigger] result_model(&r.0),
                    r.1.deep_view(),
                ),
    {
        let ghost m = self.registry.deep_view();
        let ghost h0 = self.handed@;
        let ghost t0 = self.taken@;
        let known = self.registry.robots.keys();
        let ghost known_ids = m.robots.map_values(|p: (Seq<char>, RobotEntryModel)| p.0);
        let known_slice = known.as_slice();
        assert(known_slice.deep_view() =~= known_ids);
        let resolved = match resolve(&self.registry.config, req.action.as_str(), &req.targets, known_slice) {
            Ok(rr) => rr,
            Err(e) => {
                let notices: Vec<Notice> = Vec::new();
                let r = (Err(e), notices);
                assert(r.1.deep_view() =~= Seq::<NoticeModel>::empty());
                assert(run_outcome(m, self.registry.deep_view(), req.action@, req.targets.deep_view(), req.confirm, req.background, req.timeout_sec, run_id@, now, Seq::empty(), old(self).handed@, self.handed@, old(self).taken@, self.taken@, result_model(&r.0), r.1.deep_view()));
                return r;
            },
        };
        let ghost name = resolved.action_name@;
        let ghost act = resolved.action.deep_view();
        let ghost robots = resolved.robots.deep_view();
        proof {
            let sel = selected_robots(m.config, req.targets.deep_view(), known_ids);
            assert(sel is Ok);
            let s_ok = sel->Ok_0;
            assert forall|i: int| 0 <= i < robots.len() implies #[trigger] robots[i] == inherited(s_ok[i], m.config.vars) by {
                assert(robots[i] == resolved.robots@[i].deep_view());
                lemma_inherits_is(resolved.robots@[i].deep_view(), s_ok[i], m.config.vars);
            }
            assert(robots =~= batch_robots(m, req.targets.deep_view()));
        }
        let n = resolved.robots.len();
        if resolved.dangerous && n > 1 && !req.confirm {
            let notices: Vec<Notice> = Vec::new();
            let r = (Err(ConfigError::ConfirmRequired { action: resolved.action_name.clone(), count: n }), notices);
            assert(r.1.deep_view() =~= Seq::<NoticeModel>::empty());
            assert(run_outcome(m, self.registry.deep_view(), req.action@, req.targets.deep_view(), req.confirm, req.background, req.timeout_sec, run_id@, now, Seq::empty(), old(self).handed@, self.handed@, old(self).taken@, self.taken@, result_model(&r.0), r.1.deep_view()));
            return r;
        }
        let timeout_sec = match req.timeout_sec {
            Some(t) => if t > 0 {
                Some(t)
            } else {
                resolved.action.timeout_sec
            },
            None => resolved.action.timeout_sec,
        };
        let background = req.background || resolved.action.background;
        let mut group = RunGroup::new(run_id.clone(), resolved.action_name.clone(), now, None, 0);
        let mut targeted: Vec<String> = Vec::new();
        let mut busy: Vec<String> = Vec::new();
        let mut offline: Vec<String> = Vec::new();
        let mut notices: Vec<Notice> = Vec::new();
        let ghost c = DispatchConsts {
            cfg: m.config,
            now,
            background,
            run_id: run_id@,
            action_name: name,
            action: act,
            timeout: effective_timeout(req.timeout_sec, act.timeout_sec),
        };
        let ghost s0 = DispatchModel {
            robots: robots_map(m),
            meta: meta_map(m),
            group: Seq::empty(),
            targeted: Seq::empty(),
            busy: Seq::empty(),
            offline: Seq::empty(),
            notices: Seq::empty(),
            handed: Seq::empty(),
            taken: Seq::empty(),
        };
        let ghost mut sent: Seq<bool> = Seq::empty();
        let ghost mut hl: Seq<(Seq<char>, CommandModel)> = Seq::empty();
        let ghost mut tl: Seq<bool> = Seq::empty();
        proof {
            assert(robots.take(0) =~= Seq::<RobotConfigModel>::empty());
            assert(targeted.deep_view() =~= Seq::<Seq<char>>::empty());
            assert(busy.deep_view() =~= Seq::<Seq<char>>::empty());
            assert(offline.deep_view() =~= Seq::<Seq<char>>::empty());
            assert(notices.deep_view() =~= Seq::<NoticeModel>::empty());
        }
        let mut k: usize = 0;
        while k < n
            invariant
                k <= n,
                n == robots.len(),
                m == old(self).registry.deep_view(),
                known_ids == m.robots.map_values(|p: (Seq<char>, RobotEntryModel)| p.0),
                resolve_spec(m.config, req.action@, req.targets.deep_view(), known_ids) == Ok::<
                    (Seq<char>, ActionConfigModel),
                    ConfigErrorModel,
                >((name, act)),
                robots == batch_robots(m, req.targets.deep_view()),
                !(act.dangerous && robots.len() > 1 && !req.confirm),
                background == (req.background || act.background),
                s0 == (DispatchModel {
                    robots: robots_map(m),
                    meta: meta_map(m),
                    group: Seq::empty(),
                    targeted: Seq::empty(),
                    busy: Seq::empty(),
                    offline: Seq::empty(),
                    notices: Seq::empty(),
                    handed: Seq::empty(),
                    taken: Seq::empty(),
                }),
                robots == resolved.robots.deep_view(),
                sent.len() == k,
                c == (DispatchConsts {
                    cfg: m.config,
                    now,
                    background,
                    run_id: run_id@,
                    action_name: name,
                    action: act,
                    timeout: effective_timeout(req.timeout_sec, act.timeout_sec),
                }),
                timeout_sec == effective_timeout(req.timeout_sec, act.timeout_sec),
                h0 == old(self).handed@,
                self.handed@ == h0 + hl,
                t0 == old(self).taken@,
                self.taken@ == t0 + tl,
                name == resolved.action_name@,
                act == resolved.action.deep_view(),
                self.registry.deep_view() == (RegistryModel {
                    robots: self.registry.deep_view().robots,
                    actions_meta: self.registry.deep_view().actions_meta,
                    ..m
                }),
                group.deep_view() == crate::dispatcher::batch_group(run_id@, name, now, group.robots.deep_view()),
                dispatch_fold(c, robots.take(k as int), sent, s0) == (
                    DispatchModel {
                        robots: robots_map(self.registry.deep_view()),
                        meta: meta_map(self.registry.deep_view()),
                        group: group.robots.deep_view(),
                        targeted: targeted.deep_view(),
                        busy: busy.deep_view(),
                        offline: offline.deep_view(),
                        notices: notices.deep_view(),
                        handed: hl,
                        taken: tl,
                    },
                    None::<ConfigErrorModel>,
                ),
            decreases n - k,
        {
            let robot = &resolved.robots[k];
            let ghost rm = robot.deep_view();
            assert(rm == robots[k as int]);
            assert(robots.take(k + 1).drop_last() =~= robots.take(k as int));
            assert(robots.take(k + 1).last() == rm);
            let ghost s = dispatch_fold(c, robots.take(k as int), sent, s0).0;
            let view = self.registry.view_at(robot.id.as_str(), now);
            proof {
                if !s.robots.contains_key(rm.id) {
                    assert(!view.connected);
                }
            }
            if !view.connected {
                let ghost before = offline.deep_view();
                offline.push(robot.id.clone());
                assert(offline.deep_view() =~= before.push(rm.id));
                proof {
                    assert(sent.push(false).drop_last() =~= sent);
                    sent = sent.push(false);
                }
            } else if !background && view.active.is_some() {
                let ghost before = busy.deep_view();
                busy.push(robot.id.clone());
                assert(busy.deep_view() =~= before.push(rm.id));
                proof {
                    assert(sent.push(false).drop_last() =~= sent);
                    sent = sent.push(false);
                }
            } else {
                let rendered = resolve_command(
                    resolved.action.command.as_str(),
                    robot,
                    timeout_sec,
                    &resolved.action.env,
                    crate::strmap::Duplicate::duplicate(&resolved.action.cwd),
                );
                let spec = match rendered {
                    Ok(spec) => spec,
                    Err(e) => {
                        let err = ConfigError::UnknownAction { kind: robot.kind.clone(), action: e.message() };
                        let ghost full = sent.push(false) + Seq::new((n - k - 1) as nat, |i: int| false);
                        proof {
                            assert(sent.push(false).drop_last() =~= sent);
                            assert(render(c.action.command, rm) == Err::<Seq<char>, crate::error::TemplateErrorModel>(e.deep_view()));
                            assert(dispatch_step(c, s, rm, false) == (s, Some(err.deep_view())));
                            assert(dispatch_fold(c, robots.take(k + 1), sent.push(false), s0) == (s, Some(err.deep_view())));
                            assert(full.take(k + 1) =~= sent.push(false));
                            lemma_fold_error_stable(c, robots, full, s0, k + 1);
                        }
                        let r = (Err(err), notices);
                        assert(run_outcome(m, self.registry.deep_view(), req.action@, req.targets.deep_view(), req.confirm, req.background, req.timeout_sec, run_id@, now, full, old(self).handed@, self.handed@, old(self).taken@, self.taken@, result_model(&r.0), r.1.deep_view()));
                        return r;
                    },
                };
                let ghost spec_text = spec.command@;
                let command_text = spec.command.clone();
                let ghost spec_env = spec.env.deep_view();
                proof {
                    use_type_invariant(&spec.env);
                    lemma_sorted_of_is(pairs_to_map(rm.env).union_prefer_right(pairs_to_map(act.env)), spec_env);
                }
                let aid = action_id(run_id.as_str(), robot.id.as_str());
                let cmd = Command::Run(
                    RunAction {
                        action_id: aid.clone(),
                        action_name: resolved.action_name.clone(),
                        command: spec.command,
                        env: spec.env,
                        cwd: match spec.cwd {
                            Some(d) => d,
                            None => String::new(),
                        },
                        timeout_sec: match spec.timeout_sec {
                            Some(t) => (#[verifier::truncate] (t as u32)),
                            None => 0,
                        },
                        kill_on_disconnect: true,
                        background,
                    },
                );
                let ghost cm = cmd.deep_view();
                assert(cm == CommandModel::Run(run_action_of(c, rm, spec_text)));
                let delivered = self.hand_command(robot.id.as_str(), cmd);
                proof {
                    if s.robots[rm.id].has_channel {
                        hl = hl.push((rm.id, cm));
                        tl = tl.push(delivered);
                    }
                    assert(sent.push(delivered).drop_last() =~= sent);
                    sent = sent.push(delivered);
                }
                if delivered {
                    if background {
                        self.registry.mark_background_action(
                            robot.id.as_str(),
                            aid.clone(),
                            resolved.action_name.clone(),
                            command_text,
                            now,
                        );
                    } else {
                        self.registry.mark_action_started(
                            robot.id.as_str(),
                            aid.clone(),
                            resolved.action_name.clone(),
                            command_text,
                            now,
                        );
                    }
                    let ghost gb = group.robots.deep_view();
                    group.robots.insert(robot.id.clone(), RunRobotStatus::Running { action_id: aid, started_ms: now });
                    proof {
                        use_type_invariant(&group.robots);
                        lemma_sorted_insert_is(
                            gb,
                            rm.id,
                            RunRobotStatusModel::Running { action_id: action_id_of(run_id@, rm.id), started_ms: now },
                            group.robots.deep_view(),
                        );
                    }
                    let ghost tb = targeted.deep_view();
                    targeted.push(robot.id.clone());
                    assert(targeted.deep_view() =~= tb.push(rm.id));
                    let ghost nb = notices.deep_view();
                    notices.push(Notice::Robot { id: robot.id.clone() });
                    assert(notices.deep_view() =~= nb.push(NoticeModel::Robot { id: rm.id }));
                } else {
                    let ghost before = offline.deep_view();
                    offline.push(robot.id.clone());
                    assert(offline.deep_view() =~= before.push(rm.id));
                }
            }
            k = k + 1;
        }
        assert(robots.take(n as int) =~= robots);
        let ghost sfin = dispatch_fold(c, robots, sent, s0).0;
        self.registry.run_store.insert(group);
        let runs = self.registry.run_store.recent(20);
        let ghost nb = notices.deep_view();
        notices.push(Notice::Runs { runs });
        assert(notices.deep_view().take(nb.len() as int) =~= nb);
        assert(self.registry.run_store.runs() == runs_map(m).insert(run_id@, batch_group(run_id@, name, now, sfin.group)));
        let resp = RunResponse { run_id, action: resolved.action_name, targeted, busy, offline };
        let r = (Ok(resp), notices);
        assert(run_outcome(m, self.registry.deep_view(), req.action@, req.targets.deep_view(), req.confirm, req.background, req.timeout_sec, resp.run_id@, now, sent, old(self).handed@, self.handed@, old(self).taken@, self.taken@, result_model(&r.0), r.1.deep_view()));
        r
    }

    /// Dispatch a run request now, as a fresh run whose id is 32 lowercase
    /// hex digits.
    pub fn run(&mut self, req: RunRequest) -> (r: (Result<RunResponse, ConfigError>, Vec<Notice>))
        ensures
            exists|run_id: Seq<char>, now: u64, sent: Seq<bool>|
                run_id.len() == 32 && (forall|i: int| 0 <= i < 32 ==> is_lower_hex(#[trigger] run_id[i]))
                    && run_outcome(
                    old(self).registry.deep_view(),
                    final(self).registry.deep_view(),
                    req.action@,
                    req.targets.deep_view(),
                    req.confirm,
                    req.background,
                    req.timeout_sec,
                    run_id,
                    now,
                    sent,
                    old(self).handed@,
                    final(self).handed@,
                    old(self).taken@,
                    final(self).taken@,
                    #[trigger] result_model(&r.0),
                    r.1.deep_view(),
                ),
    {
        let run_id = new_run_id();
        let now = crate::registry::now_ms();
        self.run_with(req, run_id, now)
    }
}


/// The action robot `id` is running in the foreground, as its view shows it:
/// its active action, when that action's metadata is known.
pub open spec fn active_of(m: RegistryModel, id: Seq<char>) -> Option<Seq<char>> {
    if robots_map(m).contains_key(id) {
        match robots_map(m)[id].active_action_id {
            Some(aid) => if meta_map(m).contains_key(aid) {
                Some(aid)
            } else {
                None
            },
            None => None,
        }
    } else {
        None
    }
}

/// The actions a stop request stops on robot `id`: its foreground action if
/// it has one, else all its background actions (in action id order).
pub open spec fn stop_targets(m: RegistryModel, id: Seq<char>) -> Seq<Seq<char>> {
    match active_of(m, id) {
        Some(aid) => seq![aid],
        None => if robots_map(m).contains_key(id) {
            robots_map(m)[id].background_actions.map_values(|p: (Seq<char>, Seq<char>)| p.0)
        } else {
            Seq::empty()
        },
    }
}

/// The robot of every stop command sent, robot by robot in order; only
/// robots with a session get any.
pub open spec fn stop_attempts(m: RegistryModel, robots: Seq<RobotConfigModel>) -> Seq<Seq<char>>
    decreases robots.len(),
{
    if robots.len() == 0 {
        Seq::empty()
    } else {
        let id = robots.last().id;
        stop_attempts(m, robots.drop_last()) + if robots_map(m).contains_key(id) && robots_map(m)[id].has_channel {
            Seq::new(stop_targets(m, id).len(), |i: int| id)
        } else {
            Seq::empty()
        }
    }
}

/// The stop commands a stop request hands out, robot by robot in order,
/// with the robot: one per action `stop_targets` names, for robots with a
/// session.
pub open spec fn stop_commands(m: RegistryModel, robots: Seq<RobotConfigModel>) -> Seq<(Seq<char>, CommandModel)>
    decreases robots.len(),
{
    if robots.len() == 0 {
        Seq::empty()
    } else {
        let id = robots.last().id;
        stop_commands(m, robots.drop_last()) + if robots_map(m).contains_key(id) && robots_map(m)[id].has_channel {
            stop_targets(m, id).map_values(|aid: Seq<char>| (id, CommandModel::Stop { action_id: aid }))
        } else {
            Seq::empty()
        }
    }
}

/// The items of `s` whose outcome in `o` is true, in order.
pub open spec fn picked(s: Seq<Seq<char>>, o: Seq<bool>) -> Seq<Seq<char>>
    decreases s.len(),
{
    if s.len() == 0 {
        Seq::empty()
    } else if o.last() {
        picked(s.drop_last(), o.drop_last()).push(s.last())
    } else {
        picked(s.drop_last(), o.drop_last())
    }
}

impl Dispatcher {
    /// The foreground action of a robot, as its view shows it.
    fn active_action(&self, robot_id: &str) -> (r: Option<String>)
        ensures
            match r {
                Some(a) => active_of(self.registry.deep_view(), robot_id@) == Some(a@),
                None => active_of(self.registry.deep_view(), robot_id@) is None,
            },
    {
        match self.registry.robots.get(robot_id) {
            Some(e) => match &e.active_action_id {
                Some(aid) => if self.registry.actions_meta.contains_key(aid.as_str()) {
                    Some(aid.clone())
                } else {
                    None
                },
                None => None,
            },
            None => None,
        }
    }

    /// Send a stop command for every running action of the targeted robots:
    /// the foreground one, else the background ones. The result lists a
    /// robot once per stop command its session took. The registry is not
    /// changed.
    pub fn stop(&mut self, req: &crate::api::StopRequest) -> (r: Result<Vec<String>, ConfigError>)
        ensures
            final(self).registry == old(self).registry,
            ({
                let m = old(self).registry.deep_view();
                let known = m.robots.map_values(|p: (Seq<char>, RobotEntryModel)| p.0);
                match r {
                    Ok(stopped) => match selected_robots(m.config, req.targets.deep_view(), known) {
                        Ok(robots) => {
                            &&& final(self).handed@ == old(self).handed@ + stop_commands(m, robots)
                            &&& exists|o: Seq<bool>|
                                o.len() == stop_attempts(m, robots).len() && final(self).taken@ == old(self).taken@ + o
                                    && stopped.deep_view() == #[trigger] picked(stop_attempts(m, robots), o)
                        },
                        Err(_) => false,
                    },
                    Err(e) => {
                        &&& selected_robots(m.config, req.targets.deep_view(), known) == Err::<
                            Seq<RobotConfigModel>,
                            ConfigErrorModel,
                        >(e.deep_view())
                        &&& final(self).handed@ == old(self).handed@
                        &&& final(self).taken@ == old(self).taken@
                    },
                }
            }),
    {
        let ghost m = self.registry.deep_view();
        let ghost h0 = self.handed@;
        let ghost t0 = self.taken@;
        let ghost reg0 = self.registry;
        let known = self.registry.robots.keys();
        let known_slice = known.as_slice();
        let ghost known_ids = m.robots.map_values(|p: (Seq<char>, RobotEntryModel)| p.0);
        assert(known_slice.deep_view() =~= known_ids);
        let robots = match crate::dispatch::select_robots(&self.registry.config, &req.targets, known_slice) {
            Ok(v) => v,
            Err(e) => {
                return Err(e);
            },
        };
        let ghost sel = selected_robots(m.config, req.targets.deep_view(), known_ids)->Ok_0;
        proof {
            assert forall|i: int| 0 <= i < sel.len() implies #[trigger] robots@[i].deep_view().id == sel[i].id by {
                lemma_inherits_is(robots@[i].deep_view(), sel[i], m.config.vars);
            }
        }
        let n = robots.len();
        let mut stopped: Vec<String> = Vec::new();
        let ghost mut o: Seq<bool> = Seq::empty();
        let mut k: usize = 0;
        assert(sel.take(0) =~= Seq::<RobotConfigModel>::empty());
        assert(stopped.deep_view() =~= Seq::<Seq<char>>::empty());
        while k < n
            invariant
                k <= n,
                n == sel.len(),
                n == robots@.len(),
                m == self.registry.deep_view(),
                self.registry == reg0,
                h0 == old(self).handed@,
                self.handed@ == h0 + stop_commands(m, sel.take(k as int)),
                forall|i: int| 0 <= i < sel.len() ==> #[trigger] robots@[i].deep_view().id == sel[i].id,
                o.len() == stop_attempts(m, sel.take(k as int)).len(),
                t0 == old(self).taken@,
                self.taken@ == t0 + o,
                stopped.deep_view() == picked(stop_attempts(m, sel.take(k as int)), o),
            decreases n - k,
        {
            let id = robots[k].id.as_str();
            assert(robots@[k as int].deep_view().id == sel[k as int].id);
            assert(sel.take(k + 1).drop_last() =~= sel.take(k as int));
            let ghost att0 = stop_attempts(m, sel.take(k as int));
            let ghost targets = stop_targets(m, id@);
            let ghost chan = robots_map(m).contains_key(id@) && robots_map(m)[id@].has_channel;
            let ghost extra = if chan {
                Seq::new(targets.len(), |i: int| id@)
            } else {
                Seq::empty()
            };
            assert(stop_attempts(m, sel.take(k + 1)) == att0 + extra);
            let ghost hc0 = stop_commands(m, sel.take(k as int));
            let ghost cmds = targets.map_values(|aid: Seq<char>| (id@, CommandModel::Stop { action_id: aid }));
            assert(stop_commands(m, sel.take(k + 1)) == hc0 + if chan {
                cmds
            } else {
                Seq::empty()
            });
            let to_stop: Vec<String> = match self.active_action(id) {
                Some(aid) => {
                    let v = vec![aid];
                    assert(v.deep_view() =~= targets);
                    v
                },
                None => match self.registry.robots.get(id) {
                    Some(e) => {
                        let ks = e.background_actions.keys();
                        assert(ks.deep_view() =~= targets);
                        ks
                    },
                    None => {
                        let v: Vec<String> = Vec::new();
                        assert(v.deep_view() =~= targets);
                        v
                    },
                },
            };
            let nt = to_stop.len();
            let mut j: usize = 0;
            assert(extra.take(0) =~= Seq::<Seq<char>>::empty());
            assert(att0 + extra.take(0) =~= att0);
            assert forall|i: int| 0 <= i < nt implies (#[trigger] to_stop@[i])@ == targets[i] by {
                assert(to_stop.deep_view()[i] == to_stop@[i]@);
            }
            proof {
                if chan {
                    assert(h0 + hc0 + cmds.take(0) =~= h0 + hc0);
                } else {
                    assert(h0 + hc0 + Seq::<(Seq<char>, CommandModel)>::empty() =~= h0 + hc0);
                }
            }
            while j < nt
                invariant
                    j <= nt,
                    nt == targets.len(),
                    nt == to_stop@.len(),
                    m == self.registry.deep_view(),
                    self.registry == reg0,
                    targets == stop_targets(m, id@),
                    forall|i: int| 0 <= i < nt ==> (#[trigger] to_stop@[i])@ == targets[i],
                    cmds == targets.map_values(|aid: Seq<char>| (id@, CommandModel::Stop { action_id: aid })),
                    self.handed@ == h0 + hc0 + if chan {
                        cmds.take(j as int)
                    } else {
                        Seq::empty()
                    },
                    chan == (robots_map(m).contains_key(id@) && robots_map(m)[id@].has_channel),
                    extra == if chan {
                        Seq::new(targets.len(), |i: int| id@)
                    } else {
                        Seq::empty()
                    },
                    o.len() == (att0 + if chan { extra.take(j as int) } else { Seq::empty() }).len(),
                    self.taken@ == t0 + o,
                    stopped.deep_view() == picked(att0 + if chan { extra.take(j as int) } else { Seq::empty() }, o),
                decreases nt - j,
            {
                let cmd = Command::Stop { action_id: to_stop[j].clone() };
                let ghost cm = cmd.deep_view();
                assert((id@, cm) == cmds[j as int]);
                let ok = self.hand_command(id, cmd);
                proof {
                    if chan {
                        let a0 = att0 + extra.take(j as int);
                        let a1 = att0 + extra.take(j + 1);
                        assert(a1 =~= a0.push(id@));
                        assert(a1.drop_last() =~= a0);
                        assert(o.push(ok).drop_last() =~= o);
                        assert(t0 + o.push(ok) =~= (t0 + o).push(ok));
                        assert(cmds.take(j + 1) =~= cmds.take(j as int).push((id@, cm)));
                        assert(h0 + hc0 + cmds.take(j + 1) =~= (h0 + hc0 + cmds.take(j as int)).push((id@, cm)));
                    }
                }
                if ok {
                    stopped.push(id.to_owned());
                }
                proof {
                    if chan {
                        o = o.push(ok);
                    }
                }
                j = j + 1;
            }
            proof {
                if chan {
                    assert(extra.take(nt as int) =~= extra);
                    assert(cmds.take(nt as int) =~= cmds);
                } else {
                    assert(att0 + extra =~= att0);
                    assert(hc0 + Seq::<(Seq<char>, CommandModel)>::empty() =~= hc0);
                }
                assert(h0 + hc0 + (if chan {
                    cmds
                } else {
                    Seq::empty()
                }) =~= h0 + (hc0 + if chan {
                    cmds
                } else {
                    Seq::empty()
                }));
            }
            k = k + 1;
        }
        assert(sel.take(n as int) =~= sel);
        Ok(stopped)
    }

    /// Adopt a robot (see `Registry::adopt`).
    pub fn adopt(&mut self, id: &str, kind: &str, name: Option<&str>) -> (r: Result<Vec<Notice>, ConfigError>)
        ensures
            final(self).handed@ == old(self).handed@,
            final(self).taken@ == old(self).taken@,
            crate::registry::adopt_outcome(
                old(self).registry.deep_view(),
                final(self).registry.deep_view(),
                id@,
                kind@,
                match name {
                    Some(n) => Some(n@),
                    None => None,
                },
                crate::registry::notices_result(&r),
            ),
    {
        self.registry.adopt(id, kind, name)
    }

    /// Release an adopted robot (see `Registry::release`).
    pub fn release(&mut self, id: &str) -> (r: Result<Vec<Notice>, ConfigError>)
        ensures
            final(self).handed@ == old(self).handed@,
            final(self).taken@ == old(self).taken@,
            crate::registry::release_outcome(
                old(self).registry.deep_view(),
                final(self).registry.deep_view(),
                id@,
                crate::registry::notices_result(&r),
            ),
    {
        self.registry.release(id)
    }
}


/// A workflow being driven: its run, its steps, how it treats failures and
/// whether its dangerous steps were confirmed.
#[derive(Debug)]
pub struct WorkflowRun {
    pub run_id: String,
    pub steps: Vec<WorkflowStep>,
    pub on_failure: WorkflowOnFailure,
    pub confirm: bool,
}

/// The workflow run `wf_run_id` of `m` records that step number `n`
/// (counted from 1) was dispatched as run `step_run_id` of `action`,
/// giving `m2`; `notices` carries the updated run. Nothing happens for an
/// unknown run.
pub open spec fn step_recorded(
    m: RegistryModel,
    m2: RegistryModel,
    wf_run_id: Seq<char>,
    n: usize,
    action: Seq<char>,
    step_run_id: Seq<char>,
    notices: Seq<NoticeModel>,
) -> bool {
    &&& m2 == (RegistryModel { runs: m2.runs, ..m })
    &&& if runs_map(m).contains_key(wf_run_id) {
        let g0 = runs_map(m)[wf_run_id];
        let g = RunGroupModel {
            current_step: n,
            current_step_action: action,
            step_run_ids: g0.step_run_ids.push(step_run_id),
            ..g0
        };
        &&& runs_map(m2) == runs_map(m).insert(wf_run_id, g)
        &&& notices == seq![NoticeModel::Run { run: crate::runs::group_view(g) }]
    } else {
        runs_map(m2) == runs_map(m) && notices == Seq::<NoticeModel>::empty()
    }
}

/// Where the driver of a workflow stands.
#[derive(Debug, PartialEq, Eq)]
pub enum WorkflowNext {
    /// Dispatch step `i` (counted from 0).
    Step(usize),
    /// Wait for run `run_id` of step `i` to finish.
    Await(usize, String),
    /// Mark the workflow complete.
    Finish,
}

pub enum WorkflowNextModel {
    Step(usize),
    Await(usize, Seq<char>),
    Finish,
}

impl DeepView for WorkflowNext {
    type V = WorkflowNextModel;

    open spec fn deep_view(&self) -> WorkflowNextModel {
        match self {
            WorkflowNext::Step(i) => WorkflowNextModel::Step(*i),
            WorkflowNext::Await(i, id) => WorkflowNextModel::Await(*i, id@),
            WorkflowNext::Finish => WorkflowNextModel::Finish,
        }
    }
}

/// Step `i` of a workflow of `len` steps, or its end.
pub open spec fn step_or_finish(i: int, len: int) -> WorkflowNextModel {
    if i < len {
        WorkflowNextModel::Step(i as usize)
    } else {
        WorkflowNextModel::Finish
    }
}

/// What follows step `i` (of `len`) when it failed: the workflow ends when
/// it aborts on failure and the step does not continue on error; otherwise
/// the next step runs.
pub open spec fn after_failed_step(on_failure: WorkflowOnFailure, continue_on_error: bool, i: int, len: int) -> WorkflowNextModel {
    if on_failure == WorkflowOnFailure::Abort && !continue_on_error {
        WorkflowNextModel::Finish
    } else {
        step_or_finish(i + 1, len)
    }
}


pub struct WorkflowRunModel {
    pub run_id: Seq<char>,
    pub steps: Seq<WorkflowStepModel>,
    pub on_failure: WorkflowOnFailure,
    pub confirm: bool,
}

impl DeepView for WorkflowRun {
    type V = WorkflowRunModel;

    open spec fn deep_view(&self) -> WorkflowRunModel {
        WorkflowRunModel {
            run_id: self.run_id@,
            steps: self.steps.deep_view(),
            on_failure: self.on_failure,
            confirm: self.confirm,
        }
    }
}

/// The run that tracks workflow `name` with `total` steps.
pub open spec fn workflow_group(run_id: Seq<char>, name: Seq<char>, now: u64, total: nat) -> RunGroupModel {
    RunGroupModel {
        run_id,
        action: name,
        created_ms: now,
        robots: Seq::empty(),
        workflow_name: Some(name),
        current_step: 0,
        total_steps: total as usize,
        step_run_ids: Seq::empty(),
        current_step_action: Seq::empty(),
    }
}

/// Starting workflow `name` as run `run_id` at time `now`: an unknown
/// workflow is an error; otherwise its run is recorded and the driver gets
/// the steps.
pub open spec fn workflow_started(
    m: RegistryModel,
    m2: RegistryModel,
    name: Seq<char>,
    confirm: bool,
    run_id: Seq<char>,
    now: u64,
    r: Result<(RunResponseModel, WorkflowRunModel), ConfigErrorModel>,
    notices: Seq<NoticeModel>,
) -> bool {
    if !pairs_to_map(m.config.workflows).contains_key(name) {
        &&& r == Err::<(RunResponseModel, WorkflowRunModel), ConfigErrorModel>(ConfigErrorModel::UnknownWorkflow { name })
        &&& m2 == m
        &&& notices.len() == 0
    } else {
        let wf = pairs_to_map(m.config.workflows)[name];
        &&& r == Ok::<(RunResponseModel, WorkflowRunModel), ConfigErrorModel>(
            (
                RunResponseModel {
                    run_id,
                    action: name,
                    targeted: Seq::empty(),
                    busy: Seq::empty(),
                    offline: Seq::empty(),
                },
                WorkflowRunModel { run_id, steps: wf.steps, on_failure: wf.on_failure, confirm },
            ),
        )
        &&& m2 == (RegistryModel { runs: m2.runs, ..m })
        &&& runs_map(m2) == runs_map(m).insert(run_id, workflow_group(run_id, name, now, wf.steps.len()))
        &&& notices.len() == 1
        &&& notices[0] matches NoticeModel::Runs { runs } && lists_recent(runs, m2.runs, 20)
    }
}

/// A workflow start result as a model.
pub open spec fn workflow_result(r: &Result<(RunResponse, WorkflowRun), ConfigError>) -> Result<
    (RunResponseModel, WorkflowRunModel),
    ConfigErrorModel,
> {
    match r {
        Ok((resp, wf)) => Ok((resp.deep_view(), wf.deep_view())),
        Err(e) => Err(e.deep_view()),
    }
}

impl WorkflowRun {
    /// The run request of step `i`: its action and targets, with the
    /// workflow's confirmation, no timeout override, in the foreground.
    pub fn step_request(&self, i: usize) -> (r: RunRequest)
        requires
            i < self.steps@.len(),
        ensures
            r.action@ == self.steps@[i as int].action@,
            r.targets.deep_view() == self.steps@[i as int].targets.deep_view(),
            r.confirm == self.confirm,
            r.timeout_sec is None,
            !r.background,
    {
        let step = &self.steps[i];
        RunRequest {
            action: step.action.clone(),
            targets: crate::strmap::Duplicate::duplicate(&step.targets),
            timeout_sec: None,
            confirm: self.confirm,
            background: false,
        }
    }

    /// Where driving this workflow begins: its first step, if any.
    pub fn first_step(&self) -> (r: WorkflowNext)
        ensures
            r.deep_view() == step_or_finish(0, self.steps@.len() as int),
    {
        if self.steps.len() > 0 {
            WorkflowNext::Step(0)
        } else {
            WorkflowNext::Finish
        }
    }

    /// The step after step `i`, or the end.
    pub fn step_after(&self, i: usize) -> (r: WorkflowNext)
        requires
            i < self.steps@.len(),
        ensures
            r.deep_view() == step_or_finish(i + 1, self.steps@.len() as int),
    {
        if i < self.steps.len() - 1 {
            WorkflowNext::Step(i + 1)
        } else {
            WorkflowNext::Finish
        }
    }

    /// The workflow stops at a failed step, unless that step continues on
    /// error (its `on_failure` is abort).
    pub fn aborts_on_dispatch_error(&self) -> (r: bool)
        ensures
            r == (self.on_failure == WorkflowOnFailure::Abort),
    {
        match self.on_failure {
            WorkflowOnFailure::Abort => true,
            WorkflowOnFailure::Continue => false,
        }
    }
}

impl Dispatcher {
    /// Start workflow `name` as run `run_id` at time `now`; the driver then
    /// runs its steps one after the other.
    pub fn run_workflow_with(&mut self, name: &str, confirm: bool, run_id: String, now: u64) -> (r: (
        Result<(RunResponse, WorkflowRun), ConfigError>,
        Vec<Notice>,
    ))
        ensures
            final(self).handed@ == old(self).handed@,
            final(self).taken@ == old(self).taken@,
            workflow_started(
                old(self).registry.deep_view(),
                final(self).registry.deep_view(),
                name@,
                confirm,
                run_id@,
                now,
                workflow_result(&r.0),
                r.1.deep_view(),
            ),
    {
        let wf = match self.registry.config.workflows.get(name) {
            Some(wf) => wf,
            None => {
                let notices: Vec<Notice> = Vec::new();
                return (Err(ConfigError::UnknownWorkflow { name: to_owned_string(name) }), notices);
            },
        };
        let steps = crate::strmap::Duplicate::duplicate(&wf.steps);
        let on_failure = wf.on_failure;
        let total = steps.len();
        let group = RunGroup::new(run_id.clone(), to_owned_string(name), now, Some(to_owned_string(name)), total);
        self.registry.run_store.insert(group);
        let runs = self.registry.run_store.recent(20);
        let notices = vec![Notice::Runs { runs }];
        let resp = RunResponse {
            run_id: run_id.clone(),
            action: to_owned_string(name),
            targeted: Vec::new(),
            busy: Vec::new(),
            offline: Vec::new(),
        };
        assert(resp.targeted.deep_view() =~= Seq::<Seq<char>>::empty());
        assert(resp.busy.deep_view() =~= Seq::<Seq<char>>::empty());
        assert(resp.offline.deep_view() =~= Seq::<Seq<char>>::empty());
        let run = WorkflowRun { run_id, steps, on_failure, confirm };
        (Ok((resp, run)), notices)
    }

    /// Start workflow `name` as a fresh run, now.
    pub fn run_workflow(&mut self, name: &str, confirm: bool) -> (r: (
        Result<(RunResponse, WorkflowRun), ConfigError>,
        Vec<Notice>,
    ))
        ensures
            final(self).handed@ == old(self).handed@,
            final(self).taken@ == old(self).taken@,
            exists|run_id: Seq<char>, now: u64|
                workflow_started(
                    old(self).registry.deep_view(),
                    final(self).registry.deep_view(),
                    name@,
                    confirm,
                    run_id,
                    now,
                    #[trigger] workflow_result(&r.0),
                    r.1.deep_view(),
                ),
    {
        let run_id = new_run_id();
        let now = crate::registry::now_ms();
        self.run_workflow_with(name, confirm, run_id, now)
    }

    /// Record that the workflow dispatched step `i` (counted from 0) as
    /// `step`: the workflow's run shows step `i + 1` with that step's action
    /// and run id.
    pub fn record_workflow_step(&mut self, wf: &WorkflowRun, i: usize, step: &RunResponse) -> (notices: Vec<Notice>)
        requires
            i < usize::MAX,
        ensures
            final(self).handed@ == old(self).handed@,
            final(self).taken@ == old(self).taken@,
            step_recorded(
                old(self).registry.deep_view(),
                final(self).registry.deep_view(),
                wf.run_id@,
                (i + 1) as usize,
                step.action@,
                step.run_id@,
                notices.deep_view(),
            ),
    {
        let mut notices: Vec<Notice> = Vec::new();
        match self.registry.run_store.update_workflow_step(wf.run_id.as_str(), i + 1, step.action.as_str(), step.run_id.as_str()) {
            Some(run) => {
                let ghost rv = run.deep_view();
                notices.push(Notice::Run { run });
                assert(notices.deep_view() =~= seq![NoticeModel::Run { run: rv }]);
            },
            None => {
                assert(notices.deep_view() =~= Seq::<NoticeModel>::empty());
            },
        }
        notices
    }

    /// After step `i` finished as run `step_run_id`: whether the workflow
    /// stops here, which it does when a robot of the step failed, the step
    /// does not continue on error and the workflow aborts on failure.
    pub fn workflow_step_stops(&self, wf: &WorkflowRun, i: usize, step_run_id: &str) -> (r: bool)
        requires
            i < wf.steps@.len(),
        ensures
            r == (self.registry.run_store.run_failed_spec(step_run_id@) && !wf.steps@[i as int].continue_on_error
                && wf.on_failure == WorkflowOnFailure::Abort),
    {
        let failed = self.registry.run_store.run_failed(step_run_id);
        failed && !wf.steps[i].continue_on_error && wf.aborts_on_dispatch_error()
    }

    /// After step `i` of `wf` was dispatched with `result`: a step that could
    /// not be dispatched ends the workflow when the workflow aborts on
    /// failure and the step does not continue on error, and is skipped
    /// otherwise; a dispatched step is recorded on the workflow's run
    /// (as step `i + 1`), and the driver then waits for the step's run.
    pub fn after_dispatch(&mut self, wf: &WorkflowRun, i: usize, result: &Result<RunResponse, ConfigError>) -> (r: (
        WorkflowNext,
        Vec<Notice>,
    ))
        requires
            i < wf.steps@.len(),
        ensures
            final(self).handed@ == old(self).handed@,
            final(self).taken@ == old(self).taken@,
            match result {
                Err(_) => {
                    &&& final(self).registry.deep_view() == old(self).registry.deep_view()
                    &&& r.1.deep_view() == Seq::<NoticeModel>::empty()
                    &&& r.0.deep_view() == after_failed_step(
                        wf.on_failure,
                        wf.steps@[i as int].continue_on_error,
                        i as int,
                        wf.steps@.len() as int,
                    )
                },
                Ok(resp) => {
                    &&& step_recorded(
                        old(self).registry.deep_view(),
                        final(self).registry.deep_view(),
                        wf.run_id@,
                        (i + 1) as usize,
                        resp.action@,
                        resp.run_id@,
                        r.1.deep_view(),
                    )
                    &&& r.0.deep_view() == WorkflowNextModel::Await(i, resp.run_id@)
                },
            },
    {
        match result {
            Err(_) => {
                let notices: Vec<Notice> = Vec::new();
                assert(notices.deep_view() =~= Seq::<NoticeModel>::empty());
                if wf.aborts_on_dispatch_error() && !wf.steps[i].continue_on_error {
                    (WorkflowNext::Finish, notices)
                } else {
                    (wf.step_after(i), notices)
                }
            },
            Ok(resp) => {
                assert(i < wf.steps.len());
                let notices = self.record_workflow_step(wf, i, resp);
                (WorkflowNext::Await(i, resp.run_id.clone()), notices)
            },
        }
    }

    /// After the run `step_run_id` of step `i` finished: the workflow ends
    /// when the step stops it (`workflow_step_stops`), else goes on.
    pub fn after_step(&self, wf: &WorkflowRun, i: usize, step_run_id: &str) -> (r: WorkflowNext)
        requires
            i < wf.steps@.len(),
        ensures
            r.deep_view() == if self.registry.run_store.run_failed_spec(step_run_id@) {
                after_failed_step(wf.on_failure, wf.steps@[i as int].continue_on_error, i as int, wf.steps@.len() as int)
            } else {
                step_or_finish(i + 1, wf.steps@.len() as int)
            },
    {
        if self.workflow_step_stops(wf, i, step_run_id) {
            WorkflowNext::Finish
        } else {
            wf.step_after(i)
        }
    }

    /// Mark the workflow complete: its run shows the last step reached and
    /// no step in progress.
    pub fn finish_workflow(&mut self, wf: &WorkflowRun) -> (notices: Vec<Notice>)
        ensures
            final(self).handed@ == old(self).handed@,
            final(self).taken@ == old(self).taken@,
            ({
                let m = old(self).registry.deep_view();
                let m2 = final(self).registry.deep_view();
                &&& m2 == (RegistryModel { runs: m2.runs, ..m })
                &&& if runs_map(m).contains_key(wf.run_id@) {
                    let g0 = runs_map(m)[wf.run_id@];
                    let g = RunGroupModel {
                        current_step: wf.steps@.len() as usize,
                        current_step_action: Seq::empty(),
                        step_run_ids: g0.step_run_ids.push(Seq::empty()),
                        ..g0
                    };
                    &&& runs_map(m2) == runs_map(m).insert(wf.run_id@, g)
                    &&& notices.deep_view().len() == 1
                    &&& notices.deep_view()[0] matches NoticeModel::Runs { runs } && lists_recent(runs, m2.runs, 20)
                } else {
                    runs_map(m2) == runs_map(m) && notices.deep_view() == Seq::<NoticeModel>::empty()
                }
            }),
    {
        let mut notices: Vec<Notice> = Vec::new();
        let total = wf.steps.len();
        let empty = String::new();
        match self.registry.run_store.update_workflow_step(wf.run_id.as_str(), total, empty.as_str(), empty.as_str()) {
            Some(_) => {
                let runs = self.registry.run_store.recent(20);
                notices.push(Notice::Runs { runs });
            },
            None => {},
        }
        proof {
            if !runs_map(old(self).registry.deep_view()).contains_key(wf.run_id@) {
                assert(notices.deep_view() =~= Seq::<NoticeModel>::empty());
            }
        }
        notices
    }
}

/// One robot of a batch, when it does not fail the batch, lands in exactly
/// one of targeted, busy and offline.
proof fn lemma_step_partition(c: DispatchConsts, s: DispatchModel, r: RobotConfigModel, sent: bool)
    ensures
        dispatch_step(c, s, r, sent).1 is None ==> {
            let s2 = dispatch_step(c, s, r, sent).0;
            (s2.targeted + s2.busy + s2.offline).to_multiset() == (s.targeted + s.busy
                + s.offline).to_multiset().insert(r.id)
        },
{
    broadcast use vstd::seq_lib::group_to_multiset_ensures, vstd::seq_lib::lemma_multiset_commutative, vstd::multiset::group_multiset_axioms;

    let (s2, e) = dispatch_step(c, s, r, sent);
    if e is None {
        let t = s.targeted;
        let b = s.busy;
        let o = s.offline;
        let x = r.id;
        assert((t + b + o).to_multiset() =~= t.to_multiset().add(b.to_multiset()).add(o.to_multiset()));
        if s2.targeted == t.push(x) && s2.busy == b && s2.offline == o {
            assert((t.push(x) + b + o).to_multiset() =~= t.push(x).to_multiset().add(b.to_multiset()).add(
                o.to_multiset(),
            ));
            assert(t.push(x).to_multiset().add(b.to_multiset()).add(o.to_multiset()) =~= t.to_multiset().add(
                b.to_multiset(),
            ).add(o.to_multiset()).insert(x));
        } else if s2.targeted == t && s2.busy == b.push(x) && s2.offline == o {
            assert((t + b.push(x) + o).to_multiset() =~= t.to_multiset().add(b.push(x).to_multiset()).add(
                o.to_multiset(),
            ));
            assert(t.to_multiset().add(b.push(x).to_multiset()).add(o.to_multiset()) =~= t.to_multiset().add(
                b.to_multiset(),
            ).add(o.to_multiset()).insert(x));
        } else {
            assert(s2.targeted == t && s2.busy == b && s2.offline == o.push(x));
            assert(t + b + o.push(x) =~= (t + b + o).push(x));
        }
    }
}

/// A batch dispatched without error accounts for each of its robots once.
proof fn lemma_fold_partition(c: DispatchConsts, robots: Seq<RobotConfigModel>, sent: Seq<bool>, s0: DispatchModel)
    requires
        sent.len() == robots.len(),
        s0.targeted.len() == 0,
        s0.busy.len() == 0,
        s0.offline.len() == 0,
    ensures
        dispatch_fold(c, robots, sent, s0).1 is None ==> {
            let s = dispatch_fold(c, robots, sent, s0).0;
            (s.targeted + s.busy + s.offline).to_multiset() == ids_of(robots).to_multiset()
        },
    decreases robots.len(),
{
    broadcast use vstd::seq_lib::group_to_multiset_ensures;

    if robots.len() == 0 {
        assert(s0.targeted + s0.busy + s0.offline =~= Seq::<Seq<char>>::empty());
        assert(ids_of(robots) =~= Seq::<Seq<char>>::empty());
    } else {
        let pre = robots.drop_last();
        lemma_fold_partition(c, pre, sent.drop_last(), s0);
        assert(ids_of(robots) =~= ids_of(pre).push(robots.last().id));
        let (s, err) = dispatch_fold(c, pre, sent.drop_last(), s0);
        if err is None {
            lemma_step_partition(c, s, robots.last(), sent.last());
        }
    }
}

/// A batch that was dispatched accounts for each of its robots exactly
/// once: the targeted, busy and offline robots of the response together
/// are the ids of the robots the request resolved to, with the same
/// multiplicities, and those are the selected robots' ids.
pub proof fn law_run_partitions_batch(
    m: RegistryModel,
    m2: RegistryModel,
    action: Seq<char>,
    targets: ApiTargetsModel,
    confirm: bool,
    background: bool,
    timeout: Option<u64>,
    run_id: Seq<char>,
    now: u64,
    sent: Seq<bool>,
    h: Seq<(Seq<char>, CommandModel)>,
    h2: Seq<(Seq<char>, CommandModel)>,
    t: Seq<bool>,
    t2: Seq<bool>,
    resp: RunResponseModel,
    notices: Seq<NoticeModel>,
)
    requires
        run_outcome(
            m,
            m2,
            action,
            targets,
            confirm,
            background,
            timeout,
            run_id,
            now,
            sent,
            h,
            h2,
            t,
            t2,
            Ok(resp),
            notices,
        ),
    ensures
        (resp.targeted + resp.busy + resp.offline).to_multiset() == ids_of(batch_robots(m, targets)).to_multiset(),
        ({
            let known = m.robots.map_values(|p: (Seq<char>, RobotEntryModel)| p.0);
            selected_robots(m.config, targets, known) is Ok ==> ids_of(batch_robots(m, targets)) == ids_of(
                selected_robots(m.config, targets, known)->Ok_0,
            )
        }),
{
    let known = m.robots.map_values(|p: (Seq<char>, RobotEntryModel)| p.0);
    match resolve_spec(m.config, action, targets, known) {
        Err(_) => {},
        Ok((name, act)) => {
            let robots = batch_robots(m, targets);
            if !(act.dangerous && robots.len() > 1 && !confirm) {
                let c = DispatchConsts {
                    cfg: m.config,
                    now,
                    background: background || act.background,
                    run_id,
                    action_name: name,
                    action: act,
                    timeout: effective_timeout(timeout, act.timeout_sec),
                };
                let s0 = DispatchModel {
                    robots: robots_map(m),
                    meta: meta_map(m),
                    group: Seq::empty(),
                    targeted: Seq::empty(),
                    busy: Seq::empty(),
                    offline: Seq::empty(),
                    notices: Seq::empty(),
                    handed: Seq::empty(),
                    taken: Seq::empty(),
                };
                lemma_fold_partition(c, robots, sent, s0);
            }
        },
    }
    if selected_robots(m.config, targets, known) is Ok {
        let sel = selected_robots(m.config, targets, known)->Ok_0;
        assert(ids_of(batch_robots(m, targets)) =~= ids_of(sel));
    }
}

/// The robot of each stop command, in order, is the stop attempt at the
/// same place.
proof fn lemma_attempts_are_command_robots(m: RegistryModel, robots: Seq<RobotConfigModel>)
    ensures
        stop_attempts(m, robots) == stop_commands(m, robots).map_values(|p: (Seq<char>, CommandModel)| p.0),
    decreases robots.len(),
{
    if robots.len() > 0 {
        let pre = robots.drop_last();
        lemma_attempts_are_command_robots(m, pre);
        let id = robots.last().id;
        let f = |p: (Seq<char>, CommandModel)| p.0;
        if robots_map(m).contains_key(id) && robots_map(m)[id].has_channel {
            let cmds = stop_targets(m, id).map_values(|aid: Seq<char>| (id, CommandModel::Stop { action_id: aid }));
            assert((stop_commands(m, pre) + cmds).map_values(f) =~= stop_commands(m, pre).map_values(f)
                + Seq::new(stop_targets(m, id).len(), |i: int| id));
        } else {
            assert((stop_commands(m, pre) + Seq::<(Seq<char>, CommandModel)>::empty()).map_values(f)
                =~= stop_commands(m, pre).map_values(f) + Seq::<Seq<char>>::empty());
        }
    }
}

/// Where stop commands go, position by position.
proof fn lemma_stop_commands(m: RegistryModel, robots: Seq<RobotConfigModel>)
    ensures
        forall|k: int|
            0 <= k < stop_commands(m, robots).len() ==> {
                let p = #[trigger] stop_commands(m, robots)[k];
                &&& ids_of(robots).contains(p.0)
                &&& robots_map(m).contains_key(p.0) && robots_map(m)[p.0].has_channel
                &&& p.1 matches CommandModel::Stop { action_id } && stop_targets(m, p.0).contains(action_id)
            },
        forall|i: int, j: int|
            0 <= i < robots.len() && robots_map(m).contains_key(robots[i].id) && robots_map(m)[robots[i].id].has_channel
                && 0 <= j < stop_targets(m, robots[i].id).len() ==> stop_commands(m, robots).contains(
                (robots[i].id, CommandModel::Stop { action_id: #[trigger] stop_targets(m, robots[i].id)[j] }),
            ),
    decreases robots.len(),
{
    if robots.len() > 0 {
        let pre = robots.drop_last();
        lemma_stop_commands(m, pre);
        let id = robots.last().id;
        let last = robots.len() - 1;
        let a = stop_commands(m, pre);
        let chan = robots_map(m).contains_key(id) && robots_map(m)[id].has_channel;
        let x = if chan {
            stop_targets(m, id).map_values(|aid: Seq<char>| (id, CommandModel::Stop { action_id: aid }))
        } else {
            Seq::empty()
        };
        let all = stop_commands(m, robots);
        assert(all == a + x);
        assert(ids_of(robots)[last] == id);
        assert forall|k: int| 0 <= k < all.len() implies {
            let p = #[trigger] all[k];
            &&& ids_of(robots).contains(p.0)
            &&& robots_map(m).contains_key(p.0) && robots_map(m)[p.0].has_channel
            &&& p.1 matches CommandModel::Stop { action_id } && stop_targets(m, p.0).contains(action_id)
        } by {
            if k < a.len() {
                assert(all[k] == a[k]);
                let p = a[k];
                let q = choose|q: int| 0 <= q < ids_of(pre).len() && ids_of(pre)[q] == p.0;
                assert(ids_of(robots)[q] == ids_of(pre)[q]);
            } else {
                let j = k - a.len();
                assert(all[k] == x[j]);
                assert(stop_targets(m, id)[j] == stop_targets(m, id)[j]);
            }
        }
        assert forall|i: int, j: int|
            0 <= i < robots.len() && robots_map(m).contains_key(robots[i].id) && robots_map(m)[robots[i].id].has_channel
                && 0 <= j < stop_targets(m, robots[i].id).len() implies all.contains(
            (robots[i].id, CommandModel::Stop { action_id: #[trigger] stop_targets(m, robots[i].id)[j] }),
        ) by {
            let c = (robots[i].id, CommandModel::Stop { action_id: stop_targets(m, robots[i].id)[j] });
            if i < last {
                assert(pre[i] == robots[i]);
                assert(a.contains(c));
                let q = choose|q: int| 0 <= q < a.len() && a[q] == c;
                assert(all[q] == c);
            } else {
                assert(x[j] == c);
                assert(all[a.len() + j] == c);
            }
        }
    }
}

/// What `picked` gives is drawn from its input.
proof fn lemma_picked_subset(s: Seq<Seq<char>>, o: Seq<bool>)
    requires
        o.len() == s.len(),
    ensures
        forall|k: int| 0 <= k < picked(s, o).len() ==> s.contains(#[trigger] picked(s, o)[k]),
    decreases s.len(),
{
    if s.len() > 0 {
        let pre = s.drop_last();
        lemma_picked_subset(pre, o.drop_last());
        assert forall|k: int| 0 <= k < picked(pre, o.drop_last()).len() implies s.contains(
            #[trigger] picked(pre, o.drop_last())[k],
        ) by {
            let x = picked(pre, o.drop_last())[k];
            let q = choose|q: int| 0 <= q < pre.len() && pre[q] == x;
            assert(s[q] == x);
        }
        assert(s[s.len() - 1] == s.last());
    }
}

/// Stop commands go only where a stop request aims them: each names a
/// robot of the batch that has a session, and an action that robot runs
/// (its foreground action when it has one, else one of its background
/// actions); every such robot and action gets one. The robots a stop
/// reports are robots of the commands handed out.
pub proof fn law_stop_aims(m: RegistryModel, robots: Seq<RobotConfigModel>, o: Seq<bool>)
    requires
        o.len() == stop_attempts(m, robots).len(),
    ensures
        forall|k: int|
            0 <= k < stop_commands(m, robots).len() ==> {
                let p = #[trigger] stop_commands(m, robots)[k];
                &&& ids_of(robots).contains(p.0)
                &&& robots_map(m).contains_key(p.0) && robots_map(m)[p.0].has_channel
                &&& p.1 matches CommandModel::Stop { action_id } && stop_targets(m, p.0).contains(action_id)
            },
        forall|i: int, j: int|
            0 <= i < robots.len() && robots_map(m).contains_key(robots[i].id) && robots_map(m)[robots[i].id].has_channel
                && 0 <= j < stop_targets(m, robots[i].id).len() ==> stop_commands(m, robots).contains(
                (robots[i].id, CommandModel::Stop { action_id: #[trigger] stop_targets(m, robots[i].id)[j] }),
            ),
        stop_attempts(m, robots) == stop_commands(m, robots).map_values(|p: (Seq<char>, CommandModel)| p.0),
        forall|k: int|
            0 <= k < picked(stop_attempts(m, robots), o).len() ==> stop_attempts(m, robots).contains(
                #[trigger] picked(stop_attempts(m, robots), o)[k],
            ),
{
    lemma_stop_commands(m, robots);
    lemma_attempts_are_command_robots(m, robots);
    lemma_picked_subset(stop_attempts(m, robots), o);
}

/// Whether robot `id` counts as online in robot map `robots` at `now`.
pub open spec fn online_in(robots: Map<Seq<char>, RobotEntryModel>, id: Seq<char>, now: u64) -> bool {
    robots.contains_key(id) && is_online(robots[id], now)
}

/// Dispatching a batch changes no robot's presence: who is online stays
/// who was; every targeted robot was online and every robot not online is
/// reported offline, never targeted.
proof fn lemma_fold_presence(c: DispatchConsts, robots: Seq<RobotConfigModel>, sent: Seq<bool>, s0: DispatchModel)
    requires
        sent.len() == robots.len(),
        s0.targeted.len() == 0,
        s0.busy.len() == 0,
        s0.offline.len() == 0,
    ensures
        ({
            let s = dispatch_fold(c, robots, sent, s0).0;
            &&& forall|id: Seq<char>| #[trigger] online_in(s.robots, id, c.now) == online_in(s0.robots, id, c.now)
            &&& forall|k: int| 0 <= k < s.targeted.len() ==> online_in(s0.robots, #[trigger] s.targeted[k], c.now)
            &&& forall|k: int| 0 <= k < s.busy.len() ==> online_in(s0.robots, #[trigger] s.busy[k], c.now)
            &&& s.busy.len() > 0 ==> !c.background
            &&& dispatch_fold(c, robots, sent, s0).1 is None ==> forall|i: int|
                0 <= i < robots.len() && !online_in(s0.robots, #[trigger] robots[i].id, c.now)
                    ==> s.offline.contains(robots[i].id)
        }),
    decreases robots.len(),
{
    if robots.len() > 0 {
        let pre = robots.drop_last();
        lemma_fold_presence(c, pre, sent.drop_last(), s0);
        let (s, err) = dispatch_fold(c, pre, sent.drop_last(), s0);
        if err is None {
            let r = robots.last();
            let id = r.id;
            let (s2, e2) = dispatch_step(c, s, r, sent.last());
            assert(is_online(crate::registry::new_entry(
                match config_robot(c.cfg, id) {
                    Some(x) => x.id,
                    None => Seq::empty(),
                },
            ), c.now) == false);
            assert forall|x: Seq<char>| #[trigger] online_in(s2.robots, x, c.now) == online_in(s.robots, x, c.now) by {
                if s2.robots != s.robots && x == id {
                    assert(s2.robots[id].connected == s.robots[id].connected);
                    assert(s2.robots[id].last_seen_ms == s.robots[id].last_seen_ms);
                }
            }
            assert forall|k: int| 0 <= k < s2.targeted.len() implies online_in(s0.robots, #[trigger] s2.targeted[k], c.now) by {
                if k < s.targeted.len() {
                    assert(s2.targeted[k] == s.targeted[k]);
                } else {
                    assert(s2.targeted[k] == id);
                    assert(online_in(s.robots, id, c.now));
                }
            }
            assert forall|k: int| 0 <= k < s2.busy.len() implies online_in(s0.robots, #[trigger] s2.busy[k], c.now) by {
                if k < s.busy.len() {
                    assert(s2.busy[k] == s.busy[k]);
                } else {
                    assert(s2.busy[k] == id);
                    assert(online_in(s.robots, id, c.now));
                }
            }
            if e2 is None {
                assert forall|i: int|
                    0 <= i < robots.len() && !online_in(s0.robots, #[trigger] robots[i].id, c.now) implies s2.offline.contains(
                    robots[i].id,
                ) by {
                    if i < robots.len() - 1 {
                        assert(pre[i] == robots[i]);
                        assert(s.offline.contains(robots[i].id));
                        let q = choose|q: int| 0 <= q < s.offline.len() && s.offline[q] == robots[i].id;
                        assert(s2.offline[q] == robots[i].id);
                    } else {
                        assert(!online_in(s.robots, id, c.now));
                        assert(s2.offline.last() == id);
                    }
                }
            }
        }
    }
}

/// In a dispatched batch, a robot that was not online when the batch
/// started is reported offline; every robot the batch targeted was online,
/// and so was every robot reported busy, which happens only to batches
/// that do not run in the background.
pub proof fn law_run_offline_robots(
    m: RegistryModel,
    m2: RegistryModel,
    action: Seq<char>,
    targets: ApiTargetsModel,
    confirm: bool,
    background: bool,
    timeout: Option<u64>,
    run_id: Seq<char>,
    now: u64,
    sent: Seq<bool>,
    h: Seq<(Seq<char>, CommandModel)>,
    h2: Seq<(Seq<char>, CommandModel)>,
    t: Seq<bool>,
    t2: Seq<bool>,
    resp: RunResponseModel,
    notices: Seq<NoticeModel>,
)
    requires
        run_outcome(
            m,
            m2,
            action,
            targets,
            confirm,
            background,
            timeout,
            run_id,
            now,
            sent,
            h,
            h2,
            t,
            t2,
            Ok(resp),
            notices,
        ),
    ensures
        forall|i: int|
            0 <= i < batch_robots(m, targets).len() && !online_in(robots_map(m), #[trigger] batch_robots(m, targets)[i].id, now)
                ==> resp.offline.contains(batch_robots(m, targets)[i].id),
        forall|k: int| 0 <= k < resp.targeted.len() ==> online_in(robots_map(m), #[trigger] resp.targeted[k], now),
        forall|k: int| 0 <= k < resp.busy.len() ==> online_in(robots_map(m), #[trigger] resp.busy[k], now),
        resp.busy.len() > 0 ==> !background,
{
    let known = m.robots.map_values(|p: (Seq<char>, RobotEntryModel)| p.0);
    match resolve_spec(m.config, action, targets, known) {
        Err(_) => {},
        Ok((name, act)) => {
            let robots = batch_robots(m, targets);
            if !(act.dangerous && robots.len() > 1 && !confirm) {
                let c = DispatchConsts {
                    cfg: m.config,
                    now,
                    background: background || act.background,
                    run_id,
                    action_name: name,
                    action: act,
                    timeout: effective_timeout(timeout, act.timeout_sec),
                };
                let s0 = DispatchModel {
                    robots: robots_map(m),
                    meta: meta_map(m),
                    group: Seq::empty(),
                    targeted: Seq::empty(),
                    busy: Seq::empty(),
                    offline: Seq::empty(),
                    notices: Seq::empty(),
                    handed: Seq::empty(),
                    taken: Seq::empty(),
                };
                lemma_fold_presence(c, robots, sent, s0);
            }
        },
    }
}

/// Dispatching a batch touches a robot's foreground action only when the
/// batch targets it, and a robot is skipped as busy only when it was
/// running a foreground action: one it had when the batch started, or one
/// this batch gave it.
proof fn lemma_fold_busy(c: DispatchConsts, robots: Seq<RobotConfigModel>, sent: Seq<bool>, s0: DispatchModel)
    requires
        sent.len() == robots.len(),
        s0.targeted.len() == 0,
        s0.busy.len() == 0,
    ensures
        ({
            let s = dispatch_fold(c, robots, sent, s0).0;
            &&& forall|id: Seq<char>| #[trigger] s.robots.contains_key(id) == s0.robots.contains_key(id)
            &&& forall|id: Seq<char>|
                #[trigger] s.robots.contains_key(id) && !s.targeted.contains(id) ==> s.robots[id].active_action_id
                    == s0.robots[id].active_action_id
            &&& forall|k: int|
                0 <= k < s.busy.len() ==> s0.robots.contains_key(#[trigger] s.busy[k]) && (
                s0.robots[s.busy[k]].active_action_id is Some || s.targeted.contains(s.busy[k]))
        }),
    decreases robots.len(),
{
    if robots.len() > 0 {
        let pre = robots.drop_last();
        lemma_fold_busy(c, pre, sent.drop_last(), s0);
        let (s, err) = dispatch_fold(c, pre, sent.drop_last(), s0);
        if err is None {
            let r = robots.last();
            let id = r.id;
            let (s2, e2) = dispatch_step(c, s, r, sent.last());
            assert forall|x: Seq<char>| s.targeted.contains(x) implies #[trigger] s2.targeted.contains(x) by {
                let q = choose|q: int| 0 <= q < s.targeted.len() && s.targeted[q] == x;
                if s2.targeted != s.targeted {
                    assert(s2.targeted == s.targeted.push(id));
                    assert(s2.targeted[q] == x);
                }
            }
            assert forall|x: Seq<char>| #[trigger] s2.robots.contains_key(x) == s0.robots.contains_key(x) by {
                assert(s.robots.contains_key(x) == s0.robots.contains_key(x));
            }
            assert forall|x: Seq<char>|
                #[trigger] s2.robots.contains_key(x) && !s2.targeted.contains(x) implies s2.robots[x].active_action_id
                == s0.robots[x].active_action_id by {
                assert(s.robots.contains_key(x));
                if s2.robots != s.robots && x == id {
                    if s2.targeted == s.targeted {
                        assert(s2.robots[x].active_action_id == s.robots[x].active_action_id);
                    } else {
                        assert(s2.targeted == s.targeted.push(id));
                        assert(s2.targeted[s.targeted.len() as int] == id);
                    }
                }
                assert(!s.targeted.contains(x));
            }
            assert forall|k: int| 0 <= k < s2.busy.len() implies s0.robots.contains_key(#[trigger] s2.busy[k]) && (
            s0.robots[s2.busy[k]].active_action_id is Some || s2.targeted.contains(s2.busy[k])) by {
                if k < s.busy.len() {
                    assert(s2.busy[k] == s.busy[k]);
                    if s.targeted.contains(s.busy[k]) {
                        assert(s2.targeted.contains(s.busy[k]));
                    }
                } else {
                    assert(s2.busy == s.busy.push(id));
                    assert(s2.busy[k] == id);
                    assert(s.robots.contains_key(id));
                    assert(s.robots[id].active_action_id is Some);
                    if s.targeted.contains(id) {
                        assert(s2.targeted.contains(id));
                    }
                }
            }
        }
    }
}

/// In a dispatched batch a robot is reported busy only when it was running
/// a foreground action: one it had when the batch started, or one this
/// batch gave it (its id came earlier in the batch).
pub proof fn law_run_busy_robots(
    m: RegistryModel,
    m2: RegistryModel,
    action: Seq<char>,
    targets: ApiTargetsModel,
    confirm: bool,
    background: bool,
    timeout: Option<u64>,
    run_id: Seq<char>,
    now: u64,
    sent: Seq<bool>,
    h: Seq<(Seq<char>, CommandModel)>,
    h2: Seq<(Seq<char>, CommandModel)>,
    t: Seq<bool>,
    t2: Seq<bool>,
    resp: RunResponseModel,
    notices: Seq<NoticeModel>,
)
    requires
        run_outcome(
            m,
            m2,
            action,
            targets,
            confirm,
            background,
            timeout,
            run_id,
            now,
            sent,
            h,
            h2,
            t,
            t2,
            Ok(resp),
            notices,
        ),
    ensures
        forall|k: int|
            0 <= k < resp.busy.len() ==> robots_map(m).contains_key(#[trigger] resp.busy[k]) && (
            robots_map(m)[resp.busy[k]].active_action_id is Some || resp.targeted.contains(resp.busy[k])),
{
    let known = m.robots.map_values(|p: (Seq<char>, RobotEntryModel)| p.0);
    match resolve_spec(m.config, action, targets, known) {
        Err(_) => {},
        Ok((name, act)) => {
            let robots = batch_robots(m, targets);
            if !(act.dangerous && robots.len() > 1 && !confirm) {
                let c = DispatchConsts {
                    cfg: m.config,
                    now,
                    background: background || act.background,
                    run_id,
                    action_name: name,
                    action: act,
                    timeout: effective_timeout(timeout, act.timeout_sec),
                };
                let s0 = DispatchModel {
                    robots: robots_map(m),
                    meta: meta_map(m),
                    group: Seq::empty(),
                    targeted: Seq::empty(),
                    busy: Seq::empty(),
                    offline: Seq::empty(),
                    notices: Seq::empty(),
                    handed: Seq::empty(),
                    taken: Seq::empty(),
                };
                lemma_fold_busy(c, robots, sent, s0);
            }
        },
    }
}

/// A workflow's failure rules: a failed step that continues on error, or
/// any failed step of a workflow that continues on failure, goes on to the
/// next step (the workflow finishes after its last one); a failed step that
/// does not continue on error ends a workflow that aborts on failure.
pub proof fn law_workflow_failure(on_failure: WorkflowOnFailure, continue_on_error: bool, i: int, len: int)
    requires
        0 <= i < len,
    ensures
        continue_on_error || on_failure == WorkflowOnFailure::Continue ==> after_failed_step(
            on_failure,
            continue_on_error,
            i,
            len,
        ) == step_or_finish(i + 1, len),
        !continue_on_error && on_failure == WorkflowOnFailure::Abort ==> after_failed_step(
            on_failure,
            continue_on_error,
            i,
            len,
        ) == WorkflowNextModel::Finish,
        i + 1 < len ==> step_or_finish(i + 1, len) == WorkflowNextModel::Step((i + 1) as usize),
{
}

/// Starting a configured workflow gives a run that carries the workflow's
/// configured steps and failure policy, the confirmation asked for and the
/// run's id; only a workflow the config names can be started.
pub proof fn law_workflow_run_carries_config(
    m: RegistryModel,
    m2: RegistryModel,
    name: Seq<char>,
    confirm: bool,
    run_id: Seq<char>,
    now: u64,
    r: Result<(RunResponseModel, WorkflowRunModel), ConfigErrorModel>,
    notices: Seq<NoticeModel>,
)
    requires
        workflow_started(m, m2, name, confirm, run_id, now, r, notices),
    ensures
        r is Ok <==> pairs_to_map(m.config.workflows).contains_key(name),
        r matches Ok((resp, run)) ==> {
            &&& run.on_failure == pairs_to_map(m.config.workflows)[name].on_failure
            &&& run.steps == pairs_to_map(m.config.workflows)[name].steps
            &&& run.confirm == confirm
            &&& run.run_id == run_id
            &&& resp.run_id == run_id
        },
{
}

/// The commands a batch hands out are run commands with the batch's action
/// name, the action's working directory (empty when it configures none),
/// the batch's time limit (0 for none), its background flag, stopped when
/// the session drops, and the action id `<run id>:<robot id>`.
proof fn lemma_fold_commands(c: DispatchConsts, robots: Seq<RobotConfigModel>, sent: Seq<bool>, s0: DispatchModel)
    requires
        s0.handed.len() == 0,
    ensures
        forall|k: int|
            0 <= k < dispatch_fold(c, robots, sent, s0).0.handed.len() ==> ((#[trigger] dispatch_fold(
                c,
                robots,
                sent,
                s0,
            ).0.handed[k]).1 matches CommandModel::Run(ra) && ra.cwd == (match c.action.cwd {
                Some(d) => d,
                None => Seq::<char>::empty(),
            }) && ra.action_name == c.action_name && ra.background == c.background && ra.kill_on_disconnect
                && ra.timeout_sec == (match c.timeout {
                Some(t) => t as u32,
                None => 0u32,
            }) && ra.action_id == c.run_id + ":"@ + dispatch_fold(c, robots, sent, s0).0.handed[k].0),
    decreases robots.len(),
{
    if robots.len() > 0 {
        let pre = robots.drop_last();
        lemma_fold_commands(c, pre, sent.drop_last(), s0);
        let (s, err) = dispatch_fold(c, pre, sent.drop_last(), s0);
        if err is None {
            let (s2, e2) = dispatch_step(c, s, robots.last(), sent.last());
            assert forall|k: int| 0 <= k < s2.handed.len() implies ((#[trigger] s2.handed[k]).1 matches CommandModel::Run(
                ra,
            ) && ra.cwd == (match c.action.cwd {
                Some(d) => d,
                None => Seq::<char>::empty(),
            }) && ra.action_name == c.action_name && ra.background == c.background && ra.kill_on_disconnect
                && ra.timeout_sec == (match c.timeout {
                Some(t) => t as u32,
                None => 0u32,
            }) && ra.action_id == c.run_id + ":"@ + s2.handed[k].0) by {
                if k < s.handed.len() {
                    assert(s2.handed[k] == s.handed[k]);
                }
            }
        }
    }
}

/// Every command a run request hands out is a run command for the robot it
/// goes to, with action id `<run id>:<robot id>`, carrying the requested
/// action's name and the working directory the action configures (empty
/// when it configures none), the request's time limit unless it names none
/// or 0 (then the action's, and 0 for none), stopped when the robot's
/// session drops, and run in the background exactly when the request or
/// the action asks for it.
pub proof fn law_run_commands_carry_action(
    m: RegistryModel,
    m2: RegistryModel,
    action: Seq<char>,
    targets: ApiTargetsModel,
    confirm: bool,
    background: bool,
    timeout: Option<u64>,
    run_id: Seq<char>,
    now: u64,
    sent: Seq<bool>,
    h: Seq<(Seq<char>, CommandModel)>,
    h2: Seq<(Seq<char>, CommandModel)>,
    t: Seq<bool>,
    t2: Seq<bool>,
    result: Result<RunResponseModel, ConfigErrorModel>,
    notices: Seq<NoticeModel>,
)
    requires
        run_outcome(
            m,
            m2,
            action,
            targets,
            confirm,
            background,
            timeout,
            run_id,
            now,
            sent,
            h,
            h2,
            t,
            t2,
            result,
            notices,
        ),
    ensures
        h2.len() >= h.len(),
        forall|k: int|
            h.len() <= k < h2.len() ==> {
                let act = resolve_spec(m.config, action, targets, m.robots.map_values(|p: (Seq<char>, RobotEntryModel)| p.0))->Ok_0;
                &&& ((#[trigger] h2[k]).1 matches CommandModel::Run(ra) && ra.cwd == (match act.1.cwd {
                    Some(d) => d,
                    None => Seq::<char>::empty(),
                }) && ra.action_name == act.0 && ra.background == (background || act.1.background)
                    && ra.kill_on_disconnect && ra.action_id == run_id + ":"@ + h2[k].0 && ra.timeout_sec == (match (
                    match timeout {
                        Some(t) => if t > 0 {
                            Some(t)
                        } else {
                            act.1.timeout_sec
                        },
                        None => act.1.timeout_sec,
                    }) {
                    Some(t) => t as u32,
                    None => 0u32,
                }))
            },
{
    let known = m.robots.map_values(|p: (Seq<char>, RobotEntryModel)| p.0);
    match resolve_spec(m.config, action, targets, known) {
        Err(_) => {},
        Ok((name, act)) => {
            let robots = batch_robots(m, targets);
            if !(act.dangerous && robots.len() > 1 && !confirm) {
                let c = DispatchConsts {
                    cfg: m.config,
                    now,
                    background: background || act.background,
                    run_id,
                    action_name: name,
                    action: act,
                    timeout: effective_timeout(timeout, act.timeout_sec),
                };
                let s0 = DispatchModel {
                    robots: robots_map(m),
                    meta: meta_map(m),
                    group: Seq::empty(),
                    targeted: Seq::empty(),
                    busy: Seq::empty(),
                    offline: Seq::empty(),
                    notices: Seq::empty(),
                    handed: Seq::empty(),
                    taken: Seq::empty(),
                };
                lemma_fold_commands(c, robots, sent, s0);
                let s = dispatch_fold(c, robots, sent, s0).0;
                assert forall|k: int| h.len() <= k < h2.len() implies ((#[trigger] h2[k]).1 matches CommandModel::Run(ra)
                    && ra.cwd == (match act.cwd {
                    Some(d) => d,
                    None => Seq::<char>::empty(),
                }) && ra.action_name == name && ra.background == (background || act.background)
                    && ra.kill_on_disconnect && ra.action_id == run_id + ":"@ + h2[k].0 && ra.timeout_sec == (match (
                    match timeout {
                        Some(t) => if t > 0 {
                            Some(t)
                        } else {
                            act.timeout_sec
                        },
                        None => act.timeout_sec,
                    }) {
                    Some(t) => t as u32,
                    None => 0u32,
                })) by {
                    assert(h2[k] == s.handed[k - h.len()]);
                }
            }
        },
    }
}

/// A stop request reaches every action of the targeted robots that have a
/// session: the foreground action of a robot that runs one, and otherwise
/// each of its background actions, every one named by a stop command to
/// that robot.
pub proof fn law_stop_reaches_every_action(m: RegistryModel, robots: Seq<RobotConfigModel>)
    ensures
        forall|i: int|
            0 <= i < robots.len() && robots_map(m).contains_key(#[trigger] robots[i].id)
                && robots_map(m)[robots[i].id].has_channel && robots_map(m)[robots[i].id].active_action_id is Some
                && meta_map(m).contains_key(robots_map(m)[robots[i].id].active_action_id->Some_0)
                ==> stop_commands(m, robots).contains(
                (robots[i].id, CommandModel::Stop { action_id: robots_map(m)[robots[i].id].active_action_id->Some_0 }),
            ),
        forall|i: int, j: int|
            0 <= i < robots.len() && robots_map(m).contains_key(robots[i].id) && robots_map(m)[robots[i].id].has_channel
                && !(robots_map(m)[robots[i].id].active_action_id matches Some(a) && meta_map(m).contains_key(a))
                && 0 <= j < robots_map(m)[robots[i].id].background_actions.len() ==> stop_commands(m, robots).contains(
                (robots[i].id, CommandModel::Stop { action_id: (#[trigger] robots_map(m)[robots[i].id].background_actions[j]).0 }),
            ),
{
    lemma_stop_commands(m, robots);
    assert forall|i: int|
        0 <= i < robots.len() && robots_map(m).contains_key(#[trigger] robots[i].id)
            && robots_map(m)[robots[i].id].has_channel && robots_map(m)[robots[i].id].active_action_id is Some
            && meta_map(m).contains_key(robots_map(m)[robots[i].id].active_action_id->Some_0)
            implies stop_commands(m, robots).contains(
        (robots[i].id, CommandModel::Stop { action_id: robots_map(m)[robots[i].id].active_action_id->Some_0 }),
    ) by {
        let id = robots[i].id;
        let a = robots_map(m)[id].active_action_id->Some_0;
        assert(active_of(m, id) == Some(a));
        assert(stop_targets(m, id) == seq![a]);
        assert(stop_targets(m, id)[0] == a);
    }
    assert forall|i: int, j: int|
        0 <= i < robots.len() && robots_map(m).contains_key(robots[i].id) && robots_map(m)[robots[i].id].has_channel
            && !(robots_map(m)[robots[i].id].active_action_id matches Some(a) && meta_map(m).contains_key(a))
            && 0 <= j < robots_map(m)[robots[i].id].background_actions.len() implies stop_commands(m, robots).contains(
        (robots[i].id, CommandModel::Stop { action_id: (#[trigger] robots_map(m)[robots[i].id].background_actions[j]).0 }),
    ) by {
        let id = robots[i].id;
        assert(active_of(m, id) is None);
        let bg = robots_map(m)[id].background_actions;
        assert(stop_targets(m, id) == bg.map_values(|p: (Seq<char>, Seq<char>)| p.0));
        assert(stop_targets(m, id)[j] == bg[j].0);
    }
}

/// Command `h` (with its robot) is a run command made for robot `r` from
/// the command template `template` and the action environment `env`: it
/// goes to `r`, its command is the template rendered for `r`, and its
/// environment is `r`'s own overridden by the action's, in key order.
pub open spec fn made_for(
    h: (Seq<char>, CommandModel),
    r: RobotConfigModel,
    template: Seq<char>,
    env: Seq<(Seq<char>, Seq<char>)>,
) -> bool {
    &&& h.0 == r.id
    &&& h.1 matches CommandModel::Run(ra)
    &&& render(template, r) == Ok::<Seq<char>, crate::error::TemplateErrorModel>(ra.command)
    &&& ra.env == sorted_of(pairs_to_map(r.env).union_prefer_right(pairs_to_map(env)))
}

/// Command `h` is made for one of `robots` (see `made_for`).
pub open spec fn made_for_one_of(
    h: (Seq<char>, CommandModel),
    robots: Seq<RobotConfigModel>,
    template: Seq<char>,
    env: Seq<(Seq<char>, Seq<char>)>,
) -> bool {
    exists|i: int| 0 <= i < robots.len() && #[trigger] made_for(h, robots[i], template, env)
}

/// Each command a batch hands out is made for one of the batch's robots.
proof fn lemma_fold_commands_robot(c: DispatchConsts, robots: Seq<RobotConfigModel>, sent: Seq<bool>, s0: DispatchModel)
    requires
        s0.handed.len() == 0,
        sent.len() == robots.len(),
    ensures
        forall|k: int|
            0 <= k < dispatch_fold(c, robots, sent, s0).0.handed.len() ==> made_for_one_of(
                #[trigger] dispatch_fold(c, robots, sent, s0).0.handed[k],
                robots,
                c.action.command,
                c.action.env,
            ),
    decreases robots.len(),
{
    if robots.len() > 0 {
        let pre = robots.drop_last();
        lemma_fold_commands_robot(c, pre, sent.drop_last(), s0);
        let (s, err) = dispatch_fold(c, pre, sent.drop_last(), s0);
        if err is None {
            let r = robots.last();
            let last = robots.len() - 1;
            let (s2, e2) = dispatch_step(c, s, r, sent.last());
            assert forall|k: int| 0 <= k < s2.handed.len() implies made_for_one_of(
                #[trigger] s2.handed[k],
                robots,
                c.action.command,
                c.action.env,
            ) by {
                if k < s.handed.len() {
                    assert(s2.handed[k] == s.handed[k]);
                    assert(made_for_one_of(s.handed[k], pre, c.action.command, c.action.env));
                    let i = choose|i: int| 0 <= i < pre.len() && #[trigger] made_for(s.handed[k], pre[i], c.action.command, c.action.env);
                    assert(pre[i] == robots[i]);
                } else {
                    assert(robots[last] == r);
                    assert(made_for(s2.handed[k], robots[last], c.action.command, c.action.env));
                }
            }
        }
    }
}

/// The action a run request of `action` on `targets` resolves to.
pub open spec fn requested_action(m: RegistryModel, action: Seq<char>, targets: ApiTargetsModel) -> ActionConfigModel {
    resolve_spec(m.config, action, targets, m.robots.map_values(|p: (Seq<char>, RobotEntryModel)| p.0))->Ok_0.1
}

/// Every run command a run request hands out is made for one of the
/// robots the request resolved to: it goes to that robot, carries the
/// action's command template rendered for it, and the robot's environment
/// overridden by the action's.
pub proof fn law_run_commands_made_for_robots(
    m: RegistryModel,
    m2: RegistryModel,
    action: Seq<char>,
    targets: ApiTargetsModel,
    confirm: bool,
    background: bool,
    timeout: Option<u64>,
    run_id: Seq<char>,
    now: u64,
    sent: Seq<bool>,
    h: Seq<(Seq<char>, CommandModel)>,
    h2: Seq<(Seq<char>, CommandModel)>,
    t: Seq<bool>,
    t2: Seq<bool>,
    result: Result<RunResponseModel, ConfigErrorModel>,
    notices: Seq<NoticeModel>,
)
    requires
        run_outcome(
            m,
            m2,
            action,
            targets,
            confirm,
            background,
            timeout,
            run_id,
            now,
            sent,
            h,
            h2,
            t,
            t2,
            result,
            notices,
        ),
    ensures
        forall|k: int|
            h.len() <= k < h2.len() ==> made_for_one_of(
                #[trigger] h2[k],
                batch_robots(m, targets),
                requested_action(m, action, targets).command,
                requested_action(m, action, targets).env,
            ),
{
    let known = m.robots.map_values(|p: (Seq<char>, RobotEntryModel)| p.0);
    match resolve_spec(m.config, action, targets, known) {
        Err(_) => {},
        Ok((name, act)) => {
            let robots = batch_robots(m, targets);
            if !(act.dangerous && robots.len() > 1 && !confirm) {
                let c = DispatchConsts {
                    cfg: m.config,
                    now,
                    background: background || act.background,
                    run_id,
                    action_name: name,
                    action: act,
                    timeout: effective_timeout(timeout, act.timeout_sec),
                };
                let s0 = DispatchModel {
                    robots: robots_map(m),
                    meta: meta_map(m),
                    group: Seq::empty(),
                    targeted: Seq::empty(),
                    busy: Seq::empty(),
                    offline: Seq::empty(),
                    notices: Seq::empty(),
                    handed: Seq::empty(),
                    taken: Seq::empty(),
                };
                lemma_fold_commands_robot(c, robots, sent, s0);
                let s = dispatch_fold(c, robots, sent, s0).0;
                assert forall|k: int| h.len() <= k < h2.len() implies made_for_one_of(
                    #[trigger] h2[k],
                    robots,
                    act.command,
                    act.env,
                ) by {
                    assert(h2[k] == s.handed[k - h.len()]);
                }
            }
        },
    }
}

} // verus!
