//! The messages exchanged with robot agents over their session stream, the
//! session channel commands travel on, and the agent's side: its table of
//! running actions and what it reports about them.

use vstd::prelude::*;

use crate::strmap::{StrMap, pairs_to_map};
use crate::config::{AgentConfig, AgentControllerConfig};
use crate::text::{
    find_char, first_index, index_of_char, lemma_first_index_is, lemma_first_index_none, str_trim, to_owned_string,
    trim_seq,
};

verus! {

/// One report an agent sends up its session.
#[derive(Debug)]
pub enum Report {
    /// First message of a session.
    Register { robot_id: String, id_code: String, agent_version: String, hostname: String, name: String },
    Heartbeat,
    /// Periodic status; `active_action_id` is empty when nothing runs.
    Status { active_action_id: String },
    /// A chunk of action output.
    Log { action_id: String, data: Vec<u8>, stderr: bool },
    /// An action finished.
    Result {
        action_id: String,
        exit_code: u32,
        killed: bool,
        error: String,
        started_ms: u64,
        finished_ms: u64,
    },
    /// The agent accepted or refused a run command.
    Ack { action_id: String, accepted: bool, reason: String },
}

pub enum ReportModel {
    Register {
        robot_id: Seq<char>,
        id_code: Seq<char>,
        agent_version: Seq<char>,
        hostname: Seq<char>,
        name: Seq<char>,
    },
    Heartbeat,
    Status { active_action_id: Seq<char> },
    Log { action_id: Seq<char>, data: Seq<u8>, stderr: bool },
    Result {
        action_id: Seq<char>,
        exit_code: u32,
        killed: bool,
        error: Seq<char>,
        started_ms: u64,
        finished_ms: u64,
    },
    Ack { action_id: Seq<char>, accepted: bool, reason: Seq<char> },
}

impl DeepView for Report {
    type V = ReportModel;

    open spec fn deep_view(&self) -> ReportModel {
        match self {
            Report::Register { robot_id, id_code, agent_version, hostname, name } => ReportModel::Register {
                robot_id: robot_id@,
                id_code: id_code@,
                agent_version: agent_version@,
                hostname: hostname@,
                name: name@,
            },
            Report::Heartbeat => ReportModel::Heartbeat,
            Report::Status { active_action_id } => ReportModel::Status {
                active_action_id: active_action_id@,
            },
            Report::Log { action_id, data, stderr } => ReportModel::Log {
                action_id: action_id@,
                data: data@,
                stderr: *stderr,
            },
            Report::Result { action_id, exit_code, killed, error, started_ms, finished_ms } =>
                ReportModel::Result {
                action_id: action_id@,
                exit_code: *exit_code,
                killed: *killed,
                error: error@,
                started_ms: *started_ms,
                finished_ms: *finished_ms,
            },
            Report::Ack { action_id, accepted, reason } => ReportModel::Ack {
                action_id: action_id@,
                accepted: *accepted,
                reason: reason@,
            },
        }
    }
}

/// Start an action on an agent.
#[derive(Debug)]
pub struct RunAction {
    pub action_id: String,
    pub action_name: String,
    pub command: String,
    pub env: StrMap<String>,
    pub cwd: String,
    /// Seconds; 0 means no limit.
    pub timeout_sec: u32,
    pub kill_on_disconnect: bool,
    pub background: bool,
}

pub struct RunActionModel {
    pub action_id: Seq<char>,
    pub action_name: Seq<char>,
    pub command: Seq<char>,
    pub env: Seq<(Seq<char>, Seq<char>)>,
    pub cwd: Seq<char>,
    pub timeout_sec: u32,
    pub kill_on_disconnect: bool,
    pub background: bool,
}

impl DeepView for RunAction {
    type V = RunActionModel;

    open spec fn deep_view(&self) -> RunActionModel {
        RunActionModel {
            action_id: self.action_id@,
            action_name: self.action_name@,
            command: self.command@,
            env: self.env.deep_view(),
            cwd: self.cwd@,
            timeout_sec: self.timeout_sec,
            kill_on_disconnect: self.kill_on_disconnect,
            background: self.background,
        }
    }
}

/// One command the host sends down an agent's session.
#[derive(Debug)]
pub enum Command {
    Run(RunAction),
    Stop { action_id: String },
    Ping,
}

pub enum CommandModel {
    Run(RunActionModel),
    Stop { action_id: Seq<char> },
    Ping,
}

impl DeepView for Command {
    type V = CommandModel;

    open spec fn deep_view(&self) -> CommandModel {
        match self {
            Command::Run(r) => CommandModel::Run(r.deep_view()),
            Command::Stop { action_id } => CommandModel::Stop { action_id: action_id@ },
            Command::Ping => CommandModel::Ping,
        }
    }
}

/// What an agent runner tells its session about an action.
#[derive(Debug)]
pub enum RunnerEvent {
    Log { action_id: String, stderr: bool, line: String },
    Done {
        action_id: String,
        exit_code: Option<u32>,
        killed: bool,
        error: Option<String>,
        started_ms: u64,
        finished_ms: u64,
    },
}

impl RunnerEvent {
    /// The report an agent sends up for this event: log lines as bytes,
    /// results with exit code 1 when the process gave none.
    pub fn into_report(self) -> (r: Report)
        ensures
            match self {
                RunnerEvent::Log { action_id, stderr, line } => r.deep_view() == ReportModel::Log {
                    action_id: action_id@,
                    data: vstd::utf8::encode_utf8(line@),
                    stderr,
                },
                RunnerEvent::Done { action_id, exit_code, killed, error, started_ms, finished_ms } =>
                    r.deep_view() == ReportModel::Result {
                    action_id: action_id@,
                    exit_code: match exit_code {
                        Some(c) => c,
                        None => 1,
                    },
                    killed,
                    error: match error {
                        Some(e) => e@,
                        None => Seq::empty(),
                    },
                    started_ms,
                    finished_ms,
                },
            },
    {
        match self {
            RunnerEvent::Log { action_id, stderr, line } => {
                let data = line.as_str().as_bytes_vec();
                Report::Log { action_id, data, stderr }
            },
            RunnerEvent::Done { action_id, exit_code, killed, error, started_ms, finished_ms } => {
                let code = match exit_code {
                    Some(c) => c,
                    None => 1,
                };
                let error = match error {
                    Some(e) => e,
                    None => String::new(),
                };
                Report::Result { action_id, exit_code: code, killed, error, started_ms, finished_ms }
            },
        }
    }
}

/// An action an agent's runner has started and not yet seen end.
#[derive(Debug, Clone, Copy)]
pub struct RunningEntry {
    /// Leader of the action's process group.
    pub pid: u32,
    /// Whether the action is stopped when the session drops.
    pub kill_on_disconnect: bool,
    /// Background actions do not count as the robot's active action.
    pub background: bool,
    pub started_ms: u64,
}

impl DeepView for RunningEntry {
    type V = RunningEntry;

    open spec fn deep_view(&self) -> RunningEntry {
        *self
    }
}

/// The running actions of one agent, by action id, and the actions
/// stopped on purpose whose end has not been reported yet.
pub struct Runner {
    pub running: StrMap<RunningEntry>,
    pub killed: StrMap<bool>,
}

/// The actions of `s` to stop when the session drops, with their process
/// groups, in action-id order.
pub open spec fn disconnect_kills(s: Seq<(Seq<char>, RunningEntry)>) -> Seq<(Seq<char>, u32)>
    decreases s.len(),
{
    if s.len() == 0 {
        Seq::empty()
    } else {
        let rest = disconnect_kills(s.drop_last());
        if s.last().1.kill_on_disconnect {
            rest.push((s.last().0, s.last().1.pid))
        } else {
            rest
        }
    }
}

/// The ids of the actions `disconnect_kills` stops, in order.
pub open spec fn ids_killed(s: Seq<(Seq<char>, RunningEntry)>) -> Seq<Seq<char>> {
    disconnect_kills(s).map_values(|p: (Seq<char>, u32)| p.0)
}

/// The action a status report names: the foreground one with the least
/// id, if any; background actions are left out.
pub open spec fn active_of(s: Seq<(Seq<char>, RunningEntry)>) -> Option<(Seq<char>, u64)> {
    match first_index(s, |p: (Seq<char>, RunningEntry)| !p.1.background) {
        Some(i) => Some((s[i as int].0, s[i as int].1.started_ms)),
        None => None,
    }
}

impl Runner {
    pub fn new() -> (r: Runner)
        ensures
            r.running.pairs() == Seq::<(Seq<char>, RunningEntry)>::empty(),
            r.killed.map() == Map::<Seq<char>, bool>::empty(),
    {
        Runner { running: StrMap::new(), killed: StrMap::new() }
    }

    /// Records a freshly spawned action.
    pub fn start(&mut self, action_id: String, entry: RunningEntry)
        ensures
            final(self).running.map() == old(self).running.map().insert(action_id@, entry),
    {
        self.running.insert(action_id, entry);
    }

    /// Forgets an action whose process has been reaped, and tells whether it
    /// was stopped on purpose (by `kill` or `kill_on_disconnect_all`).
    pub fn finish(&mut self, action_id: &str) -> (was_killed: bool)
        ensures
            final(self).running.map() == old(self).running.map().remove(action_id@),
            final(self).killed.map() == old(self).killed.map().remove(action_id@),
            was_killed == old(self).killed.map().contains_key(action_id@),
    {
        self.running.remove(action_id);
        self.killed.remove(action_id).is_some()
    }

    /// The event that reports the end of `action_id`: its exit code and
    /// error from how waiting on it ended, and whether it was stopped on
    /// purpose. The action is forgotten.
    pub fn done_event(&mut self, action_id: String, w: WaitOutcome, started_ms: u64, finished_ms: u64) -> (r:
        RunnerEvent)
        ensures
            final(self).running.map() == old(self).running.map().remove(action_id@),
            final(self).killed.map() == old(self).killed.map().remove(action_id@),
            r matches RunnerEvent::Done { action_id: a, exit_code, killed, error, started_ms: s, finished_ms: f }
                && a@ == action_id@ && exit_code == exit_code_of(w) && error.deep_view() == exit_error_of(w)
                && killed == old(self).killed.map().contains_key(action_id@) && s == started_ms && f == finished_ms,
    {
        let killed = self.finish(action_id.as_str());
        let (exit_code, error) = exit_outcome(w);
        RunnerEvent::Done { action_id, exit_code, killed, error, started_ms, finished_ms }
    }

    /// Stops tracking `action_id`, remembers it was stopped on purpose, and
    /// gives the process group to signal; `None`, with nothing changed, when
    /// no such action runs.
    pub fn kill(&mut self, action_id: &str) -> (pid: Option<u32>)
        ensures
            final(self).running.map() == old(self).running.map().remove(action_id@),
            match pid {
                Some(p) => old(self).running.map().contains_key(action_id@) && p == old(self).running.map()[action_id@].pid
                    && final(self).killed.map() == old(self).killed.map().insert(action_id@, true),
                None => !old(self).running.map().contains_key(action_id@) && final(self).killed.map() == old(
                    self,
                ).killed.map(),
            },
    {
        match self.running.remove(action_id) {
            Some(e) => {
                self.killed.insert(to_owned_string(action_id), true);
                Some(e.pid)
            },
            None => None,
        }
    }

    /// The actions to stop when the session drops, with their process
    /// groups; each is remembered as stopped on purpose.
    pub fn kill_on_disconnect_all(&mut self) -> (r: Vec<(String, u32)>)
        ensures
            r.deep_view() == disconnect_kills(old(self).running.pairs()),
            final(self).running == old(self).running,
            forall|k: Seq<char>|
                #[trigger] final(self).killed.map().contains_key(k) <==> (old(self).killed.map().contains_key(k)
                    || ids_killed(old(self).running.pairs()).contains(k)),
    {
        let ghost k0 = self.killed.map();
        let n = self.running.len();
        let mut r: Vec<(String, u32)> = Vec::new();
        let mut i: usize = 0;
        assert(ids_killed(self.running.pairs().take(0)) =~= Seq::<Seq<char>>::empty());
        while i < n
            invariant
                n == self.running.pairs().len(),
                i <= n,
                self.running == old(self).running,
                k0 == old(self).killed.map(),
                r.deep_view() == disconnect_kills(self.running.pairs().take(i as int)),
                forall|k: Seq<char>|
                    #[trigger] self.killed.map().contains_key(k) <==> (k0.contains_key(k) || ids_killed(
                        self.running.pairs().take(i as int),
                    ).contains(k)),
            decreases n - i,
        {
            let e = *self.running.value_at(i);
            let ghost before = r.deep_view();
            let ghost ids0 = ids_killed(self.running.pairs().take(i as int));
            assert(self.running.pairs().take(i + 1).drop_last() =~= self.running.pairs().take(i as int));
            if e.kill_on_disconnect {
                let k = self.running.key_at(i).clone();
                let ghost kv = k@;
                r.push((k, e.pid));
                assert(r.deep_view() =~= before.push((self.running.pairs()[i as int].0, e.pid)));
                let kk = self.running.key_at(i).clone();
                self.killed.insert(kk, true);
                let ghost ids1 = ids_killed(self.running.pairs().take(i + 1));
                assert(ids1 =~= ids0.push(kv));
                assert forall|x: Seq<char>| ids1.contains(x) <==> (ids0.contains(x) || x == kv) by {
                    if ids1.contains(x) && x != kv {
                        let q = choose|q: int| 0 <= q < ids1.len() && ids1[q] == x;
                        assert(ids0[q] == x);
                    }
                    if ids0.contains(x) {
                        let q = choose|q: int| 0 <= q < ids0.len() && ids0[q] == x;
                        assert(ids1[q] == x);
                    }
                    if x == kv {
                        assert(ids1[ids0.len() as int] == x);
                    }
                }
            } else {
                assert(ids_killed(self.running.pairs().take(i + 1)) =~= ids0);
            }
            i = i + 1;
        }
        assert(self.running.pairs().take(n as int) =~= self.running.pairs());
        r
    }

    /// The action a status report names, with its start time.
    pub fn active_action(&self) -> (r: Option<(String, u64)>)
        ensures
            r.deep_view() == active_of(self.running.pairs()),
    {
        let ghost s = self.running.pairs();
        let ghost p = |q: (Seq<char>, RunningEntry)| !q.1.background;
        let n = self.running.len();
        let mut i: usize = 0;
        while i < n
            invariant
                n == s.len(),
                s == self.running.pairs(),
                i <= n,
                p == (|q: (Seq<char>, RunningEntry)| !q.1.background),
                forall|j: int| 0 <= j < i ==> !p(#[trigger] s[j]),
            decreases n - i,
        {
            let e = *self.running.value_at(i);
            if !e.background {
                proof {
                    lemma_first_index_is(s, p, i as int);
                }
                return Some((self.running.key_at(i).clone(), e.started_ms));
            }
            i = i + 1;
        }
        proof {
            lemma_first_index_none(s, p);
        }
        None
    }

    /// The status report of this runner: the active action's id, or empty.
    pub fn status_report(&self) -> (r: Report)
        ensures
            r.deep_view() == (ReportModel::Status {
                active_action_id: match active_of(self.running.pairs()) {
                    Some(a) => a.0,
                    None => Seq::empty(),
                },
            }),
    {
        match self.active_action() {
            Some((id, _)) => Report::Status { active_action_id: id },
            None => Report::Status { active_action_id: String::new() },
        }
    }
}

/// How waiting on an action's process ended.
#[derive(Debug)]
pub enum WaitOutcome {
    /// The time limit passed first.
    TimedOut,
    /// The process exited, with the code it gave if it gave one.
    Exited(Option<i32>),
    /// Waiting failed, for the reason given.
    Failed(String),
}

/// The exit code a finished action reports: that of a normal exit, when
/// not negative.
pub open spec fn exit_code_of(w: WaitOutcome) -> Option<u32> {
    match w {
        WaitOutcome::Exited(Some(k)) => if k >= 0 {
            Some(k as u32)
        } else {
            None
        },
        _ => None,
    }
}

/// The error a finished action reports: "timed out" after its time limit,
/// the reason when waiting failed.
pub open spec fn exit_error_of(w: WaitOutcome) -> Option<Seq<char>> {
    match w {
        WaitOutcome::TimedOut => Some("timed out"@),
        WaitOutcome::Exited(_) => None,
        WaitOutcome::Failed(e) => Some(e@),
    }
}

/// The exit code and error a finished action reports: a timeout gives the
/// error "timed out", an exit its code when that is not negative, a failed
/// wait its reason.
pub fn exit_outcome(w: WaitOutcome) -> (r: (Option<u32>, Option<String>))
    ensures
        r.0 == exit_code_of(w),
        r.1.deep_view() == exit_error_of(w),
{
    match w {
        WaitOutcome::TimedOut => (None, Some(to_owned_string("timed out"))),
        WaitOutcome::Exited(c) => {
            let code = match c {
                Some(k) => if k >= 0 {
                    Some(k as u32)
                } else {
                    None
                },
                None => None,
            };
            (code, None)
        },
        WaitOutcome::Failed(e) => (None, Some(e)),
    }
}

/// `s` without its trailing `\r` and `\n` characters.
pub open spec fn trim_line_end(s: Seq<char>) -> Seq<char>
    decreases s.len(),
{
    if s.len() > 0 && (s.last() == '\r' || s.last() == '\n') {
        trim_line_end(s.drop_last())
    } else {
        s
    }
}

/// The text of one line of action output as it is forwarded: line ends cut
/// off, nothing for a line that is then empty.
pub fn log_text(line: &str) -> (r: Option<String>)
    ensures
        match r {
            Some(t) => t@ == trim_line_end(line@) && t@.len() > 0,
            None => trim_line_end(line@).len() == 0,
        },
{
    let mut n = line.unicode_len();
    assert(line@.take(n as int) =~= line@);
    while n > 0 && (line.get_char(n - 1) == '\r' || line.get_char(n - 1) == '\n')
        invariant
            n <= line@.len(),
            trim_line_end(line@.take(n as int)) == trim_line_end(line@),
        decreases n,
    {
        assert(line@.take(n - 1) =~= line@.take(n as int).drop_last());
        n = n - 1;
    }
    let t = line.substring_char(0, n);
    assert(t@ =~= line@.take(n as int));
    if n == 0 {
        None
    } else {
        Some(t.to_string())
    }
}

/// The acknowledgement an agent sends for a run command: accepted when the
/// spawn worked, refused with the spawn error otherwise.
pub fn spawn_ack(action_id: String, spawn_error: Option<String>) -> (r: Report)
    ensures
        r.deep_view() == (ReportModel::Ack {
            action_id: action_id@,
            accepted: spawn_error is None,
            reason: match spawn_error {
                Some(e) => e@,
                None => Seq::empty(),
            },
        }),
{
    match spawn_error {
        Some(e) => Report::Ack { action_id, accepted: false, reason: e },
        None => Report::Ack { action_id, accepted: true, reason: String::new() },
    }
}

/// The sending half of an agent's session channel.
#[verifier::external_type_specification]
#[verifier::external_body]
#[verifier::reject_recursive_types(T)]
pub struct ExUnboundedSender<T>(tokio::sync::mpsc::UnboundedSender<T>);

/// Hands `cmd` to the agent's session (tokio's `UnboundedSender::send`).
/// It is refused when the session has stopped reading; which of the two
/// happens is left unsaid.
#[verifier::external_body]
pub(crate) fn send_command(tx: &tokio::sync::mpsc::UnboundedSender<Command>, cmd: Command) -> (sent: bool) {
    tx.send(cmd).is_ok()
}

/// The address an agent dials for its controller: `https://` or `http://`
/// by whether TLS is on, then the endpoint.
pub fn controller_url(controller: &AgentControllerConfig) -> (r: String)
    ensures
        r@ == (if controller.tls {
            "https://"@
        } else {
            "http://"@
        }) + controller.endpoint@,
{
    let mut r = if controller.tls {
        to_owned_string("https://")
    } else {
        to_owned_string("http://")
    };
    r.append(controller.endpoint.as_str());
    r
}

/// The part of `endpoint` before its first `:` (all of it when there is
/// none).
pub open spec fn endpoint_host(endpoint: Seq<char>) -> Seq<char> {
    match index_of_char(endpoint, ':') {
        Some(i) => endpoint.take(i as int),
        None => endpoint,
    }
}

/// The name the controller's TLS certificate is checked against: the
/// configured server name, else the endpoint's host.
pub fn tls_domain(controller: &AgentControllerConfig) -> (r: String)
    ensures
        r@ == match controller.server_name {
            Some(n) => n@,
            None => endpoint_host(controller.endpoint@),
        },
{
    match &controller.server_name {
        Some(n) => n.clone(),
        None => {
            let e = controller.endpoint.as_str();
            match find_char(e, ':') {
                Some(i) => {
                    let h = e.substring_char(0, i);
                    assert(h@ =~= e@.take(i as int));
                    to_owned_string(h)
                },
                None => to_owned_string(e),
            }
        },
    }
}

/// The first report of an agent's session: its robot id, the controller's
/// id code, the agent's version, the host name (read from the kernel, as
/// `raw_hostname`, trimmed) and the configured name (empty when none).
pub fn registration(cfg: &AgentConfig, agent_version: &str, raw_hostname: &str) -> (r: Report)
    ensures
        r.deep_view() == (ReportModel::Register {
            robot_id: cfg.robot_id@,
            id_code: cfg.controller.id_code@,
            agent_version: agent_version@,
            hostname: trim_seq(raw_hostname@),
            name: match cfg.name {
                Some(n) => n@,
                None => Seq::empty(),
            },
        }),
{
    Report::Register {
        robot_id: cfg.robot_id.clone(),
        id_code: cfg.controller.id_code.clone(),
        agent_version: to_owned_string(agent_version),
        hostname: to_owned_string(str_trim(raw_hostname)),
        name: match &cfg.name {
            Some(n) => n.clone(),
            None => String::new(),
        },
    }
}

} // verus!
