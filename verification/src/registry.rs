//! Central registry of robot state. Agent sessions write into it; the
//! dispatch engine and the HTTP/WebSocket API read from it. Every change
//! that clients should see is answered with the notices to publish.

use std::collections::VecDeque;
use std::time::{Duration, SystemTime};

use vstd::prelude::*;

use crate::agent::{Command, Report, ReportModel};
use crate::api::{
    ActiveView, ActiveViewModel, Event, LogLine, LogLineModel, RobotView, RobotViewModel,
    RunRobotStatus, RunRobotStatusModel, RunView,
};
use crate::config::{RobotConfig, RobotConfigModel, SwarmConfig, SwarmConfigModel};
use crate::error::{ConfigError, ConfigErrorModel};
use crate::runs::{RunGroupModel, RunStore};
use crate::strmap::{keys_sorted, lemma_sorted_insert_is, pairs_to_map, sorted_insert, Duplicate, StrMap};
use crate::text::{find_char, first_index, index_of_char, str_eq, to_owned_string};

verus! {

/// Robots are considered offline after this much silence.
pub const STALE_AFTER_MS: u64 = 15000;

/// How many log lines each robot keeps.
pub const LOG_RING_MAX: usize = 2000;

/// A reading of the system clock (std's `SystemTime`), carried opaquely.
#[verifier::external_type_specification]
#[verifier::external_body]
pub struct ExSystemTime(SystemTime);

/// The current time of the system clock (`SystemTime::now`).
#[verifier::external_body]
fn system_now() -> SystemTime {
    SystemTime::now()
}

/// How long after the Unix epoch `t` lies (`SystemTime::duration_since`),
/// or `None` when `t` is before it.
#[verifier::external_body]
fn since_unix_epoch(t: &SystemTime) -> Option<Duration> {
    t.duration_since(std::time::UNIX_EPOCH).ok()
}

/// Whole milliseconds in `d` (`Duration::as_millis`).
#[verifier::external_body]
fn whole_millis(d: &Duration) -> u128 {
    d.as_millis()
}

/// Milliseconds since the Unix epoch (truncated to 64 bits), or 0 when the
/// clock reads earlier than the epoch. The reading is the system clock's, so
/// every `u64` is a possible result and no clause states one.
pub fn now_ms() -> u64 {
    match since_unix_epoch(&system_now()) {
        Some(d) => {
            let ms = whole_millis(&d);
            ms as u64
        },
        None => 0,
    }
}

/// The text `String::from_utf8_lossy` makes of `data`.
pub uninterp spec fn lossy_text(data: Seq<u8>) -> Seq<char>;

/// Decodes agent output as UTF-8, each malformed sequence replaced by
/// U+FFFD (`String::from_utf8_lossy`). Well-formed input decodes exactly;
/// the replacements in malformed input are left to the name `lossy_text`.
#[verifier::external_body]
fn utf8_lossy(data: &[u8]) -> (r: String)
    ensures
        r@ == lossy_text(data@),
        vstd::utf8::valid_utf8(data@) ==> r@ == vstd::utf8::decode_utf8(data@),
{
    String::from_utf8_lossy(data).into_owned()
}

/// The most recent log lines of one robot, oldest first, at most `max` of
/// them (at least the latest one is always kept).
#[derive(Debug)]
pub struct LogRing {
    lines: VecDeque<LogLine>,
    max: usize,
}

pub struct LogRingModel {
    pub lines: Seq<LogLineModel>,
    pub max: usize,
}

impl DeepView for LogRing {
    type V = LogRingModel;

    closed spec fn deep_view(&self) -> LogRingModel {
        LogRingModel { lines: self.lines.deep_view(), max: self.max }
    }
}

/// How many lines a ring made with `max` holds at most: `max`, but always
/// room for the latest line.
pub open spec fn ring_cap(max: usize) -> int {
    if max > 0 {
        max as int
    } else {
        1
    }
}

/// The lines after appending `line`: when the ring is full the oldest
/// line goes first.
pub open spec fn ring_push(lines: Seq<LogLineModel>, max: usize, line: LogLineModel) -> Seq<LogLineModel> {
    if lines.len() >= max && lines.len() > 0 {
        lines.drop_first().push(line)
    } else {
        lines.push(line)
    }
}

/// The last `n` lines (all of them when there are fewer), oldest first.
pub open spec fn ring_tail(lines: Seq<LogLineModel>, n: nat) -> Seq<LogLineModel> {
    if n < lines.len() {
        lines.skip(lines.len() - n)
    } else {
        lines
    }
}

impl LogRing {
    /// A ring never holds more lines than its cap.
    #[verifier::type_invariant]
    spec fn within_cap(self) -> bool {
        self.lines@.len() <= ring_cap(self.max)
    }

    pub fn new(max: usize) -> (r: Self)
        ensures
            r.deep_view() == (LogRingModel { lines: Seq::empty(), max }),
    {
        let r = LogRing { lines: VecDeque::new(), max };
        assert(r.lines.deep_view() =~= Seq::<LogLineModel>::empty());
        r
    }

    pub fn push(&mut self, line: LogLine)
        ensures
            final(self).deep_view() == (LogRingModel {
                lines: ring_push(old(self).deep_view().lines, old(self).deep_view().max, line.deep_view()),
                max: old(self).deep_view().max,
            }),
            final(self).deep_view().lines.len() <= ring_cap(final(self).deep_view().max),
    {
        proof {
            use_type_invariant(&*self);
        }
        let mut lines: VecDeque<LogLine> = VecDeque::new();
        std::mem::swap(&mut lines, &mut self.lines);
        let ghost before = lines.deep_view();
        if lines.len() >= self.max {
            lines.pop_front();
        }
        let ghost mid = lines.deep_view();
        assert(mid =~= (if before.len() >= self.max && before.len() > 0 {
            before.drop_first()
        } else {
            before
        }));
        lines.push_back(line);
        assert(lines.deep_view() =~= mid.push(line.deep_view()));
        self.lines = lines;
    }

    /// The last `n` lines, oldest first.
    pub fn tail(&self, n: usize) -> (r: Vec<LogLine>)
        ensures
            r.deep_view() == ring_tail(self.deep_view().lines, n as nat),
            self.deep_view().lines.len() <= ring_cap(self.deep_view().max),
    {
        proof {
            use_type_invariant(self);
        }
        let len = self.lines.len();
        let start = if n < len {
            len - n
        } else {
            0
        };
        let mut out: Vec<LogLine> = Vec::new();
        let mut i: usize = start;
        while i < len
            invariant
                start <= i <= len,
                len == self.lines@.len(),
                out.deep_view() == self.lines.deep_view().subrange(start as int, i as int),
            decreases len - i,
        {
            let ghost before = out.deep_view();
            out.push(self.lines[i].duplicate());
            assert(out.deep_view() =~= before.push(self.lines.deep_view()[i as int]));
            assert(self.lines.deep_view().subrange(start as int, i + 1) =~= self.lines.deep_view().subrange(
                start as int,
                i as int,
            ).push(self.lines.deep_view()[i as int]));
            i = i + 1;
        }
        assert(out.deep_view() =~= ring_tail(self.deep_view().lines, n as nat));
        out
    }

    /// Drop every line.
    pub fn clear(&mut self)
        ensures
            final(self).deep_view() == (LogRingModel { lines: Seq::empty(), max: old(self).deep_view().max }),
    {
        self.lines = VecDeque::new();
        assert(self.lines.deep_view() =~= Seq::<LogLineModel>::empty());
    }
}

/// Name, rendered command and start time of an action that was started,
/// by action id.
#[derive(Debug, Clone)]
pub struct ActionMeta {
    pub action_name: String,
    pub command: String,
    pub started_ms: u64,
}

pub struct ActionMetaModel {
    pub action_name: Seq<char>,
    pub command: Seq<char>,
    pub started_ms: u64,
}

impl DeepView for ActionMeta {
    type V = ActionMetaModel;

    open spec fn deep_view(&self) -> ActionMetaModel {
        ActionMetaModel { action_name: self.action_name@, command: self.command@, started_ms: self.started_ms }
    }
}

/// What the registry knows of one robot that has been in touch.
#[derive(Debug)]
pub struct RobotEntry {
    pub robot_id: String,
    pub name: String,
    pub kind: String,
    pub simulated: bool,
    pub adopted: bool,
    pub address: Option<String>,
    pub connected: bool,
    pub connected_since_ms: u64,
    pub last_seen_ms: u64,
    pub agent_version: String,
    pub hostname: Option<String>,
    pub active_action_id: Option<String>,
    /// Background actions, action id to action name. They do not count as
    /// active but can be stopped.
    pub background_actions: StrMap<String>,
    pub cmd_tx: Option<tokio::sync::mpsc::UnboundedSender<Command>>,
    /// Token of the session whose channel is attached.
    pub cmd_tx_seq: u64,
    pub logs: LogRing,
}

pub struct RobotEntryModel {
    pub robot_id: Seq<char>,
    pub name: Seq<char>,
    pub kind: Seq<char>,
    pub simulated: bool,
    pub adopted: bool,
    pub address: Option<Seq<char>>,
    pub connected: bool,
    pub connected_since_ms: u64,
    pub last_seen_ms: u64,
    pub agent_version: Seq<char>,
    pub hostname: Option<Seq<char>>,
    pub active_action_id: Option<Seq<char>>,
    pub background_actions: Seq<(Seq<char>, Seq<char>)>,
    /// A session channel is attached.
    pub has_channel: bool,
    pub cmd_tx_seq: u64,
    pub logs: LogRingModel,
}

impl DeepView for RobotEntry {
    type V = RobotEntryModel;

    open spec fn deep_view(&self) -> RobotEntryModel {
        RobotEntryModel {
            robot_id: self.robot_id@,
            name: self.name@,
            kind: self.kind@,
            simulated: self.simulated,
            adopted: self.adopted,
            address: self.address.deep_view(),
            connected: self.connected,
            connected_since_ms: self.connected_since_ms,
            last_seen_ms: self.last_seen_ms,
            agent_version: self.agent_version@,
            hostname: self.hostname.deep_view(),
            active_action_id: self.active_action_id.deep_view(),
            background_actions: self.background_actions.deep_view(),
            has_channel: self.cmd_tx is Some,
            cmd_tx_seq: self.cmd_tx_seq,
            logs: self.logs.deep_view(),
        }
    }
}

/// The entry of a robot that has just been heard of.
pub open spec fn new_entry(id: Seq<char>) -> RobotEntryModel {
    RobotEntryModel {
        robot_id: id,
        name: id,
        kind: Seq::empty(),
        simulated: false,
        adopted: false,
        address: None,
        connected: false,
        connected_since_ms: 0,
        last_seen_ms: 0,
        agent_version: Seq::empty(),
        hostname: None,
        active_action_id: None,
        background_actions: Seq::empty(),
        has_channel: false,
        cmd_tx_seq: 0,
        logs: LogRingModel { lines: Seq::empty(), max: LOG_RING_MAX },
    }
}

impl RobotEntry {
    pub fn new(id: String) -> (r: Self)
        ensures
            r.deep_view() == new_entry(id@),
    {
        let r = RobotEntry {
            robot_id: id.clone(),
            name: id,
            kind: String::new(),
            simulated: false,
            adopted: false,
            address: None,
            connected: false,
            connected_since_ms: 0,
            last_seen_ms: 0,
            agent_version: String::new(),
            hostname: None,
            active_action_id: None,
            background_actions: StrMap::new(),
            cmd_tx: None,
            cmd_tx_seq: 0,
            logs: LogRing::new(LOG_RING_MAX),
        };
        r
    }
}

/// The robot answers: its session is attached and it was heard from within
/// the staleness window.
pub open spec fn is_online(e: RobotEntryModel, now: u64) -> bool {
    e.connected && (if now >= e.last_seen_ms {
        now - e.last_seen_ms
    } else {
        0
    }) < STALE_AFTER_MS
}

/// The first robot of the swarm config with id `id`.
pub open spec fn config_robot(m: SwarmConfigModel, id: Seq<char>) -> Option<RobotConfigModel> {
    match first_index(m.robots, crate::config::has_id(id)) {
        Some(k) => Some(m.robots[k as int]),
        None => None,
    }
}

/// How one robot is shown to clients, from what the registry knows of it
/// (a fresh entry when nothing), what the swarm config says of it, and the
/// metadata of started actions. The config's name wins unless the robot
/// was adopted; its address and simulation flag win when it has them.
pub open spec fn robot_view_spec(
    entry: Option<RobotEntryModel>,
    cfg: Option<RobotConfigModel>,
    meta: Map<Seq<char>, ActionMetaModel>,
    now: u64,
) -> RobotViewModel {
    let e = match entry {
        Some(e) => e,
        None => new_entry(
            match cfg {
                Some(r) => r.id,
                None => Seq::empty(),
            },
        ),
    };
    let connected = is_online(e, now);
    RobotViewModel {
        id: e.robot_id,
        name: match cfg {
            Some(r) => if e.adopted {
                e.name
            } else {
                r.display_name()
            },
            None => e.name,
        },
        kind: if e.kind.len() > 0 {
            e.kind
        } else {
            match cfg {
                Some(r) => r.kind,
                None => Seq::empty(),
            }
        },
        address: match cfg {
            Some(r) => match r.address {
                Some(a) => Some(a),
                None => e.address,
            },
            None => e.address,
        },
        simulated: match cfg {
            Some(r) => r.simulated,
            None => e.simulated,
        },
        adopted: e.adopted,
        connected,
        agent_version: e.agent_version,
        hostname: e.hostname,
        last_seen_ms: if connected {
            e.last_seen_ms
        } else {
            0
        },
        active: match e.active_action_id {
            Some(aid) => if meta.contains_key(aid) {
                Some(
                    ActiveViewModel {
                        action_id: aid,
                        action_name: meta[aid].action_name,
                        command: meta[aid].command,
                        started_ms: meta[aid].started_ms,
                    },
                )
            } else {
                None
            },
            None => None,
        },
    }
}

/// Something clients should be told about.
#[derive(Debug)]
pub enum Notice {
    /// The robot's view changed; publish it as it is when published.
    Robot { id: String },
    /// A run changed.
    Run { run: RunView },
    /// The list of recent runs changed.
    Runs { runs: Vec<RunView> },
}


pub enum NoticeModel {
    Robot { id: Seq<char> },
    Run { run: crate::api::RunViewModel },
    Runs { runs: Seq<crate::api::RunViewModel> },
}

impl DeepView for Notice {
    type V = NoticeModel;

    open spec fn deep_view(&self) -> NoticeModel {
        match self {
            Notice::Robot { id } => NoticeModel::Robot { id: id@ },
            Notice::Run { run } => NoticeModel::Run { run: run.deep_view() },
            Notice::Runs { runs } => NoticeModel::Runs { runs: runs.deep_view() },
        }
    }
}

/// The robot registry: the swarm config in force, what is known of every
/// robot that has been in touch, the metadata of started actions, the batch
/// runs, and log lines not yet pushed to clients.
#[derive(Debug)]
pub struct Registry {
    pub config: SwarmConfig,
    pub robots: StrMap<RobotEntry>,
    /// Action id to name and command.
    pub actions_meta: StrMap<ActionMeta>,
    pub run_store: RunStore,
    /// Log lines per robot not yet pushed to clients.
    pub pending_logs: StrMap<Vec<LogLine>>,
    /// The token the next session channel gets.
    pub session_seq: u64,
}

pub struct RegistryModel {
    pub config: SwarmConfigModel,
    pub robots: Seq<(Seq<char>, RobotEntryModel)>,
    pub actions_meta: Seq<(Seq<char>, ActionMetaModel)>,
    pub runs: Seq<(Seq<char>, RunGroupModel)>,
    pub pending_logs: Seq<(Seq<char>, Seq<LogLineModel>)>,
    pub session_seq: u64,
}

impl DeepView for Registry {
    type V = RegistryModel;

    open spec fn deep_view(&self) -> RegistryModel {
        RegistryModel {
            config: self.config.deep_view(),
            robots: self.robots.deep_view(),
            actions_meta: self.actions_meta.deep_view(),
            runs: self.run_store.deep_view(),
            pending_logs: self.pending_logs.deep_view(),
            session_seq: self.session_seq,
        }
    }
}

/// What the registry knows of robot `id`, a fresh entry when nothing.
pub open spec fn entry_or_new(m: RegistryModel, id: Seq<char>) -> RobotEntryModel {
    if pairs_to_map(m.robots).contains_key(id) {
        pairs_to_map(m.robots)[id]
    } else {
        new_entry(id)
    }
}

/// How robot `id` is shown to clients at time `now`.
pub open spec fn view_of(m: RegistryModel, id: Seq<char>, now: u64) -> RobotViewModel {
    robot_view_spec(
        if pairs_to_map(m.robots).contains_key(id) {
            Some(pairs_to_map(m.robots)[id])
        } else {
            None
        },
        config_robot(m.config, id),
        pairs_to_map(m.actions_meta),
        now,
    )
}

/// Every robot as shown to clients: the robots that have been in touch in
/// id order, then the configured robots that have not, in config order.
pub open spec fn all_views_spec(m: RegistryModel, now: u64) -> Seq<RobotViewModel> {
    m.robots.map_values(
        |p: (Seq<char>, RobotEntryModel)|
            robot_view_spec(Some(p.1), config_robot(m.config, p.0), pairs_to_map(m.actions_meta), now),
    ) + crate::dispatch::keep(
        m.config.robots,
        |r: RobotConfigModel| !pairs_to_map(m.robots).contains_key(r.id),
    ).map_values(
        |r: RobotConfigModel| robot_view_spec(None, Some(r), pairs_to_map(m.actions_meta), now),
    )
}

/// `m2` is `m` with robot `id`'s entry set to `e`.
pub open spec fn entry_set(m: RegistryModel, m2: RegistryModel, id: Seq<char>, e: RobotEntryModel) -> bool {
    &&& m2 == (RegistryModel { robots: m2.robots, ..m })
    &&& pairs_to_map(m2.robots) == pairs_to_map(m.robots).insert(id, e)
}

/// Position of the first configured robot with id `id`.
fn find_config_robot(cfg: &SwarmConfig, id: &str) -> (r: Option<usize>)
    ensures
        match r {
            Some(k) => k < cfg.robots@.len() && config_robot(cfg.deep_view(), id@) == Some(
                cfg.robots@[k as int].deep_view(),
            ),
            None => config_robot(cfg.deep_view(), id@) is None,
        },
{
    let ghost p = crate::config::has_id(id@);
    let n = cfg.robots.len();
    let mut k: usize = 0;
    while k < n
        invariant
            k <= n,
            n == cfg.robots@.len(),
            p == crate::config::has_id(id@),
            forall|j: int| 0 <= j < k ==> !p(#[trigger] cfg.deep_view().robots[j]),
        decreases n - k,
    {
        assert(cfg.deep_view().robots[k as int] == cfg.robots@[k as int].deep_view());
        if str_eq(cfg.robots[k].id.as_str(), id) {
            proof {
                crate::text::lemma_first_index_is(cfg.deep_view().robots, p, k as int);
            }
            return Some(k);
        }
        k = k + 1;
    }
    proof {
        crate::text::lemma_first_index_none(cfg.deep_view().robots, p);
    }
    None
}

impl Registry {
    pub fn new(config: SwarmConfig) -> (r: Self)
        ensures
            r.deep_view() == (RegistryModel {
                config: config.deep_view(),
                robots: Seq::empty(),
                actions_meta: Seq::empty(),
                runs: Seq::empty(),
                pending_logs: Seq::empty(),
                session_seq: 1,
            }),
    {
        Registry {
            config,
            robots: StrMap::new(),
            actions_meta: StrMap::new(),
            run_store: RunStore::new(),
            pending_logs: StrMap::new(),
            session_seq: 1,
        }
    }

    /// How a robot is shown, from its entry (if any) and its config (if any).
    pub fn build_view(&self, entry: Option<&RobotEntry>, cfg_robot: Option<&RobotConfig>, now: u64) -> (r: RobotView)
        ensures
            r.deep_view() == robot_view_spec(
                match entry {
                    Some(e) => Some(e.deep_view()),
                    None => None,
                },
                match cfg_robot {
                    Some(c) => Some(c.deep_view()),
                    None => None,
                },
                self.actions_meta.map(),
                now,
            ),
    {
        let fresh: RobotEntry;
        let e: &RobotEntry = match entry {
            Some(e) => e,
            None => {
                let id = match cfg_robot {
                    Some(c) => c.id.clone(),
                    None => String::new(),
                };
                fresh = RobotEntry::new(id);
                &fresh
            },
        };
        let kind = if e.kind.unicode_len() > 0 {
            e.kind.clone()
        } else {
            match cfg_robot {
                Some(c) => c.kind.clone(),
                None => String::new(),
            }
        };
        let silent = if now >= e.last_seen_ms {
            now - e.last_seen_ms
        } else {
            0
        };
        let connected = e.connected && silent < STALE_AFTER_MS;
        let active = match &e.active_action_id {
            Some(aid) => match self.actions_meta.get(aid.as_str()) {
                Some(m) => Some(
                    ActiveView {
                        action_id: aid.clone(),
                        action_name: m.action_name.clone(),
                        command: m.command.clone(),
                        started_ms: m.started_ms,
                    },
                ),
                None => None,
            },
            None => None,
        };
        let name = match cfg_robot {
            Some(c) => if e.adopted {
                e.name.clone()
            } else {
                to_owned_string(c.display_name())
            },
            None => e.name.clone(),
        };
        let address = match cfg_robot {
            Some(c) => match &c.address {
                Some(a) => Some(a.clone()),
                None => e.address.duplicate(),
            },
            None => e.address.duplicate(),
        };
        let simulated = match cfg_robot {
            Some(c) => c.simulated,
            None => e.simulated,
        };
        RobotView {
            id: e.robot_id.clone(),
            name,
            kind,
            address,
            simulated,
            adopted: e.adopted,
            connected,
            agent_version: e.agent_version.clone(),
            hostname: e.hostname.duplicate(),
            last_seen_ms: if connected {
                e.last_seen_ms
            } else {
                0
            },
            active,
        }
    }

    /// How robot `robot_id` is shown to clients at time `now`.
    pub fn view_at(&self, robot_id: &str, now: u64) -> (r: RobotView)
        ensures
            r.deep_view() == view_of(self.deep_view(), robot_id@, now),
    {
        let entry = self.robots.get(robot_id);
        let cfg_robot = match find_config_robot(&self.config, robot_id) {
            Some(k) => Some(&self.config.robots[k]),
            None => None,
        };
        self.build_view(entry, cfg_robot, now)
    }

    /// How robot `robot_id` is shown to clients now.
    pub fn view(&self, robot_id: &str) -> (r: RobotView)
        ensures
            exists|now: u64| r.deep_view() == view_of(self.deep_view(), robot_id@, now),
    {
        let now = now_ms();
        self.view_at(robot_id, now)
    }

    /// Every robot as shown to clients at time `now`.
    pub fn all_views_at(&self, now: u64) -> (r: Vec<RobotView>)
        ensures
            r.deep_view() == all_views_spec(self.deep_view(), now),
    {
        let ghost m = self.deep_view();
        let n = self.robots.len();
        let mut out: Vec<RobotView> = Vec::new();
        let mut i: usize = 0;
        while i < n
            invariant
                i <= n,
                n == m.robots.len(),
                m == self.deep_view(),
                out.deep_view() == m.robots.take(i as int).map_values(
                    |p: (Seq<char>, RobotEntryModel)|
                        robot_view_spec(Some(p.1), config_robot(m.config, p.0), pairs_to_map(m.actions_meta), now),
                ),
            decreases n - i,
        {
            let id = self.robots.key_at(i);
            let entry = self.robots.value_at(i);
            let cfg_robot = match find_config_robot(&self.config, id.as_str()) {
                Some(k) => Some(&self.config.robots[k]),
                None => None,
            };
            let v = self.build_view(Some(entry), cfg_robot, now);
            let ghost before = out.deep_view();
            out.push(v);
            assert(out.deep_view() =~= before.push(v.deep_view()));
            assert(m.robots.take(i + 1) =~= m.robots.take(i as int).push(m.robots[i as int]));
            i = i + 1;
        }
        assert(m.robots.take(n as int) =~= m.robots);
        let ghost first = out.deep_view();
        let ghost p = |r: RobotConfigModel| !pairs_to_map(m.robots).contains_key(r.id);
        let nc = self.config.robots.len();
        let mut j: usize = 0;
        let ghost rest_fn = |r: RobotConfigModel| robot_view_spec(None, Some(r), pairs_to_map(m.actions_meta), now);
        assert(first + crate::dispatch::keep(m.config.robots.take(0), p).map_values(rest_fn) =~= first);
        while j < nc
            invariant
                j <= nc,
                nc == m.config.robots.len(),
                m == self.deep_view(),
                p == (|r: RobotConfigModel| !pairs_to_map(m.robots).contains_key(r.id)),
                rest_fn == (|r: RobotConfigModel| robot_view_spec(None, Some(r), pairs_to_map(m.actions_meta), now)),
                out.deep_view() == first + crate::dispatch::keep(m.config.robots.take(j as int), p).map_values(rest_fn),
            decreases nc - j,
        {
            let r = &self.config.robots[j];
            assert(r.deep_view() == m.config.robots[j as int]);
            assert(m.config.robots.take(j + 1).drop_last() =~= m.config.robots.take(j as int));
            if !self.robots.contains_key(r.id.as_str()) {
                let v = self.build_view(None, Some(r), now);
                let ghost before = out.deep_view();
                out.push(v);
                assert(out.deep_view() =~= before.push(v.deep_view()));
                assert(crate::dispatch::keep(m.config.robots.take(j + 1), p).map_values(rest_fn) =~= crate::dispatch::keep(
                    m.config.robots.take(j as int),
                    p,
                ).map_values(rest_fn).push(rest_fn(m.config.robots[j as int])));
                assert(out.deep_view() =~= first + crate::dispatch::keep(m.config.robots.take(j + 1), p).map_values(rest_fn));
            }
            j = j + 1;
        }
        assert(m.config.robots.take(nc as int) =~= m.config.robots);
        out
    }

    /// Every robot as shown to clients now.
    pub fn all_views(&self) -> (r: Vec<RobotView>)
        ensures
            exists|now: u64| r.deep_view() == all_views_spec(self.deep_view(), now),
    {
        let now = now_ms();
        self.all_views_at(now)
    }

    /// Puts a freshly read swarm config in place and gives every robot as
    /// shown under it, for the robots event that follows a reload.
    pub fn reload_config(&mut self, cfg: SwarmConfig) -> (r: Vec<RobotView>)
        ensures
            final(self).deep_view() == (RegistryModel { config: cfg.deep_view(), ..old(self).deep_view() }),
            exists|now: u64| r.deep_view() == all_views_spec(final(self).deep_view(), now),
    {
        self.config = cfg;
        self.all_views()
    }

    /// The last `tail` log lines of a robot, oldest first; none for a robot
    /// never heard from.
    pub fn logs(&self, robot_id: &str, tail: usize) -> (r: Vec<LogLine>)
        ensures
            r.deep_view() == if self.robots.map().contains_key(robot_id@) {
                ring_tail(self.robots.map()[robot_id@].logs.lines, tail as nat)
            } else {
                Seq::empty()
            },
    {
        match self.robots.get(robot_id) {
            Some(e) => e.logs.tail(tail),
            None => {
                let v: Vec<LogLine> = Vec::new();
                assert(v.deep_view() =~= Seq::<LogLineModel>::empty());
                v
            },
        }
    }

    /// The session channel of a robot, if one is attached.
    pub fn cmd_tx(&self, robot_id: &str) -> (r: Option<&tokio::sync::mpsc::UnboundedSender<Command>>)
        ensures
            r is Some == (self.robots.map().contains_key(robot_id@) && self.robots.map()[robot_id@].has_channel),
    {
        match self.robots.get(robot_id) {
            Some(e) => match &e.cmd_tx {
                Some(tx) => Some(tx),
                None => None,
            },
            None => None,
        }
    }

    /// Take robot `id`'s entry out (a fresh one when there is none) to
    /// change it and put it back with `put_entry`.
    fn take_entry(&mut self, id: &str) -> (e: RobotEntry)
        ensures
            e.deep_view() == entry_or_new(old(self).deep_view(), id@),
            final(self).deep_view() == (RegistryModel { robots: final(self).deep_view().robots, ..old(self).deep_view() }),
            pairs_to_map(final(self).deep_view().robots) == pairs_to_map(old(self).deep_view().robots).remove(id@),
    {
        match self.robots.remove(id) {
            Some(e) => e,
            None => {
                assert(self.robots.map() =~= old(self).robots.map());
                RobotEntry::new(to_owned_string(id))
            },
        }
    }

    fn put_entry(&mut self, id: &str, e: RobotEntry)
        ensures
            final(self).deep_view() == (RegistryModel { robots: final(self).deep_view().robots, ..old(self).deep_view() }),
            pairs_to_map(final(self).deep_view().robots) == pairs_to_map(old(self).deep_view().robots).insert(id@, e.deep_view()),
    {
        self.robots.insert(to_owned_string(id), e);
    }

    /// Attach a session's command channel to a robot (creating its entry),
    /// returning the session token that `disconnect` must present.
    pub fn set_cmd_tx(&mut self, robot_id: &str, tx: tokio::sync::mpsc::UnboundedSender<Command>) -> (seq: u64)
        ensures
            seq == old(self).session_seq,
            final(self).session_seq == if old(self).session_seq == u64::MAX {
                0
            } else {
                (old(self).session_seq + 1) as u64
            },
            final(self).deep_view() == (RegistryModel {
                robots: final(self).deep_view().robots,
                session_seq: final(self).session_seq,
                ..old(self).deep_view()
            }),
            pairs_to_map(final(self).deep_view().robots) == pairs_to_map(old(self).deep_view().robots).insert(
                robot_id@,
                RobotEntryModel {
                    has_channel: true,
                    cmd_tx_seq: seq,
                    ..entry_or_new(old(self).deep_view(), robot_id@)
                },
            ),
    {
        let seq = self.session_seq;
        self.session_seq = if seq == u64::MAX {
            0
        } else {
            seq + 1
        };
        let mut e = self.take_entry(robot_id);
        e.cmd_tx = Some(tx);
        e.cmd_tx_seq = seq;
        self.put_entry(robot_id, e);
        assert(pairs_to_map(self.deep_view().robots) =~= pairs_to_map(old(self).deep_view().robots).insert(
            robot_id@,
            e.deep_view(),
        ));
        seq
    }
}


} // verus!

verus! {

pub open spec fn robots_map(m: RegistryModel) -> Map<Seq<char>, RobotEntryModel> {
    pairs_to_map(m.robots)
}

pub open spec fn meta_map(m: RegistryModel) -> Map<Seq<char>, ActionMetaModel> {
    pairs_to_map(m.actions_meta)
}

pub open spec fn runs_map(m: RegistryModel) -> Map<Seq<char>, RunGroupModel> {
    pairs_to_map(m.runs)
}

pub open spec fn pending_map(m: RegistryModel) -> Map<Seq<char>, Seq<LogLineModel>> {
    pairs_to_map(m.pending_logs)
}

/// Where an action id `<run id>:<robot id>` splits at its first `:`.
pub open spec fn split_at_colon(a: Seq<char>) -> Option<(Seq<char>, Seq<char>)> {
    match index_of_char(a, ':') {
        Some(i) => Some((a.take(i as int), a.skip(i + 1 as int))),
        None => None,
    }
}

/// The run status a finished action reports: killed actions are done
/// (killed); a clean exit (code 0, no error) is done; anything else failed,
/// with the agent's error or else the exit code as the reason.
pub open spec fn result_status(exit_code: u32, killed: bool, error: Seq<char>, finished_ms: u64) -> RunRobotStatusModel {
    if killed {
        RunRobotStatusModel::Done { exit_code, killed: true, finished_ms }
    } else if exit_code == 0 && error.len() == 0 {
        RunRobotStatusModel::Done { exit_code, killed: false, finished_ms }
    } else {
        RunRobotStatusModel::Failed {
            error: if error.len() == 0 {
                "exit code "@ + crate::text::decimal_seq(exit_code as u64)
            } else {
                error
            },
        }
    }
}

/// The notices for a refreshed run, if any.
pub open spec fn run_notice(v: Option<crate::api::RunViewModel>) -> Seq<NoticeModel> {
    match v {
        Some(r) => seq![NoticeModel::Run { run: r }],
        None => seq![],
    }
}

/// The run a list of notices carries, when it is exactly one run notice.
pub open spec fn noticed_run(notices: Seq<NoticeModel>) -> Option<crate::api::RunViewModel> {
    if notices.len() == 1 {
        match notices[0] {
            NoticeModel::Run { run } => Some(run),
            _ => None,
        }
    } else {
        None
    }
}

/// The runs after an action with id `action_id` reports `status`: the run
/// and robot the id names get it (the notices then carry the refreshed
/// run); ids of another shape change nothing.
pub open spec fn run_status_applied(
    m: RegistryModel,
    m2: RegistryModel,
    action_id: Seq<char>,
    status: RunRobotStatusModel,
    notices: Seq<NoticeModel>,
) -> bool {
    match split_at_colon(action_id) {
        Some((run_id, robot)) => {
            &&& notices == run_notice(noticed_run(notices))
            &&& crate::runs::run_updated(runs_map(m), runs_map(m2), run_id, robot, status, noticed_run(notices))
        },
        None => runs_map(m2) == runs_map(m) && notices == Seq::<NoticeModel>::empty(),
    }
}

/// Entry `e2` is `e` once action `action_id` finished: no longer active
/// (if it was) and no longer among the background actions.
pub open spec fn result_cleared(e: RobotEntryModel, e2: RobotEntryModel, action_id: Seq<char>) -> bool {
    &&& e2 == (RobotEntryModel {
        active_action_id: if e.active_action_id == Some(action_id) {
            None
        } else {
            e.active_action_id
        },
        background_actions: e2.background_actions,
        ..e
    })
    &&& crate::strmap::keys_sorted(e2.background_actions)
    &&& pairs_to_map(e2.background_actions) == pairs_to_map(e.background_actions).remove(action_id)
}

/// Robot `id`'s entry changed to `e2` when it has one, else no change.
pub open spec fn entry_changed_if_known(m: RegistryModel, m2: RegistryModel, id: Seq<char>, e2: RobotEntryModel) -> bool {
    if robots_map(m).contains_key(id) {
        robots_map(m2) == robots_map(m).insert(id, e2)
    } else {
        robots_map(m2) == robots_map(m)
    }
}

/// How the registry takes in one report from the agent of robot `id` at
/// time `now`, and what clients must be told.
pub open spec fn report_applied(
    m: RegistryModel,
    m2: RegistryModel,
    id: Seq<char>,
    r: ReportModel,
    now: u64,
    notices: Seq<NoticeModel>,
) -> bool {
    let e = entry_or_new(m, id);
    match r {
        ReportModel::Register { agent_version, hostname, .. } => {
            &&& m2 == (RegistryModel { robots: m2.robots, ..m })
            &&& robots_map(m2) == robots_map(m).insert(
                id,
                RobotEntryModel {
                    connected: true,
                    connected_since_ms: now,
                    last_seen_ms: now,
                    agent_version,
                    hostname: if hostname.len() == 0 {
                        None
                    } else {
                        Some(hostname)
                    },
                    ..e
                },
            )
            &&& notices == seq![NoticeModel::Robot { id }]
        },
        ReportModel::Heartbeat => {
            &&& m2 == (RegistryModel { robots: m2.robots, ..m })
            &&& entry_changed_if_known(m, m2, id, RobotEntryModel { last_seen_ms: now, ..e })
            &&& notices == seq![NoticeModel::Robot { id }]
        },
        ReportModel::Status { active_action_id } => {
            &&& m2 == (RegistryModel { robots: m2.robots, ..m })
            &&& entry_changed_if_known(
                m,
                m2,
                id,
                RobotEntryModel {
                    last_seen_ms: now,
                    active_action_id: if active_action_id.len() == 0 {
                        None
                    } else {
                        Some(active_action_id)
                    },
                    ..e
                },
            )
            &&& notices == seq![NoticeModel::Robot { id }]
        },
        ReportModel::Log { data, stderr, .. } => {
            let line = LogLineModel { ts_ms: now, stderr, text: lossy_text(data) };
            &&& m2 == (RegistryModel { robots: m2.robots, pending_logs: m2.pending_logs, ..m })
            &&& entry_changed_if_known(
                m,
                m2,
                id,
                RobotEntryModel {
                    logs: LogRingModel {
                        lines: ring_push(e.logs.lines, e.logs.max, line),
                        max: e.logs.max,
                    },
                    ..e
                },
            )
            &&& pending_map(m2) == pending_map(m).insert(
                id,
                if pending_map(m).contains_key(id) {
                    pending_map(m)[id]
                } else {
                    Seq::empty()
                }.push(line),
            )
            &&& notices == Seq::<NoticeModel>::empty()
        },
        ReportModel::Result { action_id, exit_code, killed, error, finished_ms, .. } => {
            &&& m2 == (RegistryModel {
                robots: m2.robots,
                actions_meta: m2.actions_meta,
                runs: m2.runs,
                ..m
            })
            &&& if robots_map(m).contains_key(id) {
                &&& robots_map(m2) == robots_map(m).insert(id, robots_map(m2)[id])
                &&& result_cleared(robots_map(m)[id], robots_map(m2)[id], action_id)
            } else {
                robots_map(m2) == robots_map(m)
            }
            &&& meta_map(m2) == meta_map(m).remove(action_id)
            &&& notices.len() >= 1
            &&& notices.last() == (NoticeModel::Robot { id })
            &&& run_status_applied(
                m,
                m2,
                action_id,
                result_status(exit_code, killed, error, finished_ms),
                notices.drop_last(),
            )
        },
        ReportModel::Ack { action_id, accepted, reason } => {
            &&& m2 == (RegistryModel { runs: m2.runs, ..m })
            &&& if accepted {
                runs_map(m2) == runs_map(m) && notices == Seq::<NoticeModel>::empty()
            } else {
                run_status_applied(m, m2, action_id, RunRobotStatusModel::Failed { error: reason }, notices)
            }
        },
    }
}

/// Split an action id at its first `:`.
fn split_colon(a: &str) -> (r: Option<(&str, &str)>)
    ensures
        match r {
            Some((x, y)) => split_at_colon(a@) == Some((x@, y@)),
            None => split_at_colon(a@) is None,
        },
{
    match find_char(a, ':') {
        Some(i) => {
            let n = a.unicode_len();
            let x = a.substring_char(0, i);
            let y = a.substring_char(i + 1, n);
            assert(x@ =~= a@.take(i as int));
            assert(y@ =~= a@.skip(i + 1));
            Some((x, y))
        },
        None => None,
    }
}

/// The status a run records for a finished action.
fn finished_status(exit_code: u32, killed: bool, error: &String, finished_ms: u64) -> (r: RunRobotStatus)
    ensures
        r.deep_view() == result_status(exit_code, killed, error@, finished_ms),
{
    if killed {
        RunRobotStatus::Done { exit_code, killed: true, finished_ms }
    } else if exit_code == 0 && error.unicode_len() == 0 {
        RunRobotStatus::Done { exit_code, killed: false, finished_ms }
    } else if error.unicode_len() == 0 {
        let mut text = String::from_str("exit code ");
        let digits = crate::text::decimal(exit_code as u64);
        text.append(digits.as_str());
        RunRobotStatus::Failed { error: text }
    } else {
        RunRobotStatus::Failed { error: error.clone() }
    }
}

impl Registry {
    /// Record `status` for the action `action_id` in the run it belongs to.
    fn apply_run_status(&mut self, action_id: &str, status: RunRobotStatus) -> (notices: Vec<Notice>)
        ensures
            final(self).deep_view() == (RegistryModel { runs: final(self).deep_view().runs, ..old(self).deep_view() }),
            run_status_applied(old(self).deep_view(), final(self).deep_view(), action_id@, status.deep_view(), notices.deep_view()),
    {
        let mut notices: Vec<Notice> = Vec::new();
        match split_colon(action_id) {
            Some((run_id, robot)) => {
                let ghost sv = status.deep_view();
                let ghost m = self.deep_view();
                let r = self.run_store.update_robot(run_id, robot, status);
                let ghost v = match &r {
                    Some(v) => Some(v.deep_view()),
                    None => None,
                };
                assert(crate::runs::run_updated(runs_map(m), runs_map(self.deep_view()), run_id@, robot@, sv, v));
                match r {
                    Some(run) => {
                        notices.push(Notice::Run { run });
                    },
                    None => {},
                }
                assert(notices.deep_view() =~= run_notice(v));
                assert(noticed_run(notices.deep_view()) == v);
            },
            None => {
                assert(notices.deep_view() =~= Seq::<NoticeModel>::empty());
            },
        }
        notices
    }

    /// Take in one report from the agent of robot `robot_id`, received at
    /// time `now`; the notices clients must get.
    pub fn apply_report(&mut self, robot_id: &str, report: &Report, now: u64) -> (notices: Vec<Notice>)
        ensures
            report_applied(old(self).deep_view(), final(self).deep_view(), robot_id@, report.deep_view(), now, notices.deep_view()),
    {
        let ghost m = self.deep_view();
        match report {
            Report::Register { agent_version, hostname, .. } => {
                let mut e = self.take_entry(robot_id);
                e.connected = true;
                e.connected_since_ms = now;
                e.last_seen_ms = now;
                e.agent_version = agent_version.clone();
                e.hostname = if hostname.unicode_len() == 0 {
                    None
                } else {
                    Some(hostname.clone())
                };
                self.put_entry(robot_id, e);
                assert(robots_map(self.deep_view()) =~= robots_map(m).insert(robot_id@, e.deep_view()));
                let notices = vec![Notice::Robot { id: to_owned_string(robot_id) }];
                assert(notices.deep_view() =~= seq![NoticeModel::Robot { id: robot_id@ }]);
                notices
            },
            Report::Heartbeat => {
                if self.robots.contains_key(robot_id) {
                    let mut e = self.take_entry(robot_id);
                    e.last_seen_ms = now;
                    self.put_entry(robot_id, e);
                    assert(robots_map(self.deep_view()) =~= robots_map(m).insert(robot_id@, e.deep_view()));
                }
                let notices = vec![Notice::Robot { id: to_owned_string(robot_id) }];
                assert(notices.deep_view() =~= seq![NoticeModel::Robot { id: robot_id@ }]);
                notices
            },
            Report::Status { active_action_id } => {
                if self.robots.contains_key(robot_id) {
                    let mut e = self.take_entry(robot_id);
                    e.last_seen_ms = now;
                    e.active_action_id = if active_action_id.unicode_len() == 0 {
                        None
                    } else {
                        Some(active_action_id.clone())
                    };
                    self.put_entry(robot_id, e);
                    assert(robots_map(self.deep_view()) =~= robots_map(m).insert(robot_id@, e.deep_view()));
                }
                let notices = vec![Notice::Robot { id: to_owned_string(robot_id) }];
                assert(notices.deep_view() =~= seq![NoticeModel::Robot { id: robot_id@ }]);
                notices
            },
            Report::Log { data, stderr, .. } => {
                let text = utf8_lossy(data.as_slice());
                let line = LogLine { ts_ms: now, stderr: *stderr, text };
                if self.robots.contains_key(robot_id) {
                    let mut e = self.take_entry(robot_id);
                    e.logs.push(line.duplicate());
                    self.put_entry(robot_id, e);
                    assert(robots_map(self.deep_view()) =~= robots_map(m).insert(robot_id@, e.deep_view()));
                }
                let ghost m1 = self.deep_view();
                let mut lines = match self.pending_logs.remove(robot_id) {
                    Some(v) => v,
                    None => Vec::new(),
                };
                let ghost before = lines.deep_view();
                assert(before =~= if pending_map(m).contains_key(robot_id@) {
                    pending_map(m)[robot_id@]
                } else {
                    Seq::empty()
                });
                lines.push(line);
                assert(lines.deep_view() =~= before.push(line.deep_view()));
                self.pending_logs.insert(to_owned_string(robot_id), lines);
                assert(pending_map(self.deep_view()) =~= pending_map(m).insert(robot_id@, lines.deep_view()));
                let notices: Vec<Notice> = Vec::new();
                assert(notices.deep_view() =~= Seq::<NoticeModel>::empty());
                notices
            },
            Report::Result { action_id, exit_code, killed, error, finished_ms, .. } => {
                if self.robots.contains_key(robot_id) {
                    let mut e = self.take_entry(robot_id);
                    let ghost e0 = e.deep_view();
                    let was_active = match &e.active_action_id {
                        Some(a) => str_eq(a.as_str(), action_id.as_str()),
                        None => false,
                    };
                    if was_active {
                        e.active_action_id = None;
                    }
                    e.background_actions.remove(action_id.as_str());
                    proof {
                        use_type_invariant(&e.background_actions);
                    }
                    assert(result_cleared(e0, e.deep_view(), action_id@));
                    self.put_entry(robot_id, e);
                    assert(robots_map(self.deep_view()) =~= robots_map(m).insert(robot_id@, e.deep_view()));
                }
                self.actions_meta.remove(action_id.as_str());
                let ghost m1 = self.deep_view();
                let status = finished_status(*exit_code, *killed, error, *finished_ms);
                let mut notices = self.apply_run_status(action_id.as_str(), status);
                let ghost run_part = notices.deep_view();
                notices.push(Notice::Robot { id: to_owned_string(robot_id) });
                assert(notices.deep_view().drop_last() =~= run_part);
                notices
            },
            Report::Ack { action_id, accepted, reason } => {
                if !*accepted {
                    self.apply_run_status(action_id.as_str(), RunRobotStatus::Failed { error: reason.clone() })
                } else {
                    let notices: Vec<Notice> = Vec::new();
                    assert(notices.deep_view() =~= Seq::<NoticeModel>::empty());
                    notices
                }
            },
        }
    }

    /// Take in one report from the agent of robot `robot_id`, received now.
    pub fn handle_report(&mut self, robot_id: &str, report: &Report) -> (notices: Vec<Notice>)
        ensures
            exists|now: u64| report_applied(old(self).deep_view(), final(self).deep_view(), robot_id@, report.deep_view(), now, notices.deep_view()),
    {
        let now = now_ms();
        self.apply_report(robot_id, report, now)
    }

    /// Open the session of an agent whose first report is `first`, with
    /// command channel `tx`: the first report must be a registration
    /// carrying the controller's id code. The channel is then attached to the
    /// robot and the registration taken in, now; the result is the session's
    /// token and the notices.
    pub fn open_session(&mut self, first: &Report, tx: tokio::sync::mpsc::UnboundedSender<Command>) -> (r: Result<
        (u64, Vec<Notice>),
        SessionRefusal,
    >)
        ensures
            match first.deep_view() {
                ReportModel::Register { robot_id, id_code, .. } => if id_code == old(self).config.controller.id_code@ {
                    r matches Ok((seq, notices)) && seq == old(self).session_seq && exists|now: u64|
                        report_applied(
                            session_attached(old(self).deep_view(), robot_id, seq),
                            final(self).deep_view(),
                            robot_id,
                            first.deep_view(),
                            now,
                            notices.deep_view(),
                        )
                } else {
                    r == Err::<(u64, Vec<Notice>), SessionRefusal>(SessionRefusal::WrongIdCode) && final(self).deep_view()
                        == old(self).deep_view()
                },
                _ => r == Err::<(u64, Vec<Notice>), SessionRefusal>(SessionRefusal::NotRegistered)
                    && final(self).deep_view() == old(self).deep_view(),
            },
    {
        let robot_id = match first {
            Report::Register { robot_id, id_code, .. } => {
                if !str_eq(id_code.as_str(), self.config.controller.id_code.as_str()) {
                    return Err(SessionRefusal::WrongIdCode);
                }
                robot_id
            },
            _ => {
                return Err(SessionRefusal::NotRegistered);
            },
        };
        let ghost m = self.deep_view();
        let seq = self.set_cmd_tx(robot_id.as_str(), tx);
        proof {
            use_type_invariant(&self.robots);
            lemma_sorted_insert_is(
                m.robots,
                robot_id@,
                RobotEntryModel { has_channel: true, cmd_tx_seq: seq, ..entry_or_new(m, robot_id@) },
                self.deep_view().robots,
            );
            assert(self.deep_view() == session_attached(m, robot_id@, seq));
        }
        let ghost mid = self.deep_view();
        let notices = self.handle_report(robot_id.as_str(), first);
        proof {
            let w = choose|now: u64|
                report_applied(mid, self.deep_view(), robot_id@, first.deep_view(), now, notices.deep_view());
            assert(report_applied(
                session_attached(m, robot_id@, seq),
                self.deep_view(),
                robot_id@,
                first.deep_view(),
                w,
                notices.deep_view(),
            ));
        }
        let r = Ok((seq, notices));
        assert(r matches Ok((s1, n1)) && s1 == seq && n1 == notices);
        r
    }
}

/// Why an agent's session was refused.
#[derive(Debug, Clone, Copy, PartialEq, Eq, Structural)]
pub enum SessionRefusal {
    /// The first report was not a registration.
    NotRegistered,
    /// The registration carried the wrong id code.
    WrongIdCode,
}

impl SessionRefusal {
    /// The text the refusal is reported with.
    pub fn message(&self) -> (r: String)
        ensures
            r@ == match self {
                SessionRefusal::NotRegistered => "first report must be a register"@,
                SessionRefusal::WrongIdCode => "registration rejected: id_code mismatch"@,
            },
    {
        match self {
            SessionRefusal::NotRegistered => String::from_str("first report must be a register"),
            SessionRefusal::WrongIdCode => String::from_str("registration rejected: id_code mismatch"),
        }
    }
}

/// The registry `m` with a session channel attached to robot `id` under
/// token `seq`, the next session getting the following token.
pub open spec fn session_attached(m: RegistryModel, id: Seq<char>, seq: u64) -> RegistryModel {
    RegistryModel {
        robots: sorted_insert(
            m.robots,
            id,
            RobotEntryModel { has_channel: true, cmd_tx_seq: seq, ..entry_or_new(m, id) },
        ),
        session_seq: if m.session_seq == u64::MAX {
            0
        } else {
            (m.session_seq + 1) as u64
        },
        ..m
    }
}

} // verus!

verus! {

/// The swarm robot that adopting robot `id` as a `kind` adds.
pub open spec fn adopted_robot(id: Seq<char>, kind: Seq<char>, name: Option<Seq<char>>) -> RobotConfigModel {
    RobotConfigModel {
        id,
        name,
        kind,
        address: None,
        simulated: false,
        vars: Seq::empty(),
        env: Seq::empty(),
        adopted: true,
    }
}

/// A robot entry as a staleness sweep at time `now` leaves it: a robot
/// with a session is marked online exactly when it was heard from within
/// the window, and an offline one loses its last-seen time.
pub open spec fn swept(e: RobotEntryModel, now: u64) -> RobotEntryModel {
    let fresh = (if now >= e.last_seen_ms {
        now - e.last_seen_ms
    } else {
        0
    }) < STALE_AFTER_MS;
    if e.has_channel && e.connected != fresh {
        RobotEntryModel {
            connected: fresh,
            last_seen_ms: if fresh {
                e.last_seen_ms
            } else {
                0
            },
            ..e
        }
    } else {
        e
    }
}

/// The sweep changes this robot's online state.
pub open spec fn flips(e: RobotEntryModel, now: u64) -> bool {
    swept(e, now) != e
}

/// Notices for the robots of `s` (in order) whose state a sweep flips.
pub open spec fn flip_notices(s: Seq<(Seq<char>, RobotEntryModel)>, now: u64) -> Seq<NoticeModel>
    decreases s.len(),
{
    if s.len() == 0 {
        Seq::empty()
    } else if flips(s.last().1, now) {
        flip_notices(s.drop_last(), now).push(NoticeModel::Robot { id: s.last().0 })
    } else {
        flip_notices(s.drop_last(), now)
    }
}

/// A result of notices or an error, as a model.
pub open spec fn notices_result(r: &Result<Vec<Notice>, ConfigError>) -> Result<Seq<NoticeModel>, ConfigErrorModel> {
    match r {
        Ok(n) => Ok(n.deep_view()),
        Err(e) => Err(e.deep_view()),
    }
}

/// Adopting robot `id` as a `kind` (named `name` if given): the type must
/// exist and the id must be new to the config; then the robot joins the
/// config flagged adopted, and its entry (if any) takes the type and name.
pub open spec fn adopt_outcome(
    m: RegistryModel,
    m2: RegistryModel,
    id: Seq<char>,
    kind: Seq<char>,
    name: Option<Seq<char>>,
    r: Result<Seq<NoticeModel>, ConfigErrorModel>,
) -> bool {
    if !pairs_to_map(m.config.robot_types).contains_key(kind) {
        m2 == m && r == Err::<Seq<NoticeModel>, ConfigErrorModel>(ConfigErrorModel::UnknownRobotType { robot: id, kind })
    } else if config_robot(m.config, id) is Some {
        &&& m2 == m
        &&& r == Err::<Seq<NoticeModel>, ConfigErrorModel>(
            ConfigErrorModel::DuplicateRobotId { id, first: config_robot(m.config, id)->0.display_name() },
        )
    } else {
        &&& m2 == (RegistryModel {
            config: SwarmConfigModel { robots: m.config.robots.push(adopted_robot(id, kind, name)), ..m.config },
            robots: m2.robots,
            ..m
        })
        &&& entry_changed_if_known(
            m,
            m2,
            id,
            RobotEntryModel {
                kind,
                name: match name {
                    Some(n) => n,
                    None => id,
                },
                adopted: true,
                ..entry_or_new(m, id)
            },
        )
        &&& r == Ok::<Seq<NoticeModel>, ConfigErrorModel>(seq![NoticeModel::Robot { id }])
    }
}

/// Releasing robot `id`: only robots that have been in touch; it leaves the
/// config if it was adopted there (robots defined in the config file stay),
/// and its entry is no longer adopted, untyped and named by its id.
pub open spec fn release_outcome(
    m: RegistryModel,
    m2: RegistryModel,
    id: Seq<char>,
    r: Result<Seq<NoticeModel>, ConfigErrorModel>,
) -> bool {
    if !robots_map(m).contains_key(id) {
        m2 == m && r == Err::<Seq<NoticeModel>, ConfigErrorModel>(ConfigErrorModel::UnknownRobot { id })
    } else {
        &&& m2 == (RegistryModel {
            config: SwarmConfigModel {
                robots: crate::dispatch::keep(m.config.robots, |c: RobotConfigModel| !(c.adopted && c.id == id)),
                ..m.config
            },
            robots: m2.robots,
            ..m
        })
        &&& robots_map(m2) == robots_map(m).insert(
            id,
            RobotEntryModel { adopted: false, kind: Seq::empty(), name: id, ..robots_map(m)[id] },
        )
        &&& r == Ok::<Seq<NoticeModel>, ConfigErrorModel>(seq![NoticeModel::Robot { id }])
    }
}

impl Registry {
    /// A session ended. Only the session that holds the robot's channel
    /// (token `seq`) may detach it: then the robot goes offline and loses
    /// its active and background actions. A stale token changes nothing
    /// and tells nobody.
    pub fn disconnect(&mut self, robot_id: &str, seq: u64) -> (notices: Vec<Notice>)
        ensures
            ({
                let m = old(self).deep_view();
                let m2 = final(self).deep_view();
                if robots_map(m).contains_key(robot_id@) && robots_map(m)[robot_id@].cmd_tx_seq != seq {
                    m2 == m && notices.deep_view() == Seq::<NoticeModel>::empty()
                } else {
                    &&& m2 == (RegistryModel { robots: m2.robots, ..m })
                    &&& entry_changed_if_known(
                        m,
                        m2,
                        robot_id@,
                        RobotEntryModel {
                            connected: false,
                            last_seen_ms: 0,
                            active_action_id: None,
                            background_actions: Seq::empty(),
                            has_channel: false,
                            ..entry_or_new(m, robot_id@)
                        },
                    )
                    &&& notices.deep_view() == seq![NoticeModel::Robot { id: robot_id@ }]
                }
            }),
    {
        let ghost m = self.deep_view();
        match self.robots.get(robot_id) {
            Some(e) => {
                if e.cmd_tx_seq != seq {
                    let notices: Vec<Notice> = Vec::new();
                    assert(notices.deep_view() =~= Seq::<NoticeModel>::empty());
                    return notices;
                }
                let mut e = self.take_entry(robot_id);
                e.connected = false;
                e.last_seen_ms = 0;
                e.active_action_id = None;
                e.background_actions.clear();
                e.cmd_tx = None;
                self.put_entry(robot_id, e);
                assert(robots_map(self.deep_view()) =~= robots_map(m).insert(robot_id@, e.deep_view()));
            },
            None => {},
        }
        let notices = vec![Notice::Robot { id: to_owned_string(robot_id) }];
        assert(notices.deep_view() =~= seq![NoticeModel::Robot { id: robot_id@ }]);
        notices
    }

    /// Record that an action was just sent to a robot and is now its active
    /// one, with the command it runs and when it started.
    pub fn mark_action_started(
        &mut self,
        robot_id: &str,
        action_id: String,
        action_name: String,
        command: String,
        started_ms: u64,
    ) -> (notices: Vec<Notice>)
        ensures
            ({
                let m = old(self).deep_view();
                let m2 = final(self).deep_view();
                &&& m2 == (RegistryModel { robots: m2.robots, actions_meta: m2.actions_meta, ..m })
                &&& entry_changed_if_known(
                    m,
                    m2,
                    robot_id@,
                    RobotEntryModel { active_action_id: Some(action_id@), ..entry_or_new(m, robot_id@) },
                )
                &&& meta_map(m2) == meta_map(m).insert(
                    action_id@,
                    ActionMetaModel { action_name: action_name@, command: command@, started_ms },
                )
                &&& notices.deep_view() == seq![NoticeModel::Robot { id: robot_id@ }]
            }),
    {
        let ghost m = self.deep_view();
        if self.robots.contains_key(robot_id) {
            let mut e = self.take_entry(robot_id);
            e.active_action_id = Some(action_id.clone());
            self.put_entry(robot_id, e);
            assert(robots_map(self.deep_view()) =~= robots_map(m).insert(robot_id@, e.deep_view()));
        }
        let meta = ActionMeta { action_name, command, started_ms };
        self.actions_meta.insert(action_id, meta);
        let notices = vec![Notice::Robot { id: to_owned_string(robot_id) }];
        assert(notices.deep_view() =~= seq![NoticeModel::Robot { id: robot_id@ }]);
        notices
    }

    /// Record a background action on a robot, with the command it runs and
    /// when it started: it can be stopped but does not block other
    /// dispatches.
    pub fn mark_background_action(
        &mut self,
        robot_id: &str,
        action_id: String,
        action_name: String,
        command: String,
        started_ms: u64,
    ) -> (notices: Vec<Notice>)
        ensures
            ({
                let m = old(self).deep_view();
                let m2 = final(self).deep_view();
                &&& m2 == (RegistryModel { robots: m2.robots, actions_meta: m2.actions_meta, ..m })
                &&& entry_changed_if_known(
                    m,
                    m2,
                    robot_id@,
                    RobotEntryModel {
                        background_actions: crate::strmap::sorted_insert(
                            entry_or_new(m, robot_id@).background_actions,
                            action_id@,
                            action_name@,
                        ),
                        ..entry_or_new(m, robot_id@)
                    },
                )
                &&& meta_map(m2) == meta_map(m).insert(
                    action_id@,
                    ActionMetaModel { action_name: action_name@, command: command@, started_ms },
                )
                &&& notices.deep_view() == seq![NoticeModel::Robot { id: robot_id@ }]
            }),
    {
        let ghost m = self.deep_view();
        if self.robots.contains_key(robot_id) {
            let mut e = self.take_entry(robot_id);
            let ghost bg0 = e.background_actions.deep_view();
            e.background_actions.insert(action_id.clone(), action_name.clone());
            proof {
                use_type_invariant(&e.background_actions);
                crate::strmap::lemma_sorted_insert_is(bg0, action_id@, action_name@, e.background_actions.deep_view());
            }
            self.put_entry(robot_id, e);
            assert(robots_map(self.deep_view()) =~= robots_map(m).insert(robot_id@, e.deep_view()));
        }
        let meta = ActionMeta { action_name, command, started_ms };
        self.actions_meta.insert(action_id, meta);
        let notices = vec![Notice::Robot { id: to_owned_string(robot_id) }];
        assert(notices.deep_view() =~= seq![NoticeModel::Robot { id: robot_id@ }]);
        notices
    }

    /// Adopt a robot that phoned home but is not in the swarm config: it
    /// joins the config (flagged adopted) as a `kind`, named `name` if
    /// given. The type must exist and the id must be new to the config.
    pub fn adopt(&mut self, id: &str, kind: &str, name: Option<&str>) -> (r: Result<Vec<Notice>, ConfigError>)
        ensures
            adopt_outcome(
                old(self).deep_view(),
                final(self).deep_view(),
                id@,
                kind@,
                match name {
                    Some(n) => Some(n@),
                    None => None,
                },
                notices_result(&r),
            ),
    {
        let ghost m = self.deep_view();
        if !self.config.robot_types.contains_key(kind) {
            return Err(ConfigError::UnknownRobotType { robot: to_owned_string(id), kind: to_owned_string(kind) });
        }
        match find_config_robot(&self.config, id) {
            Some(k) => {
                let first = to_owned_string(self.config.robots[k].display_name());
                return Err(ConfigError::DuplicateRobotId { id: to_owned_string(id), first });
            },
            None => {},
        }
        let robot = RobotConfig {
            id: to_owned_string(id),
            name: match name {
                Some(n) => Some(to_owned_string(n)),
                None => None,
            },
            kind: to_owned_string(kind),
            address: None,
            simulated: false,
            vars: StrMap::new(),
            env: StrMap::new(),
            adopted: true,
        };
        let ghost before = self.config.robots.deep_view();
        self.config.robots.push(robot);
        assert(self.config.robots.deep_view() =~= before.push(robot.deep_view()));
        let ghost m1 = self.deep_view();
        if self.robots.contains_key(id) {
            let mut e = self.take_entry(id);
            e.kind = to_owned_string(kind);
            e.name = match name {
                Some(n) => to_owned_string(n),
                None => to_owned_string(id),
            };
            e.adopted = true;
            self.put_entry(id, e);
            assert(robots_map(self.deep_view()) =~= robots_map(m).insert(id@, e.deep_view()));
        }
        let notices = vec![Notice::Robot { id: to_owned_string(id) }];
        assert(notices.deep_view() =~= seq![NoticeModel::Robot { id: id@ }]);
        Ok(notices)
    }

    /// Release an adopted robot: it leaves the config (robots defined in
    /// the config file stay) and its entry is no longer adopted, untyped and
    /// named by its id. Only robots that have been in touch can be released.
    pub fn release(&mut self, id: &str) -> (r: Result<Vec<Notice>, ConfigError>)
        ensures
            release_outcome(old(self).deep_view(), final(self).deep_view(), id@, notices_result(&r)),
    {
        let ghost m = self.deep_view();
        if !self.robots.contains_key(id) {
            return Err(ConfigError::UnknownRobot { id: to_owned_string(id) });
        }
        let ghost p = |c: RobotConfigModel| !(c.adopted && c.id == id@);
        let mut old_robots: Vec<RobotConfig> = Vec::new();
        std::mem::swap(&mut old_robots, &mut self.config.robots);
        let ghost all = old_robots.deep_view();
        let mut kept: Vec<RobotConfig> = Vec::new();
        let n = old_robots.len();
        let mut i: usize = 0;
        assert(all.take(0) =~= Seq::<RobotConfigModel>::empty());
        assert(kept.deep_view() =~= Seq::<RobotConfigModel>::empty());
        while i < n
            invariant
                i <= n,
                n == all.len(),
                all == old_robots.deep_view(),
                p == (|c: RobotConfigModel| !(c.adopted && c.id == id@)),
                kept.deep_view() == crate::dispatch::keep(all.take(i as int), p),
            decreases n - i,
        {
            let r = &old_robots[i];
            assert(all.take(i + 1).drop_last() =~= all.take(i as int));
            assert(r.deep_view() == all[i as int]);
            if !(r.adopted && str_eq(r.id.as_str(), id)) {
                let ghost before = kept.deep_view();
                kept.push(r.duplicate());
                assert(kept.deep_view() =~= before.push(all[i as int]));
            }
            i = i + 1;
        }
        assert(all.take(n as int) =~= all);
        self.config.robots = kept;
        let ghost m1 = self.deep_view();
        let mut e = self.take_entry(id);
        e.adopted = false;
        e.kind = String::new();
        e.name = to_owned_string(id);
        self.put_entry(id, e);
        assert(robots_map(self.deep_view()) =~= robots_map(m).insert(id@, e.deep_view()));
        let notices = vec![Notice::Robot { id: to_owned_string(id) }];
        assert(notices.deep_view() =~= seq![NoticeModel::Robot { id: id@ }]);
        Ok(notices)
    }

    /// One pass of the staleness sweep at time `now`: every robot with a
    /// session whose online state disagrees with its last contact flips
    /// (going offline clears its last-seen time); the flipped robots, in id
    /// order, are the notices.
    pub fn sweep_stale_at(&mut self, now: u64) -> (notices: Vec<Notice>)
        ensures
            ({
                let m = old(self).deep_view();
                let m2 = final(self).deep_view();
                &&& m2 == (RegistryModel { robots: m2.robots, ..m })
                &&& m2.robots == m.robots.map_values(|p: (Seq<char>, RobotEntryModel)| (p.0, swept(p.1, now)))
                &&& notices.deep_view() == flip_notices(m.robots, now)
            }),
    {
        let ghost m = self.deep_view();
        let n = self.robots.len();
        let mut notices: Vec<Notice> = Vec::new();
        let mut i: usize = 0;
        assert(m.robots.take(0) =~= Seq::<(Seq<char>, RobotEntryModel)>::empty());
        while i < n
            invariant
                i <= n,
                n == m.robots.len(),
                self.deep_view() == (RegistryModel { robots: self.deep_view().robots, ..m }),
                self.deep_view().robots.len() == n,
                forall|j: int| 0 <= j < i ==> #[trigger] self.deep_view().robots[j] == (m.robots[j].0, swept(m.robots[j].1, now)),
                forall|j: int| i <= j < n ==> #[trigger] self.deep_view().robots[j] == m.robots[j],
                notices.deep_view() == flip_notices(m.robots.take(i as int), now),
            decreases n - i,
        {
            assert(m.robots.take(i + 1).drop_last() =~= m.robots.take(i as int));
            assert(self.deep_view().robots[i as int] == m.robots[i as int]);
            let e = self.robots.value_at(i);
            let silent = if now >= e.last_seen_ms {
                now - e.last_seen_ms
            } else {
                0
            };
            let fresh = silent < STALE_AFTER_MS;
            if e.cmd_tx.is_some() && e.connected != fresh {
                let placeholder = RobotEntry::new(String::new());
                let mut e = self.robots.replace_at(i, placeholder);
                e.connected = fresh;
                if !fresh {
                    e.last_seen_ms = 0;
                }
                let ghost before = self.deep_view().robots;
                self.robots.replace_at(i, e);
                let id = to_owned_string(self.robots.key_at(i).as_str());
                let ghost nb = notices.deep_view();
                notices.push(Notice::Robot { id });
                assert(notices.deep_view() =~= nb.push(NoticeModel::Robot { id: m.robots[i as int].0 }));
            } else {
                assert(swept(m.robots[i as int].1, now) == m.robots[i as int].1);
            }
            i = i + 1;
        }
        assert(m.robots.take(n as int) =~= m.robots);
        assert(self.deep_view().robots =~= m.robots.map_values(|p: (Seq<char>, RobotEntryModel)| (p.0, swept(p.1, now))));
        notices
    }

    /// One pass of the staleness sweep, now.
    pub fn sweep_stale(&mut self) -> (notices: Vec<Notice>)
        ensures
            final(self).deep_view() == (RegistryModel { robots: final(self).deep_view().robots, ..old(self).deep_view() }),
            exists|now: u64|
                #![trigger flip_notices(old(self).deep_view().robots, now)]
                final(self).deep_view().robots == old(self).deep_view().robots.map_values(
                    |p: (Seq<char>, RobotEntryModel)| (p.0, swept(p.1, now)),
                ) && notices.deep_view() == flip_notices(old(self).deep_view().robots, now),
    {
        let now = now_ms();
        self.sweep_stale_at(now)
    }

    /// Drop every robot's log lines and every pending line.
    pub fn clear_logs(&mut self)
        ensures
            ({
                let m = old(self).deep_view();
                let m2 = final(self).deep_view();
                &&& m2 == (RegistryModel { robots: m2.robots, pending_logs: Seq::empty(), ..m })
                &&& m2.robots == m.robots.map_values(
                    |p: (Seq<char>, RobotEntryModel)|
                        (p.0, RobotEntryModel { logs: LogRingModel { lines: Seq::empty(), max: p.1.logs.max }, ..p.1 }),
                )
            }),
    {
        let ghost m = self.deep_view();
        let n = self.robots.len();
        let mut i: usize = 0;
        while i < n
            invariant
                i <= n,
                n == m.robots.len(),
                self.deep_view() == (RegistryModel { robots: self.deep_view().robots, ..m }),
                self.deep_view().robots.len() == n,
                forall|j: int| 0 <= j < i ==> #[trigger] self.deep_view().robots[j] == (m.robots[j].0,
                    RobotEntryModel { logs: LogRingModel { lines: Seq::empty(), max: m.robots[j].1.logs.max }, ..m.robots[j].1 }),
                forall|j: int| i <= j < n ==> #[trigger] self.deep_view().robots[j] == m.robots[j],
            decreases n - i,
        {
            assert(self.deep_view().robots[i as int] == m.robots[i as int]);
            let placeholder = RobotEntry::new(String::new());
            let mut e = self.robots.replace_at(i, placeholder);
            e.logs.clear();
            self.robots.replace_at(i, e);
            i = i + 1;
        }
        self.pending_logs.clear();
        assert(self.deep_view().robots =~= m.robots.map_values(
            |p: (Seq<char>, RobotEntryModel)|
                (p.0, RobotEntryModel { logs: LogRingModel { lines: Seq::empty(), max: p.1.logs.max }, ..p.1 }),
        ));
    }

    /// Hand over the log lines gathered since the last call, one event per
    /// robot in id order, and forget them.
    pub fn take_pending_logs(&mut self) -> (events: Vec<Event>)
        ensures
            ({
                let m = old(self).deep_view();
                let m2 = final(self).deep_view();
                &&& m2 == (RegistryModel { pending_logs: Seq::empty(), ..m })
                &&& events.deep_view() == m.pending_logs.map_values(
                    |p: (Seq<char>, Seq<LogLineModel>)| crate::api::EventModel::Logs { robot: p.0, lines: p.1 },
                )
            }),
    {
        let ghost m = self.deep_view();
        let mut pending: StrMap<Vec<LogLine>> = StrMap::new();
        std::mem::swap(&mut pending, &mut self.pending_logs);
        let n = pending.len();
        let mut events: Vec<Event> = Vec::new();
        let mut i: usize = 0;
        while i < n
            invariant
                i <= n,
                n == m.pending_logs.len(),
                pending.deep_view() == m.pending_logs,
                events.deep_view() == m.pending_logs.take(i as int).map_values(
                    |p: (Seq<char>, Seq<LogLineModel>)| crate::api::EventModel::Logs { robot: p.0, lines: p.1 },
                ),
            decreases n - i,
        {
            let robot = pending.key_at(i).clone();
            let lines = pending.value_at(i).duplicate();
            let ghost before = events.deep_view();
            events.push(Event::Logs { robot, lines });
            assert(events.deep_view() =~= before.push(crate::api::EventModel::Logs { robot: robot@, lines: lines.deep_view() }));
            assert(m.pending_logs.take(i + 1) =~= m.pending_logs.take(i as int).push(m.pending_logs[i as int]));
            i = i + 1;
        }
        assert(m.pending_logs.take(n as int) =~= m.pending_logs);
        events
    }
}

} // verus!
