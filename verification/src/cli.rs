//! The decisions of the command-line client and of the HTTP client it
//! uses: target selection, status labels, prompts, the host's URLs, and the
//! robots the SSH provisioner reaches.

use vstd::prelude::*;

use crate::api::{ApiTargets, ApiTargetsModel, RobotView, RunRobotStatus, RunRobotStatusModel, RunView};
use crate::config::{RobotConfigModel, SwarmConfig};
use crate::dispatch::list_contains;
use crate::text::{push_char, decimal, decimal_seq, first_index, lemma_first_index, contains_seq, starts_with_seq, str_contains, str_starts_with, to_owned_string};

verus! {

/// Why a target selection was refused.
#[derive(Debug, Clone, Copy, PartialEq, Eq, Structural)]
pub enum TargetError {
    /// None of `--all`, `--robots`, `--types`, `--name` was given.
    NoTargets,
    /// More than one of them was given.
    Conflicting,
}

impl TargetError {
    /// The text the error is reported with.
    pub fn message(&self) -> (r: String)
        ensures
            r@ == match self {
                TargetError::NoTargets => "no targets given; pass one of --all, --robots, --types, --name"@,
                TargetError::Conflicting => "targets are mutually exclusive; pass exactly one of --all, --robots, --types, --name"@,
            },
    {
        match self {
            TargetError::NoTargets => String::from_str(
                "no targets given; pass one of --all, --robots, --types, --name",
            ),
            TargetError::Conflicting => String::from_str(
                "targets are mutually exclusive; pass exactly one of --all, --robots, --types, --name",
            ),
        }
    }
}

/// The target selector the command-line flags name: exactly one of
/// `--all`, `--robots`, `--types`, `--name` must be given.
pub fn target(all: bool, robots: Vec<String>, types: Vec<String>, name: Option<String>) -> (r: Result<ApiTargets, TargetError>)
    ensures
        ({
            let given = (if all { 1int } else { 0int }) + (if robots@.len() > 0 { 1int } else { 0int })
                + (if types@.len() > 0 { 1int } else { 0int }) + (if name is Some { 1int } else { 0int });
            match r {
                Ok(t) => given == 1 && t.deep_view() == if all {
                    ApiTargetsModel::All
                } else if robots@.len() > 0 {
                    ApiTargetsModel::Robots(robots.deep_view())
                } else if types@.len() > 0 {
                    ApiTargetsModel::Types(types.deep_view())
                } else {
                    ApiTargetsModel::Name(name->0@)
                },
                Err(e) => (given == 0 && e == TargetError::NoTargets) || (given > 1 && e == TargetError::Conflicting),
            }
        }),
{
    let has_robots = robots.len() > 0;
    let has_types = types.len() > 0;
    match name {
        None => {
            if all && !has_robots && !has_types {
                Ok(ApiTargets::All)
            } else if !all && has_robots && !has_types {
                Ok(ApiTargets::Robots(robots))
            } else if !all && !has_robots && has_types {
                Ok(ApiTargets::Types(types))
            } else if !all && !has_robots && !has_types {
                Err(TargetError::NoTargets)
            } else {
                Err(TargetError::Conflicting)
            }
        },
        Some(n) => {
            if !all && !has_robots && !has_types {
                Ok(ApiTargets::Name(n))
            } else {
                Err(TargetError::Conflicting)
            }
        },
    }
}

/// How the status listing shows a robot's state.
pub fn robot_state_label(r: &RobotView) -> (s: &'static str)
    ensures
        s@ == if r.connected {
            if r.simulated {
                "sim-online"@
            } else {
                "online"@
            }
        } else {
            "offline"@
        },
{
    if r.connected {
        if r.simulated {
            "sim-online"
        } else {
            "online"
        }
    } else {
        "offline"
    }
}

/// How the run listing shows one robot's status.
pub fn run_status_label(s: &RunRobotStatus) -> (l: &'static str)
    ensures
        l@ == match s.deep_view() {
            RunRobotStatusModel::Queued => "queued"@,
            RunRobotStatusModel::Running { .. } => "running"@,
            RunRobotStatusModel::Done { killed, .. } => if killed {
                "stopped"@
            } else {
                "done"@
            },
            RunRobotStatusModel::Failed { .. } => "failed"@,
        },
{
    match s {
        RunRobotStatus::Queued => "queued",
        RunRobotStatus::Running { .. } => "running",
        RunRobotStatus::Done { killed, .. } => if *killed {
            "stopped"
        } else {
            "done"
        },
        RunRobotStatus::Failed { .. } => "failed",
    }
}

/// Some robot of the run is still queued or running.
pub fn run_in_progress(r: &RunView) -> (b: bool)
    ensures
        b == exists|i: int|
            0 <= i < r.robots@.len() && !(#[trigger] r.deep_view().robots[i]).1.terminal(),
{
    let n = r.robots.len();
    let mut i: usize = 0;
    while i < n
        invariant
            i <= n,
            n == r.robots@.len(),
            forall|j: int| 0 <= j < i ==> (#[trigger] r.deep_view().robots[j]).1.terminal(),
        decreases n - i,
    {
        assert(r.deep_view().robots[i as int] == r.robots@[i as int].deep_view());
        match &r.robots[i].1 {
            RunRobotStatus::Queued | RunRobotStatus::Running { .. } => {
                return true;
            },
            _ => {},
        }
        i = i + 1;
    }
    false
}

/// Stopping asks the operator first unless told not to, or unless exactly
/// one robot is named.
pub fn stop_needs_confirmation(yes: bool, targets: &ApiTargets) -> (b: bool)
    ensures
        b == (!yes && !(targets.deep_view() matches ApiTargetsModel::Robots(v) && v.len() == 1)),
{
    if yes {
        return false;
    }
    match targets {
        ApiTargets::Robots(v) => v.len() != 1,
        _ => true,
    }
}

/// `s` with every leading copy of `p` removed (as `str::trim_start_matches`).
pub open spec fn strip_prefix_all(s: Seq<char>, p: Seq<char>) -> Seq<char>
    decreases s.len(),
{
    if p.len() > 0 && starts_with_seq(s, p) {
        strip_prefix_all(s.skip(p.len() as int), p)
    } else {
        s
    }
}

/// `s` with every trailing `c` removed (as `str::trim_end_matches`).
pub open spec fn strip_suffix_all(s: Seq<char>, c: char) -> Seq<char>
    decreases s.len(),
{
    if s.len() > 0 && s.last() == c {
        strip_suffix_all(s.drop_last(), c)
    } else {
        s
    }
}

fn trim_start_all<'a>(s: &'a str, p: &str) -> (r: &'a str)
    ensures
        r@ == strip_prefix_all(s@, p@),
{
    let m = p.unicode_len();
    let mut cur = s;
    if m == 0 {
        return cur;
    }
    while str_starts_with(cur, p)
        invariant
            m == p@.len(),
            m > 0,
            strip_prefix_all(s@, p@) == strip_prefix_all(cur@, p@),
        decreases cur@.len(),
    {
        let n = cur.unicode_len();
        let next = cur.substring_char(m, n);
        assert(next@ =~= cur@.skip(m as int));
        cur = next;
    }
    cur
}

/// The base URL of the host API: `url` without trailing slashes.
pub fn base_url(url: &str) -> (r: String)
    ensures
        r@ == strip_suffix_all(url@, '/'),
{
    let mut n = url.unicode_len();
    assert(url@.take(n as int) =~= url@);
    while n > 0 && url.get_char(n - 1) == '/'
        invariant
            n <= url@.len(),
            strip_suffix_all(url@, '/') == strip_suffix_all(url@.take(n as int), '/'),
        decreases n,
    {
        assert(url@.take(n as int).drop_last() =~= url@.take(n - 1));
        n = n - 1;
    }
    let r = url.substring_char(0, n);
    assert(r@ =~= url@.take(n as int));
    to_owned_string(r)
}

/// The URL of an API path under the base URL.
pub fn api_url(base: &str, path: &str) -> (r: String)
    ensures
        r@ == base@ + path@,
{
    let mut r = to_owned_string(base);
    r.append(path);
    r
}

/// The WebSocket URL of the event stream: `wss://` for an `https://` base,
/// else `ws://`, then the base without its scheme, then `/api/ws`.
pub fn ws_url(base: &str) -> (r: String)
    ensures
        r@ == (if starts_with_seq(base@, "https://"@) {
            "wss://"@
        } else {
            "ws://"@
        }) + strip_prefix_all(strip_prefix_all(base@, "https://"@), "http://"@) + "/api/ws"@,
{
    let rest = trim_start_all(trim_start_all(base, "https://"), "http://");
    let mut r = if str_starts_with(base, "https://") {
        String::from_str("wss://")
    } else {
        String::from_str("ws://")
    };
    r.append(rest);
    r.append("/api/ws");
    r
}

/// The host refused a dispatch because it needs the operator's
/// confirmation.
pub fn is_confirm_rejection(body: &str) -> (b: bool)
    ensures
        b == contains_seq(body@, "confirm with confirm=true"@),
{
    str_contains(body, "confirm with confirm=true")
}

/// The items of `s` with `sep` between them.
pub open spec fn joined(s: Seq<Seq<char>>, sep: Seq<char>) -> Seq<char>
    decreases s.len(),
{
    if s.len() == 0 {
        Seq::empty()
    } else if s.len() == 1 {
        s[0]
    } else {
        joined(s.drop_last(), sep) + sep + s.last()
    }
}

/// `v` joined with `sep`.
pub fn join(v: &Vec<String>, sep: &str) -> (r: String)
    ensures
        r@ == joined(v.deep_view(), sep@),
{
    let mut r = String::new();
    let n = v.len();
    let mut i: usize = 0;
    while i < n
        invariant
            n == v@.len(),
            i <= n,
            r@ == joined(v.deep_view().take(i as int), sep@),
        decreases n - i,
    {
        assert(v.deep_view().take(i + 1).drop_last() =~= v.deep_view().take(i as int));
        if i > 0 {
            r.append(sep);
        } else {
            assert(r@ =~= Seq::<char>::empty());
        }
        r.append(v[i].as_str());
        proof {
            if i == 0 {
                assert(r@ =~= v.deep_view().take(1)[0]);
            }
        }
        i = i + 1;
    }
    assert(v.deep_view().take(n as int) =~= v.deep_view());
    r
}

/// How the stop prompt names the targets: "all robots", "N robots", "all
/// T1,T2 robots" or `robots matching "NAME"`.
pub open spec fn stop_label(t: ApiTargetsModel) -> Seq<char> {
    match t {
        ApiTargetsModel::All => "all robots"@,
        ApiTargetsModel::Robots(v) => decimal_seq(v.len() as u64) + " robots"@,
        ApiTargetsModel::Types(v) => "all "@ + joined(v, ","@) + " robots"@,
        ApiTargetsModel::Name(n) => "robots matching \""@ + n + "\""@,
    }
}

/// The question asked before stopping every action on `targets`.
pub fn stop_prompt(targets: &ApiTargets) -> (r: String)
    ensures
        r@ == "stop every running action on "@ + stop_label(targets.deep_view()) + "?"@,
{
    let mut r = String::from_str("stop every running action on ");
    match targets {
        ApiTargets::All => r.append("all robots"),
        ApiTargets::Robots(v) => {
            let n = decimal(v.len() as u64);
            r.append(n.as_str());
            r.append(" robots");
        },
        ApiTargets::Types(v) => {
            r.append("all ");
            let j = join(v, ",");
            r.append(j.as_str());
            r.append(" robots");
        },
        ApiTargets::Name(n) => {
            r.append("robots matching \"");
            r.append(n.as_str());
            r.append("\"");
        },
    }
    r.append("?");
    r
}

/// The controller endpoint provisioned agents dial: the one given
/// outright, else the controller's gRPC listener as `ip:port`, where an
/// unspecified listening address is replaced by the address given for it
/// or, failing that, the loopback address.
pub fn agent_endpoint(
    given: Option<String>,
    listen_ip: &str,
    listen_unspecified: bool,
    port: u16,
    ip_override: Option<String>,
) -> (r: String)
    ensures
        r@ == match given {
            Some(e) => e@,
            None => (if listen_unspecified {
                match ip_override {
                    Some(i) => i@,
                    None => "127.0.0.1"@,
                }
            } else {
                listen_ip@
            }) + ":"@ + decimal_seq(port as u64),
        },
{
    match given {
        Some(e) => e,
        None => {
            let mut r = if listen_unspecified {
                match ip_override {
                    Some(i) => i,
                    None => String::from_str("127.0.0.1"),
                }
            } else {
                to_owned_string(listen_ip)
            };
            r.append(":");
            let p = decimal(port as u64);
            r.append(p.as_str());
            r
        },
    }
}

/// A hexadecimal digit, lower case.
pub open spec fn hex_digit(n: u32) -> char {
    if n < 10 {
        ((48 + n) as u8) as char
    } else {
        ((87 + n) as u8) as char
    }
}

/// How character `c` is written inside a TOML basic string: `"` and `\`
/// escaped, newline, tab and carriage return by their short escapes, other
/// control characters as `\u00XX`, anything else as itself.
pub open spec fn toml_escaped_char(c: char) -> Seq<char> {
    if c == '"' {
        seq!['\\', '"']
    } else if c == '\\' {
        seq!['\\', '\\']
    } else if c == '\n' {
        seq!['\\', 'n']
    } else if c == '\t' {
        seq!['\\', 't']
    } else if c == '\r' {
        seq!['\\', 'r']
    } else if (c as u32) < 0x20 || (c as u32) == 0x7f {
        seq!['\\', 'u', '0', '0', hex_digit((c as u32) / 16), hex_digit((c as u32) % 16)]
    } else {
        seq![c]
    }
}

/// `s` written as a TOML basic string, quotes included.
pub open spec fn toml_quoted(s: Seq<char>) -> Seq<char> {
    seq!['"'] + toml_escaped(s) + seq!['"']
}

/// The characters of `s`, each as `toml_escaped_char` writes it.
pub open spec fn toml_escaped(s: Seq<char>) -> Seq<char>
    decreases s.len(),
{
    if s.len() == 0 {
        Seq::empty()
    } else {
        toml_escaped(s.drop_last()) + toml_escaped_char(s.last())
    }
}

/// Appends `s` to `out` as a TOML basic string.
fn push_toml_quoted(out: &mut String, s: &str)
    ensures
        final(out)@ == old(out)@ + toml_quoted(s@),
{
    push_char(out, '"');
    let ghost start = out@;
    let n = s.unicode_len();
    let mut i: usize = 0;
    assert(s@.take(0) =~= Seq::<char>::empty());
    assert(out@ =~= start + toml_escaped(s@.take(0)));
    while i < n
        invariant
            n == s@.len(),
            i <= n,
            out@ == start + toml_escaped(s@.take(i as int)),
        decreases n - i,
    {
        let c = s.get_char(i);
        let ghost before = out@;
        let u = c as u32;
        if c == '"' {
            push_char(out, '\\');
            push_char(out, '"');
        } else if c == '\\' {
            push_char(out, '\\');
            push_char(out, '\\');
        } else if c == '\n' {
            push_char(out, '\\');
            push_char(out, 'n');
        } else if c == '\t' {
            push_char(out, '\\');
            push_char(out, 't');
        } else if c == '\r' {
            push_char(out, '\\');
            push_char(out, 'r');
        } else if u < 0x20 || u == 0x7f {
            let hi = u / 16;
            let lo = u % 16;
            push_char(out, '\\');
            push_char(out, 'u');
            push_char(out, '0');
            push_char(out, '0');
            push_char(out, if hi < 10 { ((48 + hi) as u8) as char } else { ((87 + hi) as u8) as char });
            push_char(out, if lo < 10 { ((48 + lo) as u8) as char } else { ((87 + lo) as u8) as char });
        } else {
            push_char(out, c);
        }
        assert(out@ =~= before + toml_escaped_char(c));
        assert(s@.take(i + 1).drop_last() =~= s@.take(i as int));
        i = i + 1;
    }
    assert(s@.take(n as int) =~= s@);
    push_char(out, '"');
    assert(out@ =~= old(out)@ + toml_quoted(s@));
}

/// The `agent.toml` the provisioner installs on a robot: its id, the
/// controller endpoint and the shared id code, TLS off.
pub fn agent_toml(robot_id: &str, endpoint: &str, id_code: &str) -> (r: String)
    ensures
        r@ == "robot_id = "@ + toml_quoted(robot_id@) + "\n\n[controller]\nendpoint = "@ + toml_quoted(endpoint@)
            + "\nid_code = "@ + toml_quoted(id_code@) + "\ntls = false\n"@,
{
    let mut r = String::from_str("robot_id = ");
    push_toml_quoted(&mut r, robot_id);
    r.append("\n\n[controller]\nendpoint = ");
    push_toml_quoted(&mut r, endpoint);
    r.append("\nid_code = ");
    push_toml_quoted(&mut r, id_code);
    r.append("\ntls = false\n");
    r
}

/// A robot the provisioner reaches over SSH.
#[derive(Debug, Clone, PartialEq, Eq)]
pub struct ProvisionTarget {
    pub id: String,
    pub address: String,
}

/// Why no robots could be provisioned.
#[derive(Debug, Clone, PartialEq, Eq)]
pub enum ProvisionError {
    /// A robot asked for by id is not a real robot with an address.
    NotAddressed { id: String },
    /// Nothing is left to provision.
    NoTargets,
}

impl ProvisionError {
    /// The text the error is reported with.
    pub fn message(&self) -> (r: String)
        ensures
            r@ == match self {
                ProvisionError::NotAddressed { id } => "robot '"@ + id@
                    + "' has no address in the swarm config (or doesn't exist)"@,
                ProvisionError::NoTargets => "no provisionable robots (with an address) matched"@,
            },
    {
        match self {
            ProvisionError::NotAddressed { id } => {
                let mut r = String::from_str("robot '");
                r.append(id.as_str());
                r.append("' has no address in the swarm config (or doesn't exist)");
                r
            },
            ProvisionError::NoTargets => String::from_str(
                "no provisionable robots (with an address) matched",
            ),
        }
    }
}

/// The robots of `robots` the provisioner reaches, as (id, address), in
/// config order: real robots with an address, and of those only the ones
/// `only` names when it names any.
pub open spec fn provisionable(robots: Seq<RobotConfigModel>, only: Seq<Seq<char>>) -> Seq<
    (Seq<char>, Seq<char>),
>
    decreases robots.len(),
{
    if robots.len() == 0 {
        Seq::empty()
    } else {
        let rest = provisionable(robots.drop_last(), only);
        let r = robots.last();
        if !r.simulated && r.address is Some && (only.len() == 0 || only.contains(r.id)) {
            rest.push((r.id, r.address->0))
        } else {
            rest
        }
    }
}

/// What the provisioner does with `only`: the targets, or the first id of
/// `only` among them missing, or that none are left.
pub open spec fn provision_plan(robots: Seq<RobotConfigModel>, only: Seq<Seq<char>>) -> Result<
    Seq<(Seq<char>, Seq<char>)>,
    ProvisionErrorModel,
> {
    let t = provisionable(robots, only);
    let ids = t.map_values(|p: (Seq<char>, Seq<char>)| p.0);
    match first_index(only, |id: Seq<char>| !ids.contains(id)) {
        Some(i) => Err(ProvisionErrorModel::NotAddressed { id: only[i as int] }),
        None => if t.len() == 0 {
            Err(ProvisionErrorModel::NoTargets)
        } else {
            Ok(t)
        },
    }
}

pub enum ProvisionErrorModel {
    NotAddressed { id: Seq<char> },
    NoTargets,
}

impl DeepView for ProvisionError {
    type V = ProvisionErrorModel;

    open spec fn deep_view(&self) -> ProvisionErrorModel {
        match self {
            ProvisionError::NotAddressed { id } => ProvisionErrorModel::NotAddressed { id: id@ },
            ProvisionError::NoTargets => ProvisionErrorModel::NoTargets,
        }
    }
}

impl DeepView for ProvisionTarget {
    type V = (Seq<char>, Seq<char>);

    open spec fn deep_view(&self) -> (Seq<char>, Seq<char>) {
        (self.id@, self.address@)
    }
}

/// The robots to provision: real robots with an SSH address, narrowed to
/// `only` when it is not empty; an id of `only` that is not among them, or
/// an empty result, is an error.
pub fn provision_targets(cfg: &SwarmConfig, only: &Vec<String>) -> (r: Result<Vec<ProvisionTarget>, ProvisionError>)
    ensures
        match r {
            Ok(t) => provision_plan(cfg.robots.deep_view(), only.deep_view()) == Ok::<
                Seq<(Seq<char>, Seq<char>)>,
                ProvisionErrorModel,
            >(t.deep_view()),
            Err(e) => provision_plan(cfg.robots.deep_view(), only.deep_view()) == Err::<
                Seq<(Seq<char>, Seq<char>)>,
                ProvisionErrorModel,
            >(e.deep_view()),
        },
{
    let n = cfg.robots.len();
    let mut t: Vec<ProvisionTarget> = Vec::new();
    let mut ids: Vec<String> = Vec::new();
    let mut i: usize = 0;
    while i < n
        invariant
            n == cfg.robots@.len(),
            i <= n,
            t.deep_view() == provisionable(cfg.robots.deep_view().take(i as int), only.deep_view()),
            ids.deep_view() == t.deep_view().map_values(|p: (Seq<char>, Seq<char>)| p.0),
        decreases n - i,
    {
        let r = &cfg.robots[i];
        assert(cfg.robots.deep_view().take(i + 1).drop_last() =~= cfg.robots.deep_view().take(i as int));
        assert(cfg.robots.deep_view().take(i + 1).last() == r.deep_view());
        if !r.simulated && r.address.is_some() && (only.len() == 0 || list_contains(
            only.as_slice(),
            r.id.as_str(),
        )) {
            let a = match &r.address {
                Some(a) => a.clone(),
                None => String::new(),
            };
            let ghost before = t.deep_view();
            let ghost before_ids = ids.deep_view();
            t.push(ProvisionTarget { id: r.id.clone(), address: a });
            ids.push(r.id.clone());
            assert(t.deep_view() =~= before.push((r.id@, a@)));
            assert(ids.deep_view() =~= before_ids.push(r.id@));
            assert(ids.deep_view() =~= t.deep_view().map_values(|p: (Seq<char>, Seq<char>)| p.0));
        }
        i = i + 1;
    }
    assert(cfg.robots.deep_view().take(n as int) =~= cfg.robots.deep_view());
    let ghost p = |id: Seq<char>| !ids.deep_view().contains(id);
    let m = only.len();
    let mut j: usize = 0;
    while j < m
        invariant
            m == only@.len(),
            j <= m,
            ids.deep_view() == t.deep_view().map_values(|p: (Seq<char>, Seq<char>)| p.0),
            t.deep_view() == provisionable(cfg.robots.deep_view(), only.deep_view()),
            p == (|id: Seq<char>| !ids.deep_view().contains(id)),
            forall|k: int| 0 <= k < j ==> !p(#[trigger] only.deep_view()[k]),
        decreases m - j,
    {
        if !list_contains(ids.as_slice(), only[j].as_str()) {
            proof {
                crate::text::lemma_first_index_is(only.deep_view(), p, j as int);
            }
            return Err(ProvisionError::NotAddressed { id: only[j].clone() });
        }
        j = j + 1;
    }
    proof {
        crate::text::lemma_first_index_none(only.deep_view(), p);
    }
    if t.len() == 0 {
        Err(ProvisionError::NoTargets)
    } else {
        Ok(t)
    }
}

} // verus!
