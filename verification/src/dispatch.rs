//! Batch target resolution. Every client funnels through here, so batch
//! semantics are the same everywhere.

use vstd::prelude::*;

use crate::api::{action_ref_split, parse_action_ref, ApiTargets, ApiTargetsModel};
use crate::config::{
    ActionConfig, ActionConfigModel, RobotConfig, RobotConfigModel, SwarmConfig,
    SwarmConfigModel,
};
use crate::error::{ConfigError, ConfigErrorModel};
use crate::strmap::{keys_sorted, lemma_pairs_to_map_push, pairs_to_map, Duplicate};
use crate::config::has_id;
use crate::text::{
    contains_seq, first_index, lemma_first_index, lemma_first_index_is, lemma_first_index_none, str_contains, str_eq, to_owned_string,
};

verus! {

/// A resolved batch: the action to run plus the ordered robots it goes to.
#[derive(Debug)]
pub struct ResolvedRun {
    pub action_name: String,
    pub action: ActionConfig,
    pub robots: Vec<RobotConfig>,
    /// Flagged `dangerous` in config, for confirmation enforcement.
    pub dangerous: bool,
}

pub struct ResolvedRunModel {
    pub action_name: Seq<char>,
    pub action: ActionConfigModel,
    pub robots: Seq<RobotConfigModel>,
    pub dangerous: bool,
}

impl DeepView for ResolvedRun {
    type V = ResolvedRunModel;

    open spec fn deep_view(&self) -> ResolvedRunModel {
        ResolvedRunModel {
            action_name: self.action_name@,
            action: self.action.deep_view(),
            robots: self.robots.deep_view(),
            dangerous: self.dangerous,
        }
    }
}

/// The elements of `s` that satisfy `p`, in order.
pub open spec fn keep(s: Seq<RobotConfigModel>, p: spec_fn(RobotConfigModel) -> bool) -> Seq<
    RobotConfigModel,
>
    decreases s.len(),
{
    if s.len() == 0 {
        s
    } else if p(s.last()) {
        keep(s.drop_last(), p).push(s.last())
    } else {
        keep(s.drop_last(), p)
    }
}

/// `s` with every robot dropped whose id equals that of the robot just
/// before it.
pub open spec fn dedup_ids(s: Seq<RobotConfigModel>) -> Seq<RobotConfigModel>
    decreases s.len(),
{
    if s.len() == 0 {
        s
    } else if s.len() >= 2 && s.last().id == s[s.len() - 2].id {
        dedup_ids(s.drop_last())
    } else {
        dedup_ids(s.drop_last()).push(s.last())
    }
}

/// Robots whose type is one of `types`.
pub open spec fn of_types(types: Seq<Seq<char>>) -> spec_fn(RobotConfigModel) -> bool {
    |r: RobotConfigModel| types.contains(r.kind)
}

/// Robots whose id or display name contains `pat`.
pub open spec fn matching_name(pat: Seq<char>) -> spec_fn(RobotConfigModel) -> bool {
    |r: RobotConfigModel| contains_seq(r.id, pat) || contains_seq(r.display_name(), pat)
}

/// The robots named by `ids`, in that order: for each id the first robot
/// with it, or an error for the first id that names no robot (adopted but
/// unsaved when `known` lists it, else unknown).
pub open spec fn pick_robots(robots: Seq<RobotConfigModel>, ids: Seq<Seq<char>>, known: Seq<Seq<char>>) -> Result<
    Seq<RobotConfigModel>,
    ConfigErrorModel,
>
    decreases ids.len(),
{
    if ids.len() == 0 {
        Ok(Seq::empty())
    } else {
        match pick_robots(robots, ids.drop_last(), known) {
            Err(e) => Err(e),
            Ok(out) => {
                let id = ids.last();
                match first_index(robots, crate::config::has_id(id)) {
                    Some(k) => Ok(out.push(robots[k as int])),
                    None => if known.contains(id) {
                        Err(ConfigErrorModel::UnadoptedRobot { robot: id })
                    } else {
                        Err(ConfigErrorModel::UnknownRobot { id })
                    },
                }
            },
        }
    }
}

/// The robots a target selector picks, before duplicates are collapsed.
pub open spec fn chosen_robots(m: SwarmConfigModel, t: ApiTargetsModel, known: Seq<Seq<char>>) -> Result<
    Seq<RobotConfigModel>,
    ConfigErrorModel,
> {
    match t {
        ApiTargetsModel::All => Ok(m.robots),
        ApiTargetsModel::Robots(ids) => pick_robots(m.robots, ids, known),
        ApiTargetsModel::Types(types) => Ok(keep(m.robots, of_types(types))),
        ApiTargetsModel::Name(pat) => Ok(keep(m.robots, matching_name(pat))),
    }
}

/// The robots a target selector resolves to: the chosen robots with
/// back-to-back repeats of one id collapsed.
pub open spec fn selected_robots(m: SwarmConfigModel, t: ApiTargetsModel, known: Seq<Seq<char>>) -> Result<
    Seq<RobotConfigModel>,
    ConfigErrorModel,
> {
    match chosen_robots(m, t, known) {
        Ok(s) => Ok(dedup_ids(s)),
        Err(e) => Err(e),
    }
}

/// `out` is robot `r` with the swarm-wide variables `swarm_vars` as
/// defaults: the robot's own entry wins per key, everything else is `r`'s.
pub open spec fn inherits(
    out: RobotConfigModel,
    r: RobotConfigModel,
    swarm_vars: Seq<(Seq<char>, Seq<char>)>,
) -> bool {
    &&& out == (RobotConfigModel { vars: out.vars, ..r })
    &&& keys_sorted(out.vars)
    &&& pairs_to_map(out.vars) == pairs_to_map(swarm_vars).union_prefer_right(pairs_to_map(r.vars))
}

/// Robot `r` with the swarm-wide variables `swarm_vars` as defaults.
pub open spec fn inherited(r: RobotConfigModel, swarm_vars: Seq<(Seq<char>, Seq<char>)>) -> RobotConfigModel {
    RobotConfigModel {
        vars: choose|t: Seq<(Seq<char>, Seq<char>)>|
            keys_sorted(t) && pairs_to_map(t) == pairs_to_map(swarm_vars).union_prefer_right(
                pairs_to_map(r.vars),
            ),
        ..r
    }
}

/// `inherits` pins the robot down: it is `inherited`.
pub proof fn lemma_inherits_is(out: RobotConfigModel, r: RobotConfigModel, swarm_vars: Seq<(Seq<char>, Seq<char>)>)
    requires
        inherits(out, r, swarm_vars),
    ensures
        out == inherited(r, swarm_vars),
{
    let c = inherited(r, swarm_vars).vars;
    assert(keys_sorted(out.vars) && pairs_to_map(out.vars) == pairs_to_map(swarm_vars).union_prefer_right(
        pairs_to_map(r.vars),
    ));
    crate::strmap::lemma_sorted_unique(c, out.vars);
}

/// A robot's own variable wins over the swarm default of the same key.
pub proof fn law_robot_var_wins(
    out: RobotConfigModel,
    r: RobotConfigModel,
    swarm_vars: Seq<(Seq<char>, Seq<char>)>,
    key: Seq<char>,
)
    requires
        inherits(out, r, swarm_vars),
        pairs_to_map(r.vars).contains_key(key),
    ensures
        pairs_to_map(out.vars).contains_key(key),
        pairs_to_map(out.vars)[key] == pairs_to_map(r.vars)[key],
{
}

/// A swarm variable reaches every robot: with the swarm's value where the
/// robot sets none of its own.
pub proof fn law_swarm_var_inherited(
    out: RobotConfigModel,
    r: RobotConfigModel,
    swarm_vars: Seq<(Seq<char>, Seq<char>)>,
    key: Seq<char>,
)
    requires
        inherits(out, r, swarm_vars),
        pairs_to_map(swarm_vars).contains_key(key),
    ensures
        pairs_to_map(out.vars).contains_key(key),
        !pairs_to_map(r.vars).contains_key(key) ==> pairs_to_map(out.vars)[key] == pairs_to_map(
            swarm_vars,
        )[key],
{
}

/// Whether `s` lists `x`.
pub(crate) fn list_contains(s: &[String], x: &str) -> (r: bool)
    ensures
        r == s.deep_view().contains(x@),
{
    let n = s.len();
    let mut i: usize = 0;
    while i < n
        invariant
            i <= n,
            n == s@.len(),
            forall|j: int| 0 <= j < i ==> (#[trigger] s.deep_view()[j]) != x@,
        decreases n - i,
    {
        if str_eq(s[i].as_str(), x) {
            assert(s.deep_view()[i as int] == x@);
            return true;
        }
        i = i + 1;
    }
    proof {
        if s.deep_view().contains(x@) {
            let j = choose|j: int| 0 <= j < s.deep_view().len() && s.deep_view()[j] == x@;
            assert(s.deep_view()[j] != x@);
        }
    }
    false
}

/// Position of the first robot with id `id`.
fn find_robot(robots: &Vec<RobotConfig>, id: &str) -> (r: Option<usize>)
    ensures
        match r {
            Some(k) => first_index(robots.deep_view(), crate::config::has_id(id@)) == Some(k as nat),
            None => first_index(robots.deep_view(), crate::config::has_id(id@)) is None,
        },
{
    let ghost p = crate::config::has_id(id@);
    let n = robots.len();
    let mut k: usize = 0;
    while k < n
        invariant
            k <= n,
            n == robots.deep_view().len(),
            p == crate::config::has_id(id@),
            forall|j: int| 0 <= j < k ==> !p(#[trigger] robots.deep_view()[j]),
        decreases n - k,
    {
        if str_eq(robots[k].id.as_str(), id) {
            proof {
                lemma_first_index_is(robots.deep_view(), p, k as int);
            }
            return Some(k);
        }
        assert(robots.deep_view()[k as int] == robots[k as int].deep_view());
        k = k + 1;
    }
    proof {
        lemma_first_index_none(robots.deep_view(), p);
    }
    None
}

/// Positions (into `cfg.robots`) of the robots a selector picks.
fn chosen_positions(cfg: &SwarmConfig, targets: &ApiTargets, known: &[String]) -> (r: Result<
    Vec<usize>,
    ConfigError,
>)
    ensures
        match r {
            Ok(idx) => {
                &&& forall|j: int| 0 <= j < idx@.len() ==> #[trigger] idx@[j] < cfg.robots@.len()
                &&& chosen_robots(cfg.deep_view(), targets.deep_view(), known.deep_view()) == Ok::<
                    Seq<RobotConfigModel>,
                    ConfigErrorModel,
                >(idx@.map_values(|i: usize| cfg.deep_view().robots[i as int]))
            },
            Err(e) => chosen_robots(cfg.deep_view(), targets.deep_view(), known.deep_view()) == Err::<
                Seq<RobotConfigModel>,
                ConfigErrorModel,
            >(e.deep_view()),
        },
{
    let ghost m = cfg.deep_view();
    let n = cfg.robots.len();
    let mut idx: Vec<usize> = Vec::new();
    match targets {
        ApiTargets::All => {
            let mut i: usize = 0;
            while i < n
                invariant
                    i <= n,
                    n == m.robots.len(),
                    m == cfg.deep_view(),
                    idx@.len() == i,
                    forall|j: int| 0 <= j < i ==> #[trigger] idx@[j] == j,
                decreases n - i,
            {
                idx.push(i);
                i = i + 1;
            }
            assert(idx@.map_values(|i: usize| m.robots[i as int]) =~= m.robots);
            Ok(idx)
        },
        ApiTargets::Robots(ids) => {
            let ni = ids.len();
            let mut q: usize = 0;
            assert(ids.deep_view().take(0) =~= Seq::<Seq<char>>::empty());
            assert(idx@.map_values(|i: usize| m.robots[i as int]) =~= Seq::<RobotConfigModel>::empty());
            while q < ni
                invariant
                    q <= ni,
                    ni == ids.deep_view().len(),
                    targets.deep_view() == ApiTargetsModel::Robots(ids.deep_view()),
                    n == m.robots.len(),
                    m == cfg.deep_view(),
                    forall|j: int| 0 <= j < idx@.len() ==> #[trigger] idx@[j] < n,
                    pick_robots(m.robots, ids.deep_view().take(q as int), known.deep_view()) == Ok::<
                        Seq<RobotConfigModel>,
                        ConfigErrorModel,
                    >(idx@.map_values(|i: usize| m.robots[i as int])),
                decreases ni - q,
            {
                let id = ids[q].as_str();
                let ghost prefix = ids.deep_view().take(q + 1);
                assert(prefix.drop_last() =~= ids.deep_view().take(q as int));
                assert(prefix.last() == id@);
                let found = find_robot(&cfg.robots, id);
                proof {
                    crate::text::lemma_first_index(m.robots, crate::config::has_id(id@));
                }
                match found {
                    Some(k) => {
                        let ghost before = idx@;
                        idx.push(k);
                        assert(idx@.map_values(|i: usize| m.robots[i as int]) =~= before.map_values(
                            |i: usize| m.robots[i as int],
                        ).push(m.robots[k as int]));
                    },
                    None => {
                        if list_contains(known, id) {
                            let e = ConfigError::UnadoptedRobot { robot: to_owned_string(id) };
                            proof {
                                assert(pick_robots(m.robots, prefix, known.deep_view()) == Err::<
                                    Seq<RobotConfigModel>,
                                    ConfigErrorModel,
                                >(e.deep_view()));
                                lemma_pick_error_stable(m.robots, ids.deep_view(), known.deep_view(), q + 1);
                                assert(ids.deep_view().take(q + 1) == prefix);
                                assert(targets.deep_view() == ApiTargetsModel::Robots(ids.deep_view()));
                                assert(pick_robots(m.robots, ids.deep_view(), known.deep_view()) == Err::<
                                    Seq<RobotConfigModel>,
                                    ConfigErrorModel,
                                >(e.deep_view()));
                            }
                            return Err(e);
                        } else {
                            let e = ConfigError::UnknownRobot { id: to_owned_string(id) };
                            proof {
                                assert(pick_robots(m.robots, prefix, known.deep_view()) == Err::<
                                    Seq<RobotConfigModel>,
                                    ConfigErrorModel,
                                >(e.deep_view()));
                                lemma_pick_error_stable(m.robots, ids.deep_view(), known.deep_view(), q + 1);
                                assert(ids.deep_view().take(q + 1) == prefix);
                                assert(targets.deep_view() == ApiTargetsModel::Robots(ids.deep_view()));
                                assert(pick_robots(m.robots, ids.deep_view(), known.deep_view()) == Err::<
                                    Seq<RobotConfigModel>,
                                    ConfigErrorModel,
                                >(e.deep_view()));
                            }
                            return Err(e);
                        }
                    },
                }
                q = q + 1;
            }
            assert(ids.deep_view().take(ni as int) =~= ids.deep_view());
            Ok(idx)
        },
        ApiTargets::Types(types) => {
            let ghost p = of_types(types.deep_view());
            let mut i: usize = 0;
            assert(m.robots.take(0) =~= Seq::<RobotConfigModel>::empty());
            assert(idx@.map_values(|i: usize| m.robots[i as int]) =~= Seq::<RobotConfigModel>::empty());
            while i < n
                invariant
                    i <= n,
                    n == m.robots.len(),
                    m == cfg.deep_view(),
                    p == of_types(types.deep_view()),
                    forall|j: int| 0 <= j < idx@.len() ==> #[trigger] idx@[j] < n,
                    keep(m.robots.take(i as int), p) == idx@.map_values(|i: usize| m.robots[i as int]),
                decreases n - i,
            {
                assert(m.robots.take(i + 1).drop_last() =~= m.robots.take(i as int));
                assert(cfg.robots[i as int].deep_view() == m.robots[i as int]);
                if list_contains(types, cfg.robots[i].kind.as_str()) {
                    let ghost before = idx@;
                    idx.push(i);
                    assert(idx@.map_values(|i: usize| m.robots[i as int]) =~= before.map_values(
                        |i: usize| m.robots[i as int],
                    ).push(m.robots[i as int]));
                }
                i = i + 1;
            }
            assert(m.robots.take(n as int) =~= m.robots);
            Ok(idx)
        },
        ApiTargets::Name(pat) => {
            let ghost p = matching_name(pat@);
            let mut i: usize = 0;
            assert(m.robots.take(0) =~= Seq::<RobotConfigModel>::empty());
            assert(idx@.map_values(|i: usize| m.robots[i as int]) =~= Seq::<RobotConfigModel>::empty());
            while i < n
                invariant
                    i <= n,
                    n == m.robots.len(),
                    m == cfg.deep_view(),
                    p == matching_name(pat@),
                    forall|j: int| 0 <= j < idx@.len() ==> #[trigger] idx@[j] < n,
                    keep(m.robots.take(i as int), p) == idx@.map_values(|i: usize| m.robots[i as int]),
                decreases n - i,
            {
                assert(m.robots.take(i + 1).drop_last() =~= m.robots.take(i as int));
                assert(cfg.robots[i as int].deep_view() == m.robots[i as int]);
                let r = &cfg.robots[i];
                if str_contains(r.id.as_str(), pat.as_str()) || str_contains(r.display_name(), pat.as_str()) {
                    let ghost before = idx@;
                    idx.push(i);
                    assert(idx@.map_values(|i: usize| m.robots[i as int]) =~= before.map_values(
                        |i: usize| m.robots[i as int],
                    ).push(m.robots[i as int]));
                }
                i = i + 1;
            }
            assert(m.robots.take(n as int) =~= m.robots);
            Ok(idx)
        },
    }
}

/// Once an id fails to resolve, the whole pick fails with that error.
proof fn lemma_pick_error_stable(
    robots: Seq<RobotConfigModel>,
    ids: Seq<Seq<char>>,
    known: Seq<Seq<char>>,
    q: int,
)
    requires
        0 < q <= ids.len(),
        pick_robots(robots, ids.take(q), known) is Err,
    ensures
        pick_robots(robots, ids, known) == pick_robots(robots, ids.take(q), known),
    decreases ids.len() - q,
{
    if q < ids.len() {
        assert(ids.take(q + 1).drop_last() =~= ids.take(q));
        assert(pick_robots(robots, ids.take(q + 1), known) == pick_robots(robots, ids.take(q), known));
        lemma_pick_error_stable(robots, ids, known, q + 1);
    } else {
        assert(ids.take(q) =~= ids);
    }
}

/// `r` with the swarm-wide variables filled in where it sets none.
fn inherit_vars(cfg: &SwarmConfig, r: &RobotConfig) -> (out: RobotConfig)
    ensures
        inherits(out.deep_view(), r.deep_view(), cfg.deep_view().vars),
{
    proof {
        use_type_invariant(&cfg.vars);
    }
    let mut out = r.duplicate();
    let n = cfg.vars.len();
    let mut j: usize = 0;
    while j < n
        invariant
            j <= n,
            n == cfg.vars.pairs().len(),
            keys_sorted(cfg.vars.pairs()),
            out.deep_view() == (RobotConfigModel { vars: out.deep_view().vars, ..r.deep_view() }),
            out.vars.map() == pairs_to_map(cfg.vars.pairs().take(j as int)).union_prefer_right(
                r.vars.map(),
            ),
        decreases n - j,
    {
        let k = cfg.vars.key_at(j);
        let ghost sv = cfg.vars.pairs();
        proof {
            assert(sv.take(j + 1) =~= sv.take(j as int).push(sv[j as int]));
            assert(keys_sorted(sv.take(j + 1))) by {
                assert forall|a: int, b: int| 0 <= a < b < sv.take(j + 1).len() implies crate::text::seq_lt(
                    (#[trigger] sv.take(j + 1)[a]).0,
                    (#[trigger] sv.take(j + 1)[b]).0,
                ) by {
                    assert(sv.take(j + 1)[a] == sv[a]);
                    assert(sv.take(j + 1)[b] == sv[b]);
                }
            }
            lemma_pairs_to_map_push(sv.take(j as int), sv[j as int]);
        }
        if !out.vars.contains_key(k.as_str()) {
            let v = cfg.vars.value_at(j).clone();
            out.vars.insert(k.clone(), v);
        }
        assert(out.vars.map() =~= pairs_to_map(sv.take(j + 1)).union_prefer_right(r.vars.map()));
        j = j + 1;
    }
    proof {
        assert(cfg.vars.pairs().take(n as int) =~= cfg.vars.pairs());
        use_type_invariant(&out.vars);
    }
    out
}

/// Resolve a target selector against the swarm: the picked robots in
/// order, back-to-back repeats of one id collapsed, each with the swarm's
/// variables as defaults.
pub fn select_robots(cfg: &SwarmConfig, targets: &ApiTargets, known_robot_ids: &[String]) -> (r:
    Result<Vec<RobotConfig>, ConfigError>)
    ensures
        match r {
            Ok(v) => match selected_robots(cfg.deep_view(), targets.deep_view(), known_robot_ids.deep_view()) {
                Ok(s) => v@.len() == s.len() && forall|i: int|
                    0 <= i < s.len() ==> inherits(
                        #[trigger] v@[i].deep_view(),
                        s[i],
                        cfg.deep_view().vars,
                    ),
                Err(_) => false,
            },
            Err(e) => selected_robots(cfg.deep_view(), targets.deep_view(), known_robot_ids.deep_view())
                == Err::<Seq<RobotConfigModel>, ConfigErrorModel>(e.deep_view()),
        },
{
    let ghost m = cfg.deep_view();
    let idx = match chosen_positions(cfg, targets, known_robot_ids) {
        Ok(idx) => idx,
        Err(e) => {
            return Err(e);
        },
    };
    let ghost chosen = idx@.map_values(|i: usize| m.robots[i as int]);
    let n = idx.len();
    let mut kept: Vec<usize> = Vec::new();
    let mut j: usize = 0;
    while j < n
        invariant
            j <= n,
            n == idx@.len(),
            m == cfg.deep_view(),
            chosen == idx@.map_values(|i: usize| m.robots[i as int]),
            forall|q: int| 0 <= q < idx@.len() ==> #[trigger] idx@[q] < m.robots.len(),
            forall|q: int| 0 <= q < kept@.len() ==> #[trigger] kept@[q] < m.robots.len(),
            dedup_ids(chosen.take(j as int)) == kept@.map_values(|i: usize| m.robots[i as int]),
        decreases n - j,
    {
        let cur = idx[j];
        assert(chosen.take(j + 1).drop_last() =~= chosen.take(j as int));
        assert(cfg.robots[cur as int].deep_view() == m.robots[cur as int]);
        if j >= 1 && str_eq(cfg.robots[cur].id.as_str(), cfg.robots[idx[j - 1]].id.as_str()) {
            assert(cfg.robots[idx[j - 1] as int].deep_view() == m.robots[idx[j - 1] as int]);
        } else {
            proof {
                if j >= 1 {
                    assert(cfg.robots[idx[j - 1] as int].deep_view() == m.robots[idx[j - 1] as int]);
                }
            }
            let ghost before = kept@;
            kept.push(cur);
            assert(kept@.map_values(|i: usize| m.robots[i as int]) =~= before.map_values(
                |i: usize| m.robots[i as int],
            ).push(m.robots[cur as int]));
        }
        j = j + 1;
    }
    assert(chosen.take(n as int) =~= chosen);
    let ghost s = kept@.map_values(|i: usize| m.robots[i as int]);
    let nk = kept.len();
    let mut out: Vec<RobotConfig> = Vec::new();
    let mut q: usize = 0;
    while q < nk
        invariant
            q <= nk,
            nk == kept@.len(),
            m == cfg.deep_view(),
            s == kept@.map_values(|i: usize| m.robots[i as int]),
            forall|z: int| 0 <= z < kept@.len() ==> #[trigger] kept@[z] < m.robots.len(),
            out@.len() == q,
            forall|z: int| 0 <= z < q ==> inherits(#[trigger] out@[z].deep_view(), s[z], m.vars),
        decreases nk - q,
    {
        let r = &cfg.robots[kept[q]];
        assert(r.deep_view() == m.robots[kept[q as int] as int]);
        out.push(inherit_vars(cfg, r));
        q = q + 1;
    }
    Ok(out)
}

/// What resolving an action reference against a batch gives: the batch's
/// robots first (their error wins), then the action, either
/// `<type>.<action>` on a robot type or a swarm action by bare name.
pub open spec fn resolve_spec(
    m: SwarmConfigModel,
    action: Seq<char>,
    t: ApiTargetsModel,
    known: Seq<Seq<char>>,
) -> Result<(Seq<char>, ActionConfigModel), ConfigErrorModel> {
    match selected_robots(m, t, known) {
        Err(e) => Err(e),
        Ok(_) => match action_ref_split(action) {
            Some((ty, name)) => if !pairs_to_map(m.robot_types).contains_key(ty) {
                Err(ConfigErrorModel::UnknownRobotType { robot: "targets"@, kind: ty })
            } else if !pairs_to_map(pairs_to_map(m.robot_types)[ty].actions).contains_key(name) {
                Err(ConfigErrorModel::UnknownAction { kind: ty, action: name })
            } else {
                Ok((action, pairs_to_map(pairs_to_map(m.robot_types)[ty].actions)[name]))
            },
            None => if pairs_to_map(m.actions).contains_key(action) {
                Ok((action, pairs_to_map(m.actions)[action]))
            } else {
                Err(ConfigErrorModel::UnknownSwarmAction { action })
            },
        },
    }
}

/// Resolve an action reference and target selector against the swarm.
///
/// Two action namespaces: `<type>.<action>` names an action of a robot
/// type; a bare name names a swarm-level action, dispatched to any robot
/// regardless of type.
pub fn resolve(cfg: &SwarmConfig, action: &str, targets: &ApiTargets, known_robot_ids: &[String]) -> (r:
    Result<ResolvedRun, ConfigError>)
    ensures
        match r {
            Ok(rr) => {
                &&& resolve_spec(cfg.deep_view(), action@, targets.deep_view(), known_robot_ids.deep_view())
                    == Ok::<(Seq<char>, ActionConfigModel), ConfigErrorModel>(
                    (rr.action_name@, rr.action.deep_view()),
                )
                &&& rr.dangerous == rr.action.dangerous
                &&& match selected_robots(cfg.deep_view(), targets.deep_view(), known_robot_ids.deep_view()) {
                    Ok(s) => rr.robots@.len() == s.len() && forall|i: int|
                        0 <= i < s.len() ==> inherits(
                            #[trigger] rr.robots@[i].deep_view(),
                            s[i],
                            cfg.deep_view().vars,
                        ),
                    Err(_) => false,
                }
            },
            Err(e) => resolve_spec(cfg.deep_view(), action@, targets.deep_view(), known_robot_ids.deep_view())
                == Err::<(Seq<char>, ActionConfigModel), ConfigErrorModel>(e.deep_view()),
        },
{
    let robots = match select_robots(cfg, targets, known_robot_ids) {
        Ok(v) => v,
        Err(e) => {
            return Err(e);
        },
    };
    match parse_action_ref(action) {
        Some((ty, name)) => {
            let t = match cfg.robot_types.get(ty) {
                Some(t) => t,
                None => {
                    let robot = String::from_str("targets");
                    return Err(ConfigError::UnknownRobotType { robot, kind: to_owned_string(ty) });
                },
            };
            let a = match t.actions.get(name) {
                Some(a) => a,
                None => {
                    return Err(ConfigError::UnknownAction { kind: to_owned_string(ty), action: to_owned_string(name) });
                },
            };
            let action_cfg = a.duplicate();
            let dangerous = action_cfg.dangerous;
            Ok(ResolvedRun { action_name: to_owned_string(action), action: action_cfg, robots, dangerous })
        },
        None => {
            let a = match cfg.actions.get(action) {
                Some(a) => a,
                None => {
                    return Err(ConfigError::UnknownSwarmAction { action: to_owned_string(action) });
                },
            };
            let action_cfg = a.duplicate();
            let dangerous = action_cfg.dangerous;
            Ok(ResolvedRun { action_name: to_owned_string(action), action: action_cfg, robots, dangerous })
        },
    }
}

/// The error a robot id that names no configured robot gives: adopted but
/// unsaved when `known` lists it, else unknown.
pub open spec fn missing_robot_error(id: Seq<char>, known: Seq<Seq<char>>) -> ConfigErrorModel {
    if known.contains(id) {
        ConfigErrorModel::UnadoptedRobot { robot: id }
    } else {
        ConfigErrorModel::UnknownRobot { id }
    }
}

/// Whether some robot of `robots` has id `id`.
pub open spec fn configured(robots: Seq<RobotConfigModel>, id: Seq<char>) -> bool {
    first_index(robots, has_id(id)) is Some
}

/// The robot id `id` names: the first robot of `robots` with it.
pub open spec fn named(robots: Seq<RobotConfigModel>, id: Seq<char>) -> RobotConfigModel {
    robots[first_index(robots, has_id(id))->Some_0 as int]
}

/// No two robots of `robots` share an id.
pub open spec fn distinct_ids(robots: Seq<RobotConfigModel>) -> bool {
    forall|i: int, j: int| 0 <= i < j < robots.len() ==> robots[i].id != robots[j].id
}

/// `ids` with back-to-back repeats collapsed.
pub open spec fn dedup_seq(ids: Seq<Seq<char>>) -> Seq<Seq<char>>
    decreases ids.len(),
{
    if ids.len() == 0 {
        ids
    } else if ids.len() >= 2 && ids.last() == ids[ids.len() - 2] {
        dedup_seq(ids.drop_last())
    } else {
        dedup_seq(ids.drop_last()).push(ids.last())
    }
}

/// The ids of `robots`, in order.
pub open spec fn ids_of(robots: Seq<RobotConfigModel>) -> Seq<Seq<char>> {
    robots.map_values(|r: RobotConfigModel| r.id)
}

/// `pick_robots` in closed form.
proof fn lemma_pick(robots: Seq<RobotConfigModel>, ids: Seq<Seq<char>>, known: Seq<Seq<char>>)
    ensures
        match pick_robots(robots, ids, known) {
            Ok(out) => {
                &&& forall|j: int| 0 <= j < ids.len() ==> #[trigger] configured(robots, ids[j])
                &&& out.len() == ids.len()
                &&& forall|j: int|
                    0 <= j < ids.len() ==> #[trigger] out[j] == named(robots, ids[j]) && out[j].id == ids[j]
                        && robots.contains(out[j])
            },
            Err(e) => exists|q: int|
                0 <= q < ids.len() && !configured(robots, #[trigger] ids[q]) && (forall|j: int|
                    0 <= j < q ==> #[trigger] configured(robots, ids[j])) && e == missing_robot_error(
                    ids[q],
                    known,
                ),
        },
    decreases ids.len(),
{
    if ids.len() > 0 {
        let pre = ids.drop_last();
        let last = ids.len() - 1;
        lemma_pick(robots, pre, known);
        let id = ids.last();
        lemma_first_index(robots, has_id(id));
        assert forall|j: int| 0 <= j < pre.len() implies #[trigger] pre[j] == ids[j] by {}
        match pick_robots(robots, pre, known) {
            Err(e) => {
                let q = choose|q: int|
                    0 <= q < pre.len() && !configured(robots, #[trigger] pre[q]) && (forall|j: int|
                        0 <= j < q ==> #[trigger] configured(robots, pre[j])) && e == missing_robot_error(
                        pre[q],
                        known,
                    );
                assert(pre[q] == ids[q]);
                assert forall|j: int| 0 <= j < q implies #[trigger] configured(robots, ids[j]) by {
                    assert(pre[j] == ids[j]);
                }
            },
            Ok(out) => {
                match first_index(robots, has_id(id)) {
                    Some(k) => {
                        let out2 = out.push(robots[k as int]);
                        assert forall|j: int| 0 <= j < ids.len() implies #[trigger] configured(robots, ids[j]) by {
                            if j < last {
                                assert(pre[j] == ids[j]);
                            }
                        }
                        assert forall|j: int| 0 <= j < ids.len() implies #[trigger] out2[j] == named(robots, ids[j])
                            && out2[j].id == ids[j] && robots.contains(out2[j]) by {
                            if j < last {
                                assert(pre[j] == ids[j]);
                                assert(out2[j] == out[j]);
                            } else {
                                assert(robots[k as int] == robots[k as int]);
                            }
                        }
                    },
                    None => {
                        assert(!configured(robots, ids[last]));
                        assert forall|j: int| 0 <= j < last implies #[trigger] configured(robots, ids[j]) by {
                            assert(pre[j] == ids[j]);
                        }
                    },
                }
            },
        }
    }
}

/// `dedup_ids` keeps robots of its input and collapses their ids as
/// `dedup_seq` does.
proof fn lemma_dedup_ids(s: Seq<RobotConfigModel>)
    ensures
        ids_of(dedup_ids(s)) == dedup_seq(ids_of(s)),
        forall|i: int| 0 <= i < dedup_ids(s).len() ==> s.contains(#[trigger] dedup_ids(s)[i]),
    decreases s.len(),
{
    if s.len() > 0 {
        let pre = s.drop_last();
        lemma_dedup_ids(pre);
        assert(ids_of(s).drop_last() =~= ids_of(pre));
        if s.len() >= 2 {
            assert(ids_of(s).last() == s.last().id);
            assert(ids_of(s)[s.len() - 2] == s[s.len() - 2].id);
        }
        assert(ids_of(dedup_ids(pre).push(s.last())) =~= ids_of(dedup_ids(pre)).push(s.last().id));
        assert forall|i: int| 0 <= i < dedup_ids(pre).len() implies s.contains(#[trigger] dedup_ids(pre)[i]) by {
            let x = dedup_ids(pre)[i];
            let k = choose|k: int| 0 <= k < pre.len() && pre[k] == x;
            assert(s[k] == x);
        }
        assert(s[s.len() - 1] == s.last());
    }
}

/// The robots `keep` gives are robots of its input.
proof fn lemma_keep_subset(s: Seq<RobotConfigModel>, p: spec_fn(RobotConfigModel) -> bool)
    ensures
        forall|i: int| 0 <= i < keep(s, p).len() ==> s.contains(#[trigger] keep(s, p)[i]),
    decreases s.len(),
{
    if s.len() > 0 {
        let pre = s.drop_last();
        lemma_keep_subset(pre, p);
        assert forall|i: int| 0 <= i < keep(pre, p).len() implies s.contains(#[trigger] keep(pre, p)[i]) by {
            let x = keep(pre, p)[i];
            let k = choose|k: int| 0 <= k < pre.len() && pre[k] == x;
            assert(s[k] == x);
        }
        assert(s[s.len() - 1] == s.last());
    }
}

/// A selector that lists robot ids succeeds exactly when every id names a
/// configured robot. It then gives, for each id in request order, the
/// robot configured under it, an id repeated right after itself counted
/// once; otherwise it fails on the first id that names none, as adopted
/// but unsaved when the registry knows the id and as unknown else.
pub proof fn law_select_by_ids(m: SwarmConfigModel, ids: Seq<Seq<char>>, known: Seq<Seq<char>>)
    ensures
        selected_robots(m, ApiTargetsModel::Robots(ids), known) is Ok <==> forall|j: int|
            0 <= j < ids.len() ==> #[trigger] configured(m.robots, ids[j]),
        match selected_robots(m, ApiTargetsModel::Robots(ids), known) {
            Ok(s) => {
                &&& ids_of(s) == dedup_seq(ids)
                &&& forall|i: int| 0 <= i < s.len() ==> #[trigger] s[i] == named(m.robots, s[i].id)
            },
            Err(e) => exists|q: int|
                0 <= q < ids.len() && !configured(m.robots, #[trigger] ids[q]) && (forall|j: int|
                    0 <= j < q ==> #[trigger] configured(m.robots, ids[j])) && e == missing_robot_error(
                    ids[q],
                    known,
                ),
        },
{
    lemma_pick(m.robots, ids, known);
    match pick_robots(m.robots, ids, known) {
        Ok(out) => {
            lemma_dedup_ids(out);
            assert(ids_of(out) =~= ids);
            let s = dedup_ids(out);
            assert forall|i: int| 0 <= i < s.len() implies #[trigger] s[i] == named(m.robots, s[i].id) by {
                let k = choose|k: int| 0 <= k < out.len() && out[k] == s[i];
                assert(out[k] == named(m.robots, ids[k]) && out[k].id == ids[k]);
            }
        },
        Err(e) => {
            let q = choose|q: int|
                0 <= q < ids.len() && !configured(m.robots, #[trigger] ids[q]) && (forall|j: int|
                    0 <= j < q ==> #[trigger] configured(m.robots, ids[j])) && e == missing_robot_error(
                    ids[q],
                    known,
                );
            assert(!(forall|j: int| 0 <= j < ids.len() ==> #[trigger] configured(m.robots, ids[j])));
        },
    }
}

/// Every robot a selector resolves to is one of the swarm's configured
/// robots; where no two robots share an id, it is the robot configured
/// under its id.
pub proof fn law_selected_are_configured(m: SwarmConfigModel, t: ApiTargetsModel, known: Seq<Seq<char>>)
    ensures
        selected_robots(m, t, known) is Ok ==> forall|i: int|
            0 <= i < selected_robots(m, t, known)->Ok_0.len() ==> {
                let r = #[trigger] selected_robots(m, t, known)->Ok_0[i];
                &&& m.robots.contains(r)
                &&& distinct_ids(m.robots) ==> r == named(m.robots, r.id)
            },
{
    match chosen_robots(m, t, known) {
        Ok(c) => {
            match t {
                ApiTargetsModel::All => {},
                ApiTargetsModel::Robots(ids) => {
                    lemma_pick(m.robots, ids, known);
                    assert forall|i: int| 0 <= i < c.len() implies m.robots.contains(#[trigger] c[i]) by {}
                },
                ApiTargetsModel::Types(types) => {
                    lemma_keep_subset(m.robots, of_types(types));
                },
                ApiTargetsModel::Name(pat) => {
                    lemma_keep_subset(m.robots, matching_name(pat));
                },
            }
            assert(forall|i: int| 0 <= i < c.len() ==> m.robots.contains(#[trigger] c[i]));
            lemma_dedup_ids(c);
            let s = dedup_ids(c);
            assert forall|i: int| 0 <= i < s.len() implies m.robots.contains(#[trigger] s[i]) && (distinct_ids(
                m.robots,
            ) ==> s[i] == named(m.robots, s[i].id)) by {
                let x = s[i];
                let kc = choose|k: int| 0 <= k < c.len() && c[k] == x;
                assert(m.robots.contains(c[kc]));
                let k = choose|k: int| 0 <= k < m.robots.len() && m.robots[k] == x;
                if distinct_ids(m.robots) {
                    assert forall|j: int| 0 <= j < k implies !(#[trigger] has_id(x.id)(m.robots[j])) by {
                        assert(m.robots[j].id != m.robots[k].id);
                    }
                    lemma_first_index_is(m.robots, has_id(x.id), k);
                }
            }
        },
        Err(_) => {},
    }
}

/// `keep` gives exactly the items of its input that pass, in order: each
/// passing item is kept, and each kept item passes and comes from the
/// input.
proof fn lemma_keep_exact(s: Seq<RobotConfigModel>, p: spec_fn(RobotConfigModel) -> bool)
    ensures
        forall|i: int| 0 <= i < s.len() && p(s[i]) ==> keep(s, p).contains(#[trigger] s[i]),
        forall|j: int| 0 <= j < keep(s, p).len() ==> p(#[trigger] keep(s, p)[j]) && s.contains(keep(s, p)[j]),
    decreases s.len(),
{
    if s.len() > 0 {
        let pre = s.drop_last();
        lemma_keep_exact(pre, p);
        let k = keep(pre, p);
        assert forall|i: int| 0 <= i < s.len() && p(s[i]) implies keep(s, p).contains(#[trigger] s[i]) by {
            if i < s.len() - 1 {
                assert(pre[i] == s[i]);
                let q = choose|q: int| 0 <= q < k.len() && k[q] == s[i];
                if p(s.last()) {
                    assert(k.push(s.last())[q] == s[i]);
                }
            } else {
                assert(k.push(s.last())[k.len() as int] == s.last());
            }
        }
        assert forall|j: int| 0 <= j < keep(s, p).len() implies p(#[trigger] keep(s, p)[j]) && s.contains(keep(s, p)[j]) by {
            if j < k.len() {
                assert(keep(s, p)[j] == k[j]);
                let q = choose|q: int| 0 <= q < pre.len() && pre[q] == k[j];
                assert(s[q] == k[j]);
            } else {
                assert(keep(s, p)[j] == s.last());
                assert(s[s.len() - 1] == s.last());
            }
        }
    }
}

/// Collapsing back-to-back repeats keeps every id: the last one is the
/// input's last, and each id of the input is still there.
proof fn lemma_dedup_keeps_ids(s: Seq<RobotConfigModel>)
    ensures
        s.len() > 0 ==> dedup_ids(s).len() > 0 && dedup_ids(s).last().id == s.last().id,
        forall|k: int| 0 <= k < s.len() ==> ids_of(dedup_ids(s)).contains(#[trigger] s[k].id),
    decreases s.len(),
{
    if s.len() > 0 {
        let pre = s.drop_last();
        lemma_dedup_keeps_ids(pre);
        let d = dedup_ids(pre);
        let last = s.len() - 1;
        if s.len() >= 2 && s.last().id == s[s.len() - 2].id {
            assert(pre.last() == s[s.len() - 2]);
        }
        assert forall|k: int| 0 <= k < s.len() implies ids_of(dedup_ids(s)).contains(#[trigger] s[k].id) by {
            let ds = dedup_ids(s);
            if k < last {
                assert(pre[k] == s[k]);
                assert(ids_of(d).contains(pre[k].id));
                let q = choose|q: int| 0 <= q < ids_of(d).len() && ids_of(d)[q] == s[k].id;
                if ds != d {
                    assert(ds == d.push(s.last()));
                    assert(ids_of(ds)[q] == d[q].id);
                }
            } else {
                assert(ds.len() > 0 && ds.last().id == s.last().id);
                assert(ids_of(ds)[ds.len() - 1] == s[k].id);
            }
        }
    }
}

/// A name-pattern selector always succeeds and picks the configured robots
/// whose id or display name (the robot's name, else its id) contains the
/// pattern: the id of every such robot is selected, and every selected
/// robot is such a configured robot, whatever its type.
pub proof fn law_select_by_name(m: SwarmConfigModel, pat: Seq<char>, known: Seq<Seq<char>>)
    ensures
        selected_robots(m, ApiTargetsModel::Name(pat), known) is Ok,
        forall|i: int|
            0 <= i < m.robots.len() && (contains_seq(m.robots[i].id, pat) || contains_seq(
                match m.robots[i].name {
                    Some(n) => n,
                    None => m.robots[i].id,
                },
                pat,
            )) ==> ids_of(selected_robots(m, ApiTargetsModel::Name(pat), known)->Ok_0).contains(
                #[trigger] m.robots[i].id,
            ),
        forall|j: int|
            0 <= j < selected_robots(m, ApiTargetsModel::Name(pat), known)->Ok_0.len() ==> {
                let r = #[trigger] selected_robots(m, ApiTargetsModel::Name(pat), known)->Ok_0[j];
                &&& m.robots.contains(r)
                &&& contains_seq(r.id, pat) || contains_seq(
                    match r.name {
                        Some(n) => n,
                        None => r.id,
                    },
                    pat,
                )
            },
{
    let p = matching_name(pat);
    let k = keep(m.robots, p);
    lemma_keep_exact(m.robots, p);
    lemma_dedup_keeps_ids(k);
    lemma_dedup_ids(k);
    let sel = dedup_ids(k);
    assert forall|i: int|
        0 <= i < m.robots.len() && (contains_seq(m.robots[i].id, pat) || contains_seq(
            match m.robots[i].name {
                Some(n) => n,
                None => m.robots[i].id,
            },
            pat,
        )) implies ids_of(sel).contains(#[trigger] m.robots[i].id) by {
        assert(p(m.robots[i]));
        assert(k.contains(m.robots[i]));
        let q = choose|q: int| 0 <= q < k.len() && k[q] == m.robots[i];
        assert(ids_of(sel).contains(k[q].id));
    }
    assert forall|j: int| 0 <= j < sel.len() implies m.robots.contains(#[trigger] sel[j]) && (contains_seq(sel[j].id, pat)
        || contains_seq(
        match sel[j].name {
            Some(n) => n,
            None => sel[j].id,
        },
        pat,
    )) by {
        assert(k.contains(sel[j]));
        let q = choose|q: int| 0 <= q < k.len() && k[q] == sel[j];
        assert(p(k[q]));
    }
}

/// A type selector always succeeds and picks the configured robots whose
/// type is one of those listed: the id of every such robot is selected,
/// and every selected robot is a configured robot of a listed type.
pub proof fn law_select_by_types(m: SwarmConfigModel, types: Seq<Seq<char>>, known: Seq<Seq<char>>)
    ensures
        selected_robots(m, ApiTargetsModel::Types(types), known) is Ok,
        forall|i: int|
            0 <= i < m.robots.len() && types.contains(m.robots[i].kind) ==> ids_of(
                selected_robots(m, ApiTargetsModel::Types(types), known)->Ok_0,
            ).contains(#[trigger] m.robots[i].id),
        forall|j: int|
            0 <= j < selected_robots(m, ApiTargetsModel::Types(types), known)->Ok_0.len() ==> {
                let r = #[trigger] selected_robots(m, ApiTargetsModel::Types(types), known)->Ok_0[j];
                m.robots.contains(r) && types.contains(r.kind)
            },
{
    let p = of_types(types);
    let k = keep(m.robots, p);
    lemma_keep_exact(m.robots, p);
    lemma_dedup_keeps_ids(k);
    lemma_dedup_ids(k);
    let sel = dedup_ids(k);
    assert forall|i: int| 0 <= i < m.robots.len() && types.contains(m.robots[i].kind) implies ids_of(sel).contains(
        #[trigger] m.robots[i].id,
    ) by {
        assert(p(m.robots[i]));
        assert(k.contains(m.robots[i]));
        let q = choose|q: int| 0 <= q < k.len() && k[q] == m.robots[i];
        assert(ids_of(sel).contains(k[q].id));
    }
    assert forall|j: int| 0 <= j < sel.len() implies m.robots.contains(#[trigger] sel[j]) && types.contains(sel[j].kind) by {
        assert(k.contains(sel[j]));
        let q = choose|q: int| 0 <= q < k.len() && k[q] == sel[j];
        assert(p(k[q]));
    }
}

/// Selecting all robots always succeeds and gives every configured robot,
/// in order, a robot right after one with the same id left out.
pub proof fn law_select_all(m: SwarmConfigModel, known: Seq<Seq<char>>)
    ensures
        selected_robots(m, ApiTargetsModel::All, known) is Ok,
        forall|i: int| 0 <= i < m.robots.len() ==> ids_of(selected_robots(m, ApiTargetsModel::All, known)->Ok_0).contains(
            #[trigger] m.robots[i].id,
        ),
        forall|j: int|
            0 <= j < selected_robots(m, ApiTargetsModel::All, known)->Ok_0.len() ==> m.robots.contains(
                #[trigger] selected_robots(m, ApiTargetsModel::All, known)->Ok_0[j],
            ),
        distinct_ids(m.robots) ==> selected_robots(m, ApiTargetsModel::All, known)->Ok_0 == m.robots,
{
    lemma_dedup_keeps_ids(m.robots);
    lemma_dedup_ids(m.robots);
    if distinct_ids(m.robots) {
        lemma_dedup_distinct(m.robots);
    }
}

/// With no two robots sharing an id, collapsing repeats changes nothing.
proof fn lemma_dedup_distinct(s: Seq<RobotConfigModel>)
    requires
        distinct_ids(s),
    ensures
        dedup_ids(s) == s,
    decreases s.len(),
{
    if s.len() > 0 {
        let pre = s.drop_last();
        assert(distinct_ids(pre)) by {
            assert forall|i: int, j: int| 0 <= i < j < pre.len() implies pre[i].id != pre[j].id by {
                assert(pre[i] == s[i] && pre[j] == s[j]);
            }
        }
        lemma_dedup_distinct(pre);
        if s.len() >= 2 {
            assert(s[s.len() - 2].id != s[s.len() - 1].id);
        }
        assert(pre.push(s.last()) =~= s);
    }
}

/// How an action reference resolves once the robots are selected: `ty.name`
/// (a type without `.`, an action name) names action `name` of robot type
/// `ty` when the type has it, and a reference without `.` names the swarm
/// action of that name when there is one; the reference is kept as the
/// action's name.
pub proof fn law_resolve_reference(
    m: SwarmConfigModel,
    ty: Seq<char>,
    name: Seq<char>,
    t: ApiTargetsModel,
    known: Seq<Seq<char>>,
)
    requires
        selected_robots(m, t, known) is Ok,
    ensures
        ty.len() > 0 && name.len() > 0 && crate::text::index_of_char(ty, '.') is None && pairs_to_map(m.robot_types).contains_key(ty)
            && pairs_to_map(pairs_to_map(m.robot_types)[ty].actions).contains_key(name) ==> resolve_spec(
            m,
            ty + "."@ + name,
            t,
            known,
        ) == Ok::<(Seq<char>, ActionConfigModel), ConfigErrorModel>(
            (ty + "."@ + name, pairs_to_map(pairs_to_map(m.robot_types)[ty].actions)[name]),
        ),
        crate::text::index_of_char(name, '.') is None && pairs_to_map(m.actions).contains_key(name) ==> resolve_spec(
            m,
            name,
            t,
            known,
        ) == Ok::<(Seq<char>, ActionConfigModel), ConfigErrorModel>((name, pairs_to_map(m.actions)[name])),
{
    reveal_strlit(".");
    let r = ty + "."@ + name;
    if ty.len() > 0 && name.len() > 0 && crate::text::index_of_char(ty, '.') is None {
        crate::text::lemma_index_of_char(ty, '.');
        crate::text::lemma_index_of_char(r, '.');
        assert(r[ty.len() as int] == '.');
        assert forall|j: int| 0 <= j < ty.len() implies r[j] != '.' by {
            assert(r[j] == ty[j]);
        }
        let i = crate::text::index_of_char(r, '.');
        assert(i == Some(ty.len() as nat)) by {
            match i {
                Some(k) => {
                    if (k as int) < ty.len() {
                        assert(r[k as int] != '.');
                    }
                    if (k as int) > ty.len() {
                        assert(r[ty.len() as int] == '.');
                    }
                },
                None => {
                    assert(r[ty.len() as int] == '.');
                },
            }
        }
        assert(r.subrange(0, ty.len() as int) =~= ty);
        assert(r.subrange(ty.len() + 1int, r.len() as int) =~= name);
    }
    crate::text::lemma_index_of_char(name, '.');
}

} // verus!
