//! Properties of the library that span several functions or every input.

use vstd::prelude::*;

use crate::api::{action_ref_split, RunRobotStatusModel, RunViewModel};
use crate::config::{
    action_exists_in, config_error, endpoint_with_port, lemma_robots_error_stable,
    lemma_workflows_error_stable, robot_error, robots_error, unclaimed_merge, workflow_error,
    workflows_error, RobotConfigModel, SwarmConfigModel,
};
use crate::agent::CommandModel;
use crate::api::{ApiTargetsModel, RunResponseModel};
use crate::dispatch::{dedup_ids, resolve_spec};
use crate::dispatcher::{batch_robots, dispatch_fold, run_outcome, DispatchConsts, DispatchModel};
use crate::error::ConfigErrorModel;
use crate::registry::{adopt_outcome, adopted_robot, release_outcome, robots_map, NoticeModel, RegistryModel, RobotEntryModel};
use crate::registry::{ring_cap, ring_push, ring_tail};
use crate::runs::{group_view, robot_set, run_updated, RunGroupModel};
use crate::strmap::pairs_to_map;
use crate::template::{find_close, render};
use crate::text::{first_index, index_of_char, lemma_first_index, lemma_index_of_char};

verus! {

/// A template without `{{` renders to itself, whatever the robot and
/// whatever characters it holds: shell braces such as `${HOME}` or
/// `{1..3}` are left alone.
pub proof fn law_plain_template_unchanged(t: Seq<char>, robot: RobotConfigModel)
    requires
        !crate::template::has_open(t),
    ensures
        render(t, robot) == Ok::<Seq<char>, crate::error::TemplateErrorModel>(t),
    decreases t.len(),
{
    if t.len() > 0 {
        let rest = t.drop_first();
        assert(!crate::template::has_open(rest)) by {
            if crate::template::has_open(rest) {
                let i = choose|i: int| 0 <= i && i + 1 < rest.len() && #[trigger] rest[i] == '{' && rest[i + 1] == '{';
                assert(t[i + 1] == '{' && t[i + 2] == '{');
            }
        }
        law_plain_template_unchanged(rest, robot);
        if t.len() >= 2 && t[0] == '{' && t[1] == '{' {
            assert(crate::template::has_open(t));
        }
        assert(seq![t[0]] + rest =~= t);
    } else {
        assert(t =~= Seq::<char>::empty());
    }
}

/// The conditions a swarm config is valid under: every robot has a
/// known type, robot ids are distinct, swarm action names are non-empty
/// and hold no `.`, and every workflow step names an existing action.
pub open spec fn config_sound(m: SwarmConfigModel) -> bool {
    &&& forall|i: int| 0 <= i < m.robots.len() ==> pairs_to_map(m.robot_types).contains_key(#[trigger] m.robots[i].kind)
    &&& forall|i: int, j: int| 0 <= i < j < m.robots.len() ==> #[trigger] m.robots[i].id != #[trigger] m.robots[j].id
    &&& forall|i: int|
        0 <= i < m.actions.len() ==> (#[trigger] m.actions[i]).0.len() > 0 && index_of_char(m.actions[i].0, '.') is None
    &&& forall|w: int, s: int|
        0 <= w < m.workflows.len() && 0 <= s < m.workflows[w].1.steps.len() ==> action_exists_in(
            m,
            (#[trigger] m.workflows[w].1.steps[s]).action,
        )
}

/// Sound configs pass validation.
proof fn lemma_sound_passes(m: SwarmConfigModel)
    requires
        config_sound(m),
    ensures
        config_error(m) is None,
{
    assert forall|n: int| 0 <= n <= m.robots.len() implies #[trigger] robots_error(m, n) is None by {
        lemma_sound_robots(m, n);
    }
    let keys = m.actions.map_values(|p: (Seq<char>, crate::config::ActionConfigModel)| p.0);
    lemma_first_index(keys, |k: Seq<char>| crate::config::bad_swarm_action_name(k));
    if first_index(keys, |k: Seq<char>| crate::config::bad_swarm_action_name(k)) is Some {
        let i = first_index(keys, |k: Seq<char>| crate::config::bad_swarm_action_name(k))->Some_0 as int;
        assert(keys[i] == m.actions[i].0);
        assert(m.actions[i].0.len() > 0 && index_of_char(m.actions[i].0, '.') is None);
    }
    lemma_sound_workflows(m, m.workflows.len() as int);
}

proof fn lemma_sound_robots(m: SwarmConfigModel, n: int)
    requires
        config_sound(m),
        0 <= n <= m.robots.len(),
    ensures
        robots_error(m, n) is None,
    decreases n,
{
    if n > 0 {
        lemma_sound_robots(m, n - 1);
        let j = n - 1;
        let p = crate::config::has_id(m.robots[j].id);
        lemma_first_index(m.robots.take(j), p);
        if first_index(m.robots.take(j), p) is Some {
            let k = first_index(m.robots.take(j), p)->Some_0 as int;
            assert(m.robots.take(j)[k] == m.robots[k]);
            assert(m.robots[k].id != m.robots[j].id);
        }
        assert(robot_error(m, j) is None);
    }
}

proof fn lemma_sound_workflows(m: SwarmConfigModel, n: int)
    requires
        config_sound(m),
        0 <= n <= m.workflows.len(),
    ensures
        workflows_error(m, n) is None,
    decreases n,
{
    if n > 0 {
        lemma_sound_workflows(m, n - 1);
        let w = n - 1;
        let p = |st: crate::config::WorkflowStepModel| !action_exists_in(m, st.action);
        lemma_first_index(m.workflows[w].1.steps, p);
        if first_index(m.workflows[w].1.steps, p) is Some {
            let s = first_index(m.workflows[w].1.steps, p)->Some_0 as int;
            assert(action_exists_in(m, m.workflows[w].1.steps[s].action));
        }
        assert(workflow_error(m, m.workflows[w].0, m.workflows[w].1) is None);
    }
}

/// A config passes validation exactly when it is sound: every robot has a
/// known type, robot ids are distinct, swarm action names are non-empty
/// and hold no `.`, and every workflow step names an existing action.
pub proof fn law_valid_config(m: SwarmConfigModel)
    ensures
        config_error(m) is None <==> config_sound(m),
{
    if config_error(m) is None {
        lemma_valid_is_sound(m);
    } else if config_sound(m) {
        lemma_sound_passes(m);
    }
}

/// Configs that pass validation are sound.
proof fn lemma_valid_is_sound(m: SwarmConfigModel)
    requires
        config_error(m) is None,
    ensures
        config_sound(m),
{
    assert(robots_error(m, m.robots.len() as int) is None);
    assert forall|j: int| 0 <= j < m.robots.len() implies #[trigger] robot_error(m, j) is None by {
        if robot_error(m, j) is Some {
            assert(robots_error(m, j + 1) is Some);
            lemma_robots_error_stable(m, j + 1, m.robots.len() as int);
        }
    }
    assert forall|i: int| 0 <= i < m.robots.len() implies pairs_to_map(m.robot_types).contains_key(
        #[trigger] m.robots[i].kind,
    ) by {
        assert(robot_error(m, i) is None);
    }
    assert forall|i: int, j: int| 0 <= i < j < m.robots.len() implies #[trigger] m.robots[i].id
        != #[trigger] m.robots[j].id by {
        assert(robot_error(m, j) is None);
        let p = crate::config::has_id(m.robots[j].id);
        lemma_first_index(m.robots.take(j), p);
        assert(m.robots.take(j)[i] == m.robots[i]);
    }
    let keys = m.actions.map_values(|p: (Seq<char>, crate::config::ActionConfigModel)| p.0);
    assert(crate::config::actions_error(m) is None);
    lemma_first_index(keys, |k: Seq<char>| crate::config::bad_swarm_action_name(k));
    assert forall|i: int| 0 <= i < m.actions.len() implies (#[trigger] m.actions[i]).0.len() > 0 && index_of_char(
        m.actions[i].0,
        '.',
    ) is None by {
        assert(keys[i] == m.actions[i].0);
        assert(!crate::config::bad_swarm_action_name(keys[i]));
    }
    assert(workflows_error(m, m.workflows.len() as int) is None);
    assert forall|w: int, s: int|
        0 <= w < m.workflows.len() && 0 <= s < m.workflows[w].1.steps.len() implies action_exists_in(
        m,
        (#[trigger] m.workflows[w].1.steps[s]).action,
    ) by {
        if workflow_error(m, m.workflows[w].0, m.workflows[w].1) is Some {
            assert(workflows_error(m, w + 1) is Some);
            lemma_workflows_error_stable(m, w + 1, m.workflows.len() as int);
        }
        let p = |st: crate::config::WorkflowStepModel| !action_exists_in(m, st.action);
        lemma_first_index(m.workflows[w].1.steps, p);
        assert(!p(m.workflows[w].1.steps[s]));
    }
}

/// Every log ring holds at most its cap of lines (`push`, `new` and `tail`
/// state that). Pushing onto such a ring keeps the last lines of the old
/// ones followed by the new line, as many as the cap allows: the oldest
/// line goes only when the ring is full. The newest line is always the
/// last.
pub proof fn law_ring_bounded(lines: Seq<crate::api::LogLineModel>, max: usize, line: crate::api::LogLineModel)
    requires
        lines.len() <= ring_cap(max),
    ensures
        ring_push(lines, max, line).len() <= ring_cap(max),
        ring_push(lines, max, line) == ring_tail(lines.push(line), ring_cap(max) as nat),
        ring_push(lines, max, line).last() == line,
        ring_tail(ring_push(lines, max, line), 1) == seq![line],
{
    let r = ring_push(lines, max, line);
    assert(r.len() >= 1);
    assert(r.skip(r.len() - 1) =~= seq![line]);
    let p = lines.push(line);
    if lines.len() >= max && lines.len() > 0 {
        assert(p.skip(p.len() - ring_cap(max)) =~= lines.drop_first().push(line));
    }
}

/// Reading a run after one robot's status was set shows that status, and
/// the view returned is the run as stored.
pub proof fn law_run_update_read_back(
    before: Map<Seq<char>, RunGroupModel>,
    after: Map<Seq<char>, RunGroupModel>,
    run_id: Seq<char>,
    robot: Seq<char>,
    status: RunRobotStatusModel,
    v: RunViewModel,
)
    requires
        run_updated(before, after, run_id, robot, status, Some(v)),
    ensures
        after.contains_key(run_id),
        pairs_to_map(after[run_id].robots).contains_key(robot),
        pairs_to_map(after[run_id].robots)[robot] == status,
        group_view(after[run_id]) == v,
        forall|k: Seq<char>| k != run_id ==> after.contains_key(k) == before.contains_key(k),
{
    let g = choose|g: RunGroupModel|
        {
            &&& #[trigger] robot_set(before[run_id], g, robot, status)
            &&& after == before.insert(run_id, g)
            &&& v == group_view(g)
        };
    assert(after[run_id] == g);
}

/// A `<type>.<action>` reference splits back into the text it came from:
/// a type without `.`, the `.`, and the action.
pub proof fn law_action_ref_round_trip(s: Seq<char>)
    requires
        action_ref_split(s) is Some,
    ensures
        ({
            let (t, a) = action_ref_split(s)->0;
            &&& t + seq!['.'] + a == s
            &&& t.len() > 0 && a.len() > 0
            &&& index_of_char(t, '.') is None
        }),
{
    lemma_index_of_char(s, '.');
    let i = index_of_char(s, '.')->0;
    let (t, a) = action_ref_split(s)->0;
    assert(t + seq!['.'] + a =~= s);
    lemma_index_of_char(t, '.');
    match index_of_char(t, '.') {
        Some(k) => {
            assert(t[k as int] == s[k as int]);
        },
        None => {},
    }
}

/// Merging an unclaimed robot twice is the same as merging it once.
pub proof fn law_unclaimed_idempotent(m: SwarmConfigModel, id: Seq<char>, hostname: Option<Seq<char>>)
    ensures
        unclaimed_merge(unclaimed_merge(m, id, hostname), id, hostname) == unclaimed_merge(m, id, hostname),
{
    let m1 = unclaimed_merge(m, id, hostname);
    if !(exists|i: int| 0 <= i < m.robots.len() && (#[trigger] m.robots[i]).id == id) {
        assert(m1.robots[m.robots.len() as int].id == id);
    }
}

/// Adding the default port is done once: an endpoint that got it is left
/// alone.
pub proof fn law_default_port_once(e: Seq<char>)
    ensures
        endpoint_with_port(endpoint_with_port(e)) == endpoint_with_port(e),
{
    lemma_index_of_char(e, ':');
    if index_of_char(e, ':') is None {
        let f = e + ":50051"@;
        reveal_strlit(":50051");
        assert(f[e.len() as int] == ':');
        lemma_index_of_char(f, ':');
    }
}

/// After duplicates are collapsed no two neighbouring robots share an id.
pub proof fn law_no_adjacent_repeats(s: Seq<RobotConfigModel>)
    ensures
        forall|i: int| 0 <= i < dedup_ids(s).len() - 1 ==> #[trigger] dedup_ids(s)[i].id != dedup_ids(s)[i + 1].id,
        dedup_ids(s).len() > 0 ==> s.len() > 0 && dedup_ids(s).last().id == s.last().id,
    decreases s.len(),
{
    if s.len() > 0 {
        law_no_adjacent_repeats(s.drop_last());
        let d = dedup_ids(s.drop_last());
        if s.len() >= 2 && s.last().id == s[s.len() - 2].id {
        } else {
            assert forall|i: int| 0 <= i < dedup_ids(s).len() - 1 implies #[trigger] dedup_ids(s)[i].id
                != dedup_ids(s)[i + 1].id by {
                if i + 1 == d.len() {
                    if d.len() > 0 {
                        assert(d.last().id == s.drop_last().last().id);
                        assert(s.drop_last().last() == s[s.len() - 2]);
                    }
                } else {
                    assert(dedup_ids(s)[i] == d[i]);
                    assert(dedup_ids(s)[i + 1] == d[i + 1]);
                }
            }
        }
    }
}

/// Dispatching robots one by one only ever fails on a command template.
proof fn lemma_fold_fails_on_templates(c: DispatchConsts, robots: Seq<RobotConfigModel>, sent: Seq<bool>, s0: DispatchModel)
    ensures
        dispatch_fold(c, robots, sent, s0).1 matches Some(e) ==> e is UnknownAction,
    decreases robots.len(),
{
    if robots.len() > 0 {
        lemma_fold_fails_on_templates(c, robots.drop_last(), sent.drop_last(), s0);
    }
}

/// A dispatch whose action resolves is refused for want of confirmation
/// exactly when the action is dangerous, reaches more than one robot and
/// was not confirmed; non-dangerous or single-robot dispatches never need
/// it. A refused dispatch changes nothing and hands out no command.
pub proof fn law_confirmation_policy(
    m: RegistryModel,
    m2: RegistryModel,
    action: Seq<char>,
    targets: ApiTargetsModel,
    confirm: bool,
    background: bool,
    timeout: Option<u64>,
    run_id: Seq<char>,
    now: u64,
    sent: Seq<bool>,
    h: Seq<(Seq<char>, CommandModel)>,
    h2: Seq<(Seq<char>, CommandModel)>,
    t: Seq<bool>,
    t2: Seq<bool>,
    result: Result<RunResponseModel, ConfigErrorModel>,
    notices: Seq<NoticeModel>,
)
    requires
        run_outcome(m, m2, action, targets, confirm, background, timeout, run_id, now, sent, h, h2, t, t2, result, notices),
        resolve_spec(m.config, action, targets, m.robots.map_values(|p: (Seq<char>, RobotEntryModel)| p.0)) is Ok,
    ensures
        ({
            let act = resolve_spec(m.config, action, targets, m.robots.map_values(|p: (Seq<char>, RobotEntryModel)| p.0))->Ok_0.1;
            (result matches Err(ConfigErrorModel::ConfirmRequired { .. })) <==> (act.dangerous && batch_robots(m, targets).len()
                > 1 && !confirm)
        }),
        (result matches Err(ConfigErrorModel::ConfirmRequired { .. })) ==> m2 == m && h2 == h && t2 == t && notices.len() == 0,
{
    let known = m.robots.map_values(|p: (Seq<char>, RobotEntryModel)| p.0);
    let (name, act) = resolve_spec(m.config, action, targets, known)->Ok_0;
    let robots = batch_robots(m, targets);
    if !(act.dangerous && robots.len() > 1 && !confirm) {
        let c = DispatchConsts {
            cfg: m.config,
            now,
            background: background || act.background,
            run_id,
            action_name: name,
            action: act,
            timeout: crate::dispatcher::effective_timeout(timeout, act.timeout_sec),
        };
        let s0 = DispatchModel {
            robots: crate::registry::robots_map(m),
            meta: crate::registry::meta_map(m),
            group: Seq::empty(),
            targeted: Seq::empty(),
            busy: Seq::empty(),
            offline: Seq::empty(),
            notices: Seq::empty(),
            handed: Seq::empty(),
            taken: Seq::empty(),
        };
        lemma_fold_fails_on_templates(c, robots, sent, s0);
    }
}

/// The reconnection back-off after `n` failed attempts, starting from one
/// second: each step as `next_backoff_secs` takes it.
pub open spec fn backoff_after(n: nat) -> int
    decreases n,
{
    if n == 0 {
        1
    } else {
        crate::metrics::backoff_step(backoff_after((n - 1) as nat))
    }
}

/// Starting from one second, the reconnection back-off doubles until it
/// reaches 30 seconds and then stays there: it is never below one second
/// nor above 30, and it is 30 from the fifth retry on.
pub proof fn law_backoff_capped(n: nat)
    ensures
        1 <= backoff_after(n) <= 30,
        n >= 5 ==> backoff_after(n) == 30,
        n < 5 ==> backoff_after(n) == vstd::arithmetic::power2::pow2(n),
    decreases n,
{
    vstd::arithmetic::power2::lemma2_to64();
    if n > 0 {
        law_backoff_capped((n - 1) as nat);
    }
}

/// Adopting a robot keeps a valid config valid: the robot joins under a
/// known type and an id no configured robot has, and nothing else of the
/// config changes.
pub proof fn law_adopt_keeps_valid(
    m: RegistryModel,
    m2: RegistryModel,
    id: Seq<char>,
    kind: Seq<char>,
    name: Option<Seq<char>>,
    r: Result<Seq<NoticeModel>, ConfigErrorModel>,
)
    requires
        adopt_outcome(m, m2, id, kind, name, r),
        config_error(m.config) is None,
    ensures
        config_error(m2.config) is None,
{
    law_valid_config(m.config);
    if r is Ok {
        let c = m.config;
        let c2 = m2.config;
        let n = c.robots.len();
        assert(c2.robots == c.robots.push(adopted_robot(id, kind, name)));
        lemma_first_index(c.robots, crate::config::has_id(id));
        assert forall|i: int| 0 <= i < c2.robots.len() implies pairs_to_map(c2.robot_types).contains_key(
            #[trigger] c2.robots[i].kind,
        ) by {
            if i < n {
                assert(c2.robots[i] == c.robots[i]);
            }
        }
        assert forall|i: int, j: int| 0 <= i < j < c2.robots.len() implies #[trigger] c2.robots[i].id
            != #[trigger] c2.robots[j].id by {
            assert(c2.robots[i] == c.robots[i]);
            if j < n {
                assert(c2.robots[j] == c.robots[j]);
            } else {
                assert(c.robots[i].id != id);
            }
        }
        assert forall|w: int, s: int|
            0 <= w < c2.workflows.len() && 0 <= s < c2.workflows[w].1.steps.len() implies action_exists_in(
            c2,
            (#[trigger] c2.workflows[w].1.steps[s]).action,
        ) by {
            assert(action_exists_in(c, c.workflows[w].1.steps[s].action));
        }
        assert(config_sound(c2));
        law_valid_config(c2);
    }
}

/// `keep` of a sequence all of whose items pass is the sequence itself.
proof fn lemma_keep_all(s: Seq<RobotConfigModel>, p: spec_fn(RobotConfigModel) -> bool)
    requires
        forall|i: int| 0 <= i < s.len() ==> p(#[trigger] s[i]),
    ensures
        crate::dispatch::keep(s, p) == s,
    decreases s.len(),
{
    if s.len() > 0 {
        lemma_keep_all(s.drop_last(), p);
        assert(s.drop_last().push(s.last()) =~= s);
    }
}

/// Releasing a robot that was just adopted undoes the adoption: the
/// config's robots are as before, and the robot's entry is no longer
/// adopted, has no type and is named by its id.
pub proof fn law_adopt_then_release(
    m: RegistryModel,
    m1: RegistryModel,
    m2: RegistryModel,
    id: Seq<char>,
    kind: Seq<char>,
    name: Option<Seq<char>>,
    r1: Result<Seq<NoticeModel>, ConfigErrorModel>,
    r2: Result<Seq<NoticeModel>, ConfigErrorModel>,
)
    requires
        robots_map(m).contains_key(id),
        adopt_outcome(m, m1, id, kind, name, r1),
        r1 is Ok,
        release_outcome(m1, m2, id, r2),
    ensures
        r2 is Ok,
        m2.config == m.config,
        robots_map(m2).contains_key(id),
        !robots_map(m2)[id].adopted,
        robots_map(m2)[id].kind == Seq::<char>::empty(),
        robots_map(m2)[id].name == id,
{
    let c = m.config;
    let p = |x: RobotConfigModel| !(x.adopted && x.id == id);
    lemma_first_index(c.robots, crate::config::has_id(id));
    assert forall|i: int| 0 <= i < c.robots.len() implies p(#[trigger] c.robots[i]) by {
        assert(!crate::config::has_id(id)(c.robots[i]));
    }
    lemma_keep_all(c.robots, p);
    let s1 = c.robots.push(adopted_robot(id, kind, name));
    assert(s1.drop_last() =~= c.robots);
    assert(crate::dispatch::keep(s1, p) == crate::dispatch::keep(c.robots, p));
    assert(m2.config =~= c);
}

/// Robots defined in the config file survive a release: only an adopted
/// robot with the released id leaves the config.
pub proof fn law_release_keeps_file_robots(
    m: RegistryModel,
    m2: RegistryModel,
    id: Seq<char>,
    r: Result<Seq<NoticeModel>, ConfigErrorModel>,
    c: RobotConfigModel,
)
    requires
        release_outcome(m, m2, id, r),
        m.config.robots.contains(c),
        !(c.adopted && c.id == id),
    ensures
        m2.config.robots.contains(c),
        r is Err <==> !robots_map(m).contains_key(id),
{
    if robots_map(m).contains_key(id) {
        lemma_keep_keeps(m.config.robots, |x: RobotConfigModel| !(x.adopted && x.id == id), c);
    }
}

/// `keep` keeps every item that passes.
proof fn lemma_keep_keeps(s: Seq<RobotConfigModel>, p: spec_fn(RobotConfigModel) -> bool, c: RobotConfigModel)
    requires
        s.contains(c),
        p(c),
    ensures
        crate::dispatch::keep(s, p).contains(c),
    decreases s.len(),
{
    let pre = s.drop_last();
    if s.last() == c {
        let k = crate::dispatch::keep(pre, p);
        assert(k.push(c)[k.len() as int] == c);
    } else {
        let q = choose|q: int| 0 <= q < s.len() && s[q] == c;
        assert(q < s.len() - 1);
        assert(pre[q] == c);
        lemma_keep_keeps(pre, p, c);
        let k = crate::dispatch::keep(pre, p);
        if p(s.last()) {
            let j = choose|j: int| 0 <= j < k.len() && k[j] == c;
            assert(k.push(s.last())[j] == c);
        }
    }
}

} // verus!
