//! What the HTTP API lists about the loaded swarm config: the dispatchable
//! actions and a summary of the config.

use vstd::prelude::*;

use crate::api::{ActionsView, ConfigView};
use crate::config::{ActionConfigModel, RobotConfigModel, RobotTypeConfigModel, SwarmConfig};
use crate::text::{lemma_seq_lt_asymmetric, lemma_seq_lt_irreflexive, lemma_seq_lt_total, lemma_seq_lt_transitive, seq_lt, str_eq, str_lt};

verus! {

/// `s` is in text order (each string no greater than the next).
pub open spec fn in_text_order(s: Seq<Seq<char>>) -> bool {
    forall|i: int, j: int| 0 <= i < j < s.len() ==> !seq_lt(#[trigger] s[j], #[trigger] s[i])
}

/// Sort strings into text order (code point order, as `String`'s `Ord`),
/// keeping equal strings in their order.
pub fn sort_strings(v: Vec<String>) -> (r: Vec<String>)
    ensures
        in_text_order(r.deep_view()),
        r.deep_view().to_multiset() == v.deep_view().to_multiset(),
{
    let ghost input = v.deep_view();
    let n = v.len();
    let mut out: Vec<String> = Vec::new();
    let mut i: usize = 0;
    assert(input.take(0) =~= Seq::<Seq<char>>::empty());
    assert(out.deep_view() =~= Seq::<Seq<char>>::empty());
    while i < n
        invariant
            i <= n,
            n == input.len(),
            input == v.deep_view(),
            in_text_order(out.deep_view()),
            out.deep_view().to_multiset() == input.take(i as int).to_multiset(),
        decreases n - i,
    {
        let x = v[i].clone();
        let len = out.len();
        let mut p: usize = 0;
        while p < len && !str_lt(x.as_str(), out[p].as_str())
            invariant
                p <= len,
                len == out@.len(),
                forall|a: int| 0 <= a < p ==> !seq_lt(x@, #[trigger] out.deep_view()[a]),
            decreases len - p,
        {
            assert(out.deep_view()[p as int] == out@[p as int]@);
            p = p + 1;
        }
        let ghost old_out = out.deep_view();
        proof {
            if p < len {
                assert(old_out[p as int] == out@[p as int]@);
            }
        }
        out.insert(p, x);
        proof {
            let s = out.deep_view();
            assert(s =~= old_out.insert(p as int, x@));
            assert forall|a: int, b: int| 0 <= a < b < s.len() implies !seq_lt(#[trigger] s[b], #[trigger] s[a]) by {
                if a < p && b < p {
                    assert(!seq_lt(old_out[b], old_out[a]));
                } else if a < p && b == p {
                    // x is no smaller than what precedes it
                    assert(!seq_lt(x@, old_out[a]));
                } else if a < p && b > p {
                    assert(!seq_lt(old_out[b - 1], old_out[a]));
                } else if a == p {
                    // x is smaller than what follows it
                    assert(seq_lt(x@, old_out[p as int]));
                    if b - 1 > p {
                        assert(!seq_lt(old_out[b - 1], old_out[p as int]));
                        if old_out[b - 1] != old_out[p as int] {
                            lemma_seq_lt_total(old_out[b - 1], old_out[p as int]);
                            lemma_seq_lt_transitive(x@, old_out[p as int], old_out[b - 1]);
                            lemma_seq_lt_asymmetric(x@, old_out[b - 1]);
                        } else {
                            lemma_seq_lt_asymmetric(x@, old_out[p as int]);
                        }
                    } else {
                        lemma_seq_lt_asymmetric(x@, old_out[p as int]);
                    }
                } else {
                    assert(!seq_lt(old_out[b - 1], old_out[a - 1]));
                }
            }
            assert(x@ == input[i as int]);
            assert(input.take(i + 1) =~= input.take(i as int).push(x@));
            vstd::seq_lib::to_multiset_insert(old_out, p as int, x@);
            vstd::seq_lib::to_multiset_build(input.take(i as int), x@);
        }
        i = i + 1;
    }
    assert(input.take(n as int) =~= input);
    out
}

/// Robot type `ty` has a robot in the swarm (robots without a type do not
/// count).
pub open spec fn type_in_use(robots: Seq<RobotConfigModel>, ty: Seq<char>) -> bool {
    ty.len() > 0 && exists|i: int| 0 <= i < robots.len() && (#[trigger] robots[i]).kind == ty
}

/// The `<type>.<action>` references of the robot types in use, type by type.
pub open spec fn action_refs(types: Seq<(Seq<char>, RobotTypeConfigModel)>, robots: Seq<RobotConfigModel>) -> Seq<
    Seq<char>,
>
    decreases types.len(),
{
    if types.len() == 0 {
        Seq::empty()
    } else {
        let (ty, t) = types.last();
        action_refs(types.drop_last(), robots) + if type_in_use(robots, ty) {
            t.actions.map_values(|p: (Seq<char>, ActionConfigModel)| ty + "."@ + p.0)
        } else {
            Seq::empty()
        }
    }
}

fn type_used(cfg: &SwarmConfig, ty: &str) -> (r: bool)
    ensures
        r == type_in_use(cfg.deep_view().robots, ty@),
{
    if ty.unicode_len() == 0 {
        return false;
    }
    let n = cfg.robots.len();
    let mut i: usize = 0;
    while i < n
        invariant
            i <= n,
            n == cfg.robots@.len(),
            ty@.len() > 0,
            forall|j: int| 0 <= j < i ==> (#[trigger] cfg.deep_view().robots[j]).kind != ty@,
        decreases n - i,
    {
        assert(cfg.deep_view().robots[i as int] == cfg.robots@[i as int].deep_view());
        if str_eq(cfg.robots[i].kind.as_str(), ty) {
            return true;
        }
        i = i + 1;
    }
    false
}

/// The dispatchable actions: `<type>.<action>` for the actions of every
/// robot type some robot has, sorted, and the swarm actions by name.
pub fn actions_view(cfg: &SwarmConfig) -> (r: ActionsView)
    ensures
        in_text_order(r.robot_type.deep_view()),
        r.robot_type.deep_view().to_multiset() == action_refs(cfg.deep_view().robot_types, cfg.deep_view().robots).to_multiset(),
        r.swarm.deep_view() == cfg.actions.key_seq(),
{
    let ghost m = cfg.deep_view();
    let nt = cfg.robot_types.len();
    let mut refs: Vec<String> = Vec::new();
    let mut i: usize = 0;
    assert(m.robot_types.take(0) =~= Seq::<(Seq<char>, RobotTypeConfigModel)>::empty());
    assert(refs.deep_view() =~= Seq::<Seq<char>>::empty());
    while i < nt
        invariant
            i <= nt,
            nt == m.robot_types.len(),
            m == cfg.deep_view(),
            refs.deep_view() == action_refs(m.robot_types.take(i as int), m.robots),
        decreases nt - i,
    {
        let ty = cfg.robot_types.key_at(i);
        let t = cfg.robot_types.value_at(i);
        assert(m.robot_types.take(i + 1).drop_last() =~= m.robot_types.take(i as int));
        assert(m.robot_types.take(i + 1).last() == (ty@, t.deep_view()));
        if type_used(cfg, ty.as_str()) {
            let na = t.actions.len();
            let ghost base = refs.deep_view();
            let ghost f = |p: (Seq<char>, ActionConfigModel)| ty@ + "."@ + p.0;
            let mut j: usize = 0;
            assert(t.actions.pairs().take(0).map_values(f) =~= Seq::<Seq<char>>::empty());
            assert(base + t.actions.pairs().take(0).map_values(f) =~= base);
            while j < na
                invariant
                    j <= na,
                    na == t.actions.pairs().len(),
                    f == (|p: (Seq<char>, ActionConfigModel)| ty@ + "."@ + p.0),
                    refs.deep_view() == base + t.actions.pairs().take(j as int).map_values(f),
                decreases na - j,
            {
                let a = t.actions.key_at(j);
                let mut r = ty.clone();
                r.append(".");
                r.append(a.as_str());
                let ghost before = refs.deep_view();
                refs.push(r);
                assert(refs.deep_view() =~= before.push(r@));
                assert(t.actions.pairs().take(j + 1).map_values(f) =~= t.actions.pairs().take(j as int).map_values(f).push(
                    f(t.actions.pairs()[j as int]),
                ));
                assert(base + t.actions.pairs().take(j + 1).map_values(f) =~= (base + t.actions.pairs().take(
                    j as int,
                ).map_values(f)).push(f(t.actions.pairs()[j as int])));
                j = j + 1;
            }
            assert(t.actions.pairs().take(na as int) =~= t.actions.pairs());
        } else {
            assert(refs.deep_view() =~= refs.deep_view() + Seq::<Seq<char>>::empty());
        }
        i = i + 1;
    }
    assert(m.robot_types.take(nt as int) =~= m.robot_types);
    let robot_type = sort_strings(refs);
    let swarm = cfg.actions.keys();
    ActionsView { robot_type, swarm }
}

/// A summary of the swarm config: controller name, robot types (sorted),
/// number of robots and the two listen addresses.
pub fn config_view(cfg: &SwarmConfig) -> (r: ConfigView)
    ensures
        r.controller@ == cfg.controller.name@,
        r.robot_types.deep_view() == cfg.robot_types.key_seq(),
        r.robot_count == cfg.robots@.len(),
        r.grpc_listen@ == cfg.controller.grpc_listen@,
        r.ui_bind@ == cfg.controller.ui_bind@,
{
    ConfigView {
        controller: cfg.controller.name.clone(),
        robot_types: cfg.robot_types.keys(),
        robot_count: cfg.robots.len(),
        grpc_listen: cfg.controller.grpc_listen.clone(),
        ui_bind: cfg.controller.ui_bind.clone(),
    }
}

/// How many log lines a log request returns when it names no number.
pub fn default_tail() -> (r: usize)
    ensures
        r == 200,
{
    200
}

/// The content type a WebUI file is served with, by its extension.
pub fn mime_for(ext: Option<&str>) -> (r: &'static str)
    ensures
        r@ == match ext {
            Some(e) => if e@ == "js"@ {
                "text/javascript"@
            } else if e@ == "css"@ {
                "text/css"@
            } else if e@ == "html"@ {
                "text/html"@
            } else if e@ == "svg"@ {
                "image/svg+xml"@
            } else if e@ == "png"@ {
                "image/png"@
            } else if e@ == "ico"@ {
                "image/x-icon"@
            } else {
                "application/octet-stream"@
            },
            None => "application/octet-stream"@,
        },
{
    match ext {
        Some(e) => if str_eq(e, "js") {
            "text/javascript"
        } else if str_eq(e, "css") {
            "text/css"
        } else if str_eq(e, "html") {
            "text/html"
        } else if str_eq(e, "svg") {
            "image/svg+xml"
        } else if str_eq(e, "png") {
            "image/png"
        } else if str_eq(e, "ico") {
            "image/x-icon"
        } else {
            "application/octet-stream"
        },
        None => "application/octet-stream",
    }
}

/// A `..` path segment starts at position `i` of `p`: segments are
/// separated by `/`.
pub open spec fn parent_segment_at(p: Seq<char>, i: int) -> bool {
    &&& 0 <= i && i + 1 < p.len()
    &&& p[i] == '.' && p[i + 1] == '.'
    &&& (i == 0 || p[i - 1] == '/')
    &&& (i + 2 == p.len() || p[i + 2] == '/')
}

/// A path asked of the static directory stays inside it: it is relative
/// (does not start with `/`) and has no `..` segment.
pub open spec fn stays_inside(p: Seq<char>) -> bool {
    &&& !(p.len() > 0 && p[0] == '/')
    &&& forall|i: int| !#[trigger] parent_segment_at(p, i)
}

/// Whether a requested static file path stays inside the static directory.
pub fn static_path_ok(path: &str) -> (r: bool)
    ensures
        r == stays_inside(path@),
{
    let n = path.unicode_len();
    if n > 0 && path.get_char(0) == '/' {
        return false;
    }
    let mut i: usize = 0;
    while i < n && n - i >= 2
        invariant
            i <= n,
            n == path@.len(),
            forall|j: int| 0 <= j < i ==> !#[trigger] parent_segment_at(path@, j),
        decreases n - i,
    {
        if path.get_char(i) == '.' && path.get_char(i + 1) == '.' && (i == 0 || path.get_char(i - 1) == '/')
            && (i + 2 == n || path.get_char(i + 2) == '/') {
            assert(parent_segment_at(path@, i as int));
            return false;
        }
        assert(!parent_segment_at(path@, i as int));
        i = i + 1;
    }
    assert forall|j: int| !#[trigger] parent_segment_at(path@, j) by {
        if 0 <= j < i {
        }
    }
    true
}

/// Entry `e` is action `j` of robot type `i` of `types`, written
/// `<type>.<action>`, and robot `k` has that type.
pub open spec fn listed_from(
    e: Seq<char>,
    types: Seq<(Seq<char>, RobotTypeConfigModel)>,
    robots: Seq<RobotConfigModel>,
    i: int,
    j: int,
    k: int,
) -> bool {
    &&& 0 <= i < types.len()
    &&& 0 <= j < types[i].1.actions.len()
    &&& 0 <= k < robots.len()
    &&& types[i].0.len() > 0
    &&& robots[k].kind == types[i].0
    &&& e == types[i].0 + "."@ + types[i].1.actions[j].0
}

/// Entry `e` is an action of a robot type that some robot has.
pub open spec fn from_type_in_use(
    e: Seq<char>,
    types: Seq<(Seq<char>, RobotTypeConfigModel)>,
    robots: Seq<RobotConfigModel>,
) -> bool {
    exists|i: int, j: int, k: int| #[trigger] listed_from(e, types, robots, i, j, k)
}

/// Where each reference of `action_refs` comes from.
proof fn lemma_action_refs_from(types: Seq<(Seq<char>, RobotTypeConfigModel)>, robots: Seq<RobotConfigModel>)
    ensures
        forall|q: int|
            #![trigger action_refs(types, robots)[q]]
            0 <= q < action_refs(types, robots).len() ==> from_type_in_use(action_refs(types, robots)[q], types, robots),
    decreases types.len(),
{
    if types.len() > 0 {
        let pre = types.drop_last();
        lemma_action_refs_from(pre, robots);
        let (ty, t) = types.last();
        let a = action_refs(pre, robots);
        let last = types.len() - 1;
        let tail = if type_in_use(robots, ty) {
            t.actions.map_values(|p: (Seq<char>, ActionConfigModel)| ty + "."@ + p.0)
        } else {
            Seq::empty()
        };
        assert(action_refs(types, robots) == a + tail);
        assert forall|q: int| #![trigger action_refs(types, robots)[q]] 0 <= q < action_refs(types, robots).len() implies from_type_in_use(action_refs(types, robots)[q], types, robots) by {
            let e = action_refs(types, robots)[q];
            if q < a.len() {
                assert(e == a[q]);
                assert(from_type_in_use(a[q], pre, robots));
                let (i, j, k) = choose|i: int, j: int, k: int| #[trigger] listed_from(a[q], pre, robots, i, j, k);
                assert(pre[i] == types[i]);
                assert(listed_from(e, types, robots, i, j, k));
            } else {
                let j = q - a.len();
                assert(e == tail[j]);
                let k = choose|k: int| 0 <= k < robots.len() && (#[trigger] robots[k]).kind == ty;
                assert(types[last] == (ty, t));
                assert(listed_from(e, types, robots, last, j, k));
            }
        }
    }
}

/// Every `<type>.<action>` the dispatchable-actions listing gives names an
/// action of a robot type that some robot of the swarm has: a type no robot
/// has contributes no entry.
pub proof fn law_listed_types_in_use(m: crate::config::SwarmConfigModel, listed: Seq<Seq<char>>)
    requires
        listed.to_multiset() == action_refs(m.robot_types, m.robots).to_multiset(),
    ensures
        forall|q: int|
            #![trigger listed[q]]
            0 <= q < listed.len() ==> from_type_in_use(listed[q], m.robot_types, m.robots),
{
    broadcast use vstd::seq_lib::group_to_multiset_ensures;

    lemma_action_refs_from(m.robot_types, m.robots);
    let refs = action_refs(m.robot_types, m.robots);
    assert forall|q: int| #![trigger listed[q]] 0 <= q < listed.len() implies from_type_in_use(listed[q], m.robot_types, m.robots) by {
        let e = listed[q];
        assert(listed.contains(e));
        assert(listed.to_multiset().count(e) > 0);
        assert(refs.contains(e));
        let p = choose|p: int| 0 <= p < refs.len() && refs[p] == e;
        assert(from_type_in_use(refs[p], m.robot_types, m.robots));
        let (i, j, k) = choose|i: int, j: int, k: int| #[trigger] listed_from(refs[p], m.robot_types, m.robots, i, j, k);
        assert(listed_from(e, m.robot_types, m.robots, i, j, k));
    }
}

/// Every action of a robot type in use appears in `action_refs`.
proof fn lemma_action_refs_complete(types: Seq<(Seq<char>, RobotTypeConfigModel)>, robots: Seq<RobotConfigModel>)
    ensures
        forall|i: int, j: int, k: int|
            #![trigger types[i].1.actions[j], robots[k]]
            0 <= i < types.len() && 0 <= j < types[i].1.actions.len() && 0 <= k < robots.len() && types[i].0.len() > 0
                && robots[k].kind == types[i].0 ==> action_refs(types, robots).contains(
                types[i].0 + "."@ + types[i].1.actions[j].0,
            ),
    decreases types.len(),
{
    if types.len() > 0 {
        let pre = types.drop_last();
        lemma_action_refs_complete(pre, robots);
        let (ty, t) = types.last();
        let a = action_refs(pre, robots);
        let last = types.len() - 1;
        let f = |p: (Seq<char>, ActionConfigModel)| ty + "."@ + p.0;
        assert forall|i: int, j: int, k: int|
            #![trigger types[i].1.actions[j], robots[k]]
            0 <= i < types.len() && 0 <= j < types[i].1.actions.len() && 0 <= k < robots.len() && types[i].0.len() > 0
                && robots[k].kind == types[i].0 implies action_refs(types, robots).contains(
            types[i].0 + "."@ + types[i].1.actions[j].0,
        ) by {
            let e = types[i].0 + "."@ + types[i].1.actions[j].0;
            if i < last {
                assert(pre[i] == types[i]);
                assert(a.contains(e));
                let q = choose|q: int| 0 <= q < a.len() && a[q] == e;
                if type_in_use(robots, ty) {
                    assert((a + t.actions.map_values(f))[q] == e);
                } else {
                    assert((a + Seq::<Seq<char>>::empty())[q] == e);
                }
            } else {
                assert(types[i] == (ty, t));
                assert(type_in_use(robots, ty));
                let full = a + t.actions.map_values(f);
                assert(full[a.len() + j] == e);
            }
        }
    }
}

/// Every action of every robot type that some robot of the swarm has is
/// listed, as `<type>.<action>`.
pub proof fn law_used_types_listed(m: crate::config::SwarmConfigModel, listed: Seq<Seq<char>>, i: int, j: int, k: int)
    requires
        listed.to_multiset() == action_refs(m.robot_types, m.robots).to_multiset(),
        0 <= i < m.robot_types.len(),
        0 <= j < m.robot_types[i].1.actions.len(),
        0 <= k < m.robots.len(),
        m.robot_types[i].0.len() > 0,
        m.robots[k].kind == m.robot_types[i].0,
    ensures
        listed.contains(m.robot_types[i].0 + "."@ + m.robot_types[i].1.actions[j].0),
{
    broadcast use vstd::seq_lib::group_to_multiset_ensures;

    lemma_action_refs_complete(m.robot_types, m.robots);
    let e = m.robot_types[i].0 + "."@ + m.robot_types[i].1.actions[j].0;
    let refs = action_refs(m.robot_types, m.robots);
    assert(refs.contains(e));
    assert(refs.to_multiset().count(e) > 0);
    assert(listed.to_multiset().count(e) > 0);
}

} // verus!
