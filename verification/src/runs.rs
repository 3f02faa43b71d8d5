//! Batch runs: one action fanned out to a set of robots, and the store
//! that keeps them by run id.

use vstd::prelude::*;

use crate::api::{
    RunRobotStatus, RunRobotStatusModel, RunView, RunViewModel, WorkflowRunInfo,
    WorkflowRunInfoModel,
};
use crate::strmap::{keys_sorted, lemma_sorted_distinct, lemma_sorted_lookup, pairs_to_map, Duplicate, StrMap};
use crate::text::{lemma_seq_lt_total, lemma_seq_lt_transitive, seq_lt, str_lt, to_owned_string};

verus! {

/// One batch run and, when it drives a workflow, that workflow's progress.
#[derive(Debug)]
pub struct RunGroup {
    pub run_id: String,
    pub action: String,
    pub created_ms: u64,
    pub robots: StrMap<RunRobotStatus>,
    /// Present when this run tracks a workflow.
    pub workflow_name: Option<String>,
    pub current_step: usize,
    pub total_steps: usize,
    pub step_run_ids: Vec<String>,
    pub current_step_action: String,
}

pub struct RunGroupModel {
    pub run_id: Seq<char>,
    pub action: Seq<char>,
    pub created_ms: u64,
    pub robots: Seq<(Seq<char>, RunRobotStatusModel)>,
    pub workflow_name: Option<Seq<char>>,
    pub current_step: usize,
    pub total_steps: usize,
    pub step_run_ids: Seq<Seq<char>>,
    pub current_step_action: Seq<char>,
}

impl DeepView for RunGroup {
    type V = RunGroupModel;

    open spec fn deep_view(&self) -> RunGroupModel {
        RunGroupModel {
            run_id: self.run_id@,
            action: self.action@,
            created_ms: self.created_ms,
            robots: self.robots.deep_view(),
            workflow_name: self.workflow_name.deep_view(),
            current_step: self.current_step,
            total_steps: self.total_steps,
            step_run_ids: self.step_run_ids.deep_view(),
            current_step_action: self.current_step_action@,
        }
    }
}

/// How a run is shown to clients: its robots in id order and, for a
/// workflow, the current step with the run id of the latest step.
pub open spec fn group_view(g: RunGroupModel) -> RunViewModel {
    RunViewModel {
        run_id: g.run_id,
        action: g.action,
        created_ms: g.created_ms,
        robots: g.robots,
        workflow: match g.workflow_name {
            Some(name) => Some(
                WorkflowRunInfoModel {
                    workflow_name: name,
                    current_step: g.current_step,
                    total_steps: g.total_steps,
                    step_action: g.current_step_action,
                    step_run_id: if g.step_run_ids.len() > 0 {
                        g.step_run_ids.last()
                    } else {
                        Seq::empty()
                    },
                },
            ),
            None => None,
        },
    }
}

impl RunGroup {
    /// A new run with no robots yet.
    pub fn new(run_id: String, action: String, created_ms: u64, workflow_name: Option<String>, total_steps: usize) -> (r: Self)
        ensures
            r.deep_view() == (RunGroupModel {
                run_id: run_id@,
                action: action@,
                created_ms,
                robots: Seq::empty(),
                workflow_name: workflow_name.deep_view(),
                current_step: 0,
                total_steps,
                step_run_ids: Seq::empty(),
                current_step_action: Seq::empty(),
            }),
    {
        let r = RunGroup {
            run_id,
            action,
            created_ms,
            robots: StrMap::new(),
            workflow_name,
            current_step: 0,
            total_steps,
            step_run_ids: Vec::new(),
            current_step_action: String::new(),
        };
        assert(r.step_run_ids.deep_view() =~= Seq::<Seq<char>>::empty());
        r
    }

    /// The run as shown to clients.
    pub fn view(&self) -> (r: RunView)
        ensures
            r.deep_view() == group_view(self.deep_view()),
    {
        let workflow = match &self.workflow_name {
            Some(name) => {
                let n = self.step_run_ids.len();
                let step_run_id = if n > 0 {
                    self.step_run_ids[n - 1].clone()
                } else {
                    String::new()
                };
                Some(
                    WorkflowRunInfo {
                        workflow_name: name.clone(),
                        current_step: self.current_step,
                        total_steps: self.total_steps,
                        step_action: self.current_step_action.clone(),
                        step_run_id,
                    },
                )
            },
            None => None,
        };
        let m = self.robots.len();
        let mut robots: Vec<(String, RunRobotStatus)> = Vec::new();
        let mut i: usize = 0;
        while i < m
            invariant
                i <= m,
                m == self.robots.pairs().len(),
                robots.deep_view() == self.robots.pairs().take(i as int),
            decreases m - i,
        {
            let k = self.robots.key_at(i).clone();
            let v = self.robots.value_at(i).duplicate();
            let ghost before = robots.deep_view();
            robots.push((k, v));
            assert(robots.deep_view() =~= before.push((k@, v.deep_view())));
            assert(self.robots.pairs().take(i + 1) =~= self.robots.pairs().take(i as int).push(
                self.robots.pairs()[i as int],
            ));
            i = i + 1;
        }
        assert(self.robots.pairs().take(m as int) =~= self.robots.pairs());
        RunView {
            run_id: self.run_id.clone(),
            action: self.action.clone(),
            created_ms: self.created_ms,
            robots,
            workflow,
        }
    }
}

/// `a` is listed before `b` among recent runs: newer first, and among runs
/// created in the same millisecond, by run id.
pub open spec fn listed_before(a: RunViewModel, b: RunViewModel) -> bool {
    a.created_ms > b.created_ms || (a.created_ms == b.created_ms && seq_lt(a.run_id, b.run_id))
}

proof fn lemma_listed_before_total(a: RunViewModel, b: RunViewModel)
    requires
        a.run_id != b.run_id,
    ensures
        listed_before(a, b) || listed_before(b, a),
{
    if a.created_ms == b.created_ms {
        lemma_seq_lt_total(a.run_id, b.run_id);
    }
}

proof fn lemma_listed_before_transitive(a: RunViewModel, b: RunViewModel, c: RunViewModel)
    requires
        listed_before(a, b),
        listed_before(b, c),
    ensures
        listed_before(a, c),
{
    if a.created_ms == b.created_ms && b.created_ms == c.created_ms {
        lemma_seq_lt_transitive(a.run_id, b.run_id, c.run_id);
    }
}

/// `s` is in listing order.
pub open spec fn in_listing_order(s: Seq<RunViewModel>) -> bool {
    forall|a: int, b: int| 0 <= a < b < s.len() ==> listed_before(#[trigger] s[a], #[trigger] s[b])
}

fn is_listed_before(a: &RunView, b: &RunView) -> (r: bool)
    ensures
        r == listed_before(a.deep_view(), b.deep_view()),
{
    a.created_ms > b.created_ms || (a.created_ms == b.created_ms && str_lt(a.run_id.as_str(), b.run_id.as_str()))
}

/// `r` lists the `n` most recent runs of `es` (all of them when there are
/// fewer), newest first: every listed run is one of `es`, and a run of `es`
/// left out comes after every listed one.
pub open spec fn lists_recent(r: Seq<RunViewModel>, es: Seq<(Seq<char>, RunGroupModel)>, n: usize) -> bool {
    &&& r.len() == if n < es.len() { n as int } else { es.len() as int }
    &&& in_listing_order(r)
    &&& forall|i: int| 0 <= i < r.len() ==> exists|j: int| 0 <= j < es.len() && #[trigger] r[i] == group_view(#[trigger] es[j].1)
    &&& forall|j: int|
        0 <= j < es.len() ==> r.contains(group_view(#[trigger] es[j].1)) || forall|i: int|
            0 <= i < r.len() ==> listed_before(#[trigger] r[i], group_view(es[j].1))
}

/// The runs of the store, by run id.
#[derive(Debug)]
pub struct RunStore {
    runs: StrMap<RunGroup>,
}

impl DeepView for RunStore {
    type V = Seq<(Seq<char>, RunGroupModel)>;

    /// The runs, in run id order, each with its run id.
    open spec fn deep_view(&self) -> Seq<(Seq<char>, RunGroupModel)> {
        self.entries()
    }
}

/// How a run store changes when one robot's status is set in run
/// `run_id`: `view` is the refreshed run, or `None` when there is no such
/// run (and nothing changes).
pub open spec fn run_updated(
    before: Map<Seq<char>, RunGroupModel>,
    after: Map<Seq<char>, RunGroupModel>,
    run_id: Seq<char>,
    robot: Seq<char>,
    status: RunRobotStatusModel,
    view: Option<RunViewModel>,
) -> bool {
    match view {
        Some(v) => {
            &&& before.contains_key(run_id)
            &&& exists|g: RunGroupModel|
                {
                    &&& #[trigger] robot_set(before[run_id], g, robot, status)
                    &&& after == before.insert(run_id, g)
                    &&& v == group_view(g)
                }
        },
        None => !before.contains_key(run_id) && after == before,
    }
}

impl RunStore {
    /// Each run is filed under its own run id.
    #[verifier::type_invariant]
    spec fn filed_by_run_id(self) -> bool {
        forall|i: int|
            0 <= i < self.runs.pairs().len() ==> (#[trigger] self.runs.pairs()[i]).1.run_id
                == self.runs.pairs()[i].0
    }

    /// The runs, in run id order, each with its run id.
    pub closed spec fn entries(&self) -> Seq<(Seq<char>, RunGroupModel)> {
        self.runs.pairs()
    }

    /// The runs by run id.
    pub open spec fn runs(&self) -> Map<Seq<char>, RunGroupModel> {
        pairs_to_map(self.entries())
    }

    pub fn new() -> (r: Self)
        ensures
            r.entries() == Seq::<(Seq<char>, RunGroupModel)>::empty(),
    {
        RunStore { runs: StrMap::new() }
    }

    /// File a run under its run id, replacing any run with the same id.
    pub fn insert(&mut self, group: RunGroup)
        ensures
            final(self).runs() == old(self).runs().insert(group.run_id@, group.deep_view()),
    {
        proof {
            use_type_invariant(&*self);
            use_type_invariant(&self.runs);
        }
        let mut runs: StrMap<RunGroup> = StrMap::new();
        std::mem::swap(&mut runs, &mut self.runs);
        let ghost before = runs.pairs();
        let key = group.run_id.clone();
        runs.insert(key, group);
        proof {
            use_type_invariant(&runs);
            assert forall|i: int| 0 <= i < runs.pairs().len() implies (#[trigger] runs.pairs()[i]).1.run_id
                == runs.pairs()[i].0 by {
                lemma_sorted_lookup(runs.pairs(), i);
                let k = runs.pairs()[i].0;
                if k != group.run_id@ {
                    let j = choose|j: int| 0 <= j < before.len() && (#[trigger] before[j]).0 == k;
                    lemma_sorted_lookup(before, j);
                }
            }
        }
        self.runs = runs;
    }

    /// A run by id, as shown to clients.
    pub fn get(&self, run_id: &str) -> (r: Option<RunView>)
        ensures
            match r {
                Some(v) => self.runs().contains_key(run_id@) && v.deep_view() == group_view(
                    self.runs()[run_id@],
                ),
                None => !self.runs().contains_key(run_id@),
            },
    {
        match self.runs.get(run_id) {
            Some(g) => Some(g.view()),
            None => None,
        }
    }

    /// Forget every run.
    pub fn clear(&mut self)
        ensures
            final(self).entries() == Seq::<(Seq<char>, RunGroupModel)>::empty(),
    {
        self.runs = StrMap::new();
    }

    /// Set one robot's status within a run; the refreshed run view, or
    /// `None` (and no change) when there is no such run.
    pub fn update_robot(&mut self, run_id: &str, robot: &str, status: RunRobotStatus) -> (r: Option<RunView>)
        ensures
            run_updated(
                old(self).runs(),
                final(self).runs(),
                run_id@,
                robot@,
                status.deep_view(),
                match r {
                    Some(v) => Some(v.deep_view()),
                    None => None,
                },
            ),
    {
        proof {
            use_type_invariant(&*self);
        }
        let i = match self.runs.find(run_id) {
            Some(i) => i,
            None => {
                return None;
            },
        };
        let mut runs: StrMap<RunGroup> = StrMap::new();
        std::mem::swap(&mut runs, &mut self.runs);
        let ghost before = runs.pairs();
        proof {
            use_type_invariant(&runs);
        }
        let placeholder = RunGroup::new(String::new(), String::new(), 0, None, 0);
        let mut g = runs.replace_at(i, placeholder);
        let ghost mid = runs.pairs();
        let ghost g0 = g.deep_view();
        g.robots.insert(to_owned_string(robot), status);
        proof {
            use_type_invariant(&g.robots);
        }
        let view = g.view();
        let ghost g1 = g.deep_view();
        runs.replace_at(i, g);
        proof {
            use_type_invariant(&runs);
            assert(runs.pairs() =~= before.update(i as int, (before[i as int].0, g1)));
            lemma_replace_keeps_filing(before, runs.pairs(), i as int, g1);
            lemma_replace_map(before, runs.pairs(), i as int, g1);
            assert(robot_set(g0, g1, robot@, status.deep_view()));
        }
        self.runs = runs;
        assert(self.runs() == old(self).runs().insert(run_id@, g1));
        assert(g0 == old(self).runs()[run_id@]);
        assert(view.deep_view() == group_view(g1));
        Some(view)
    }

    /// Record that a workflow moved to step `current_step`; the refreshed
    /// run view, or `None` (and no change) when there is no such run.
    pub fn update_workflow_step(
        &mut self,
        run_id: &str,
        current_step: usize,
        step_action: &str,
        step_run_id: &str,
    ) -> (r: Option<RunView>)
        ensures
            match r {
                Some(v) => {
                    let g0 = old(self).runs()[run_id@];
                    let g = RunGroupModel {
                        current_step,
                        current_step_action: step_action@,
                        step_run_ids: g0.step_run_ids.push(step_run_id@),
                        ..g0
                    };
                    &&& old(self).runs().contains_key(run_id@)
                    &&& final(self).runs() == old(self).runs().insert(run_id@, g)
                    &&& v.deep_view() == group_view(g)
                },
                None => !old(self).runs().contains_key(run_id@) && final(self).runs() == old(self).runs(),
            },
    {
        proof {
            use_type_invariant(&*self);
        }
        let i = match self.runs.find(run_id) {
            Some(i) => i,
            None => {
                return None;
            },
        };
        let mut runs: StrMap<RunGroup> = StrMap::new();
        std::mem::swap(&mut runs, &mut self.runs);
        let ghost before = runs.pairs();
        proof {
            use_type_invariant(&runs);
        }
        let placeholder = RunGroup::new(String::new(), String::new(), 0, None, 0);
        let mut g = runs.replace_at(i, placeholder);
        let ghost mid = runs.pairs();
        let ghost g0 = g.deep_view();
        g.current_step = current_step;
        g.current_step_action = to_owned_string(step_action);
        let ghost ids0 = g.step_run_ids.deep_view();
        g.step_run_ids.push(to_owned_string(step_run_id));
        assert(g.step_run_ids.deep_view() =~= ids0.push(step_run_id@));
        let view = g.view();
        let ghost g1 = g.deep_view();
        runs.replace_at(i, g);
        proof {
            use_type_invariant(&runs);
            assert(runs.pairs() =~= before.update(i as int, (before[i as int].0, g1)));
            lemma_replace_keeps_filing(before, runs.pairs(), i as int, g1);
            lemma_replace_map(before, runs.pairs(), i as int, g1);
        }
        self.runs = runs;
        Some(view)
    }

    /// Every robot of the run has finished (done or failed); so does a run
    /// with no robots at all. False when there is no such run.
    pub fn run_finished(&self, run_id: &str) -> (r: bool)
        ensures
            r == (self.runs().contains_key(run_id@) && forall|i: int|
                0 <= i < self.runs()[run_id@].robots.len() ==> (#[trigger] self.runs()[run_id@].robots[i]).1.terminal()),
    {
        match self.runs.get(run_id) {
            None => false,
            Some(g) => {
                let n = g.robots.len();
                let mut i: usize = 0;
                while i < n
                    invariant
                        i <= n,
                        n == g.robots.pairs().len(),
                        self.runs().contains_key(run_id@),
                        g.deep_view() == self.runs()[run_id@],
                        forall|j: int| 0 <= j < i ==> (#[trigger] g.robots.pairs()[j]).1.terminal(),
                    decreases n - i,
                {
                    if !g.robots.value_at(i).is_terminal() {
                        assert(!(self.runs()[run_id@].robots[i as int]).1.terminal());
                        return false;
                    }
                    i = i + 1;
                }
                true
            },
        }
    }

    /// Some robot of the run failed.
    pub open spec fn run_failed_spec(&self, run_id: Seq<char>) -> bool {
        self.runs().contains_key(run_id) && exists|i: int|
            0 <= i < self.runs()[run_id].robots.len() && (#[trigger] self.runs()[run_id].robots[i]).1 is Failed
    }

    /// Some robot of the run failed. False when there is no such run.
    pub fn run_failed(&self, run_id: &str) -> (r: bool)
        ensures
            r == self.run_failed_spec(run_id@),
    {
        match self.runs.get(run_id) {
            None => false,
            Some(g) => {
                let n = g.robots.len();
                let mut i: usize = 0;
                while i < n
                    invariant
                        i <= n,
                        n == g.robots.pairs().len(),
                        self.runs().contains_key(run_id@),
                        g.deep_view() == self.runs()[run_id@],
                        forall|j: int| 0 <= j < i ==> !((#[trigger] g.robots.pairs()[j]).1 is Failed),
                    decreases n - i,
                {
                    match g.robots.value_at(i) {
                        RunRobotStatus::Failed { .. } => {
                            return true;
                        },
                        _ => {},
                    }
                    i = i + 1;
                }
                false
            },
        }
    }

    /// The `n` most recent runs, newest first (runs created in the same
    /// millisecond by run id).
    pub fn recent(&self, n: usize) -> (r: Vec<RunView>)
        ensures
            lists_recent(r.deep_view(), self.entries(), n),
    {
        proof {
            use_type_invariant(self);
            use_type_invariant(&self.runs);
        }
        let ghost es = self.entries();
        let total = self.runs.len();
        let mut out: Vec<RunView> = Vec::new();
        let mut i: usize = 0;
        while i < total
            invariant
                i <= total,
                total == es.len(),
                es == self.entries(),
                keys_sorted(es),
                forall|q: int| 0 <= q < es.len() ==> (#[trigger] es[q]).1.run_id == es[q].0,
                out@.len() == i,
                in_listing_order(out.deep_view()),
                forall|a: int|
                    0 <= a < out@.len() ==> exists|j: int|
                        0 <= j < i && #[trigger] out.deep_view()[a] == group_view(#[trigger] es[j].1),
                forall|j: int| 0 <= j < i ==> out.deep_view().contains(group_view(#[trigger] es[j].1)),
            decreases total - i,
        {
            let x = self.runs.value_at(i).view();
            let ghost xv = x.deep_view();
            assert(xv == group_view(es[i as int].1));
            let len = out.len();
            let mut p: usize = 0;
            while p < len && !is_listed_before(&x, &out[p])
                invariant
                    p <= len,
                    len == out@.len(),
                    xv == x.deep_view(),
                    forall|a: int| 0 <= a < p ==> !listed_before(xv, #[trigger] out.deep_view()[a]),
                decreases len - p,
            {
                assert(out.deep_view()[p as int] == out@[p as int].deep_view());
                p = p + 1;
            }
            let ghost old_out = out.deep_view();
            proof {
                // The new run's id differs from every listed one.
                assert forall|a: int| 0 <= a < old_out.len() implies (#[trigger] old_out[a]).run_id
                    != xv.run_id by {
                    let j = choose|j: int| 0 <= j < i && old_out[a] == group_view(#[trigger] es[j].1);
                    lemma_sorted_distinct(es, j, i as int);
                }
                if p < len {
                    assert(old_out[p as int] == out@[p as int].deep_view());
                }
            }
            out.insert(p, x);
            proof {
                let s = out.deep_view();
                assert(s =~= old_out.insert(p as int, xv));
                assert forall|a: int, b: int| 0 <= a < b < s.len() implies listed_before(
                    #[trigger] s[a],
                    #[trigger] s[b],
                ) by {
                    if a < p && b < p {
                        assert(listed_before(old_out[a], old_out[b]));
                    } else if a < p && b == p {
                        assert(!listed_before(xv, old_out[a]));
                        lemma_listed_before_total(xv, old_out[a]);
                    } else if a < p && b > p {
                        assert(listed_before(old_out[a], old_out[b - 1]));
                    } else if a == p {
                        assert(listed_before(xv, old_out[p as int]));
                        if b - 1 > p {
                            assert(listed_before(old_out[p as int], old_out[b - 1]));
                            lemma_listed_before_transitive(xv, old_out[p as int], old_out[b - 1]);
                        }
                    } else {
                        assert(listed_before(old_out[a - 1], old_out[b - 1]));
                    }
                }
                assert forall|q: int| 0 <= q < s.len() implies exists|j: int|
                    0 <= j < i + 1 && #[trigger] s[q] == group_view(#[trigger] es[j].1) by {
                    if q < p {
                        assert(s[q] == old_out[q]);
                    } else if q == p {
                        assert(s[q] == group_view(es[i as int].1));
                    } else {
                        assert(s[q] == old_out[q - 1]);
                    }
                }
                assert forall|j: int| 0 <= j < i + 1 implies s.contains(group_view(#[trigger] es[j].1)) by {
                    if j < i {
                        assert(old_out.contains(group_view(es[j].1)));
                        let a = choose|a: int| 0 <= a < old_out.len() && old_out[a] == group_view(es[j].1);
                        if a < p {
                            assert(s[a] == old_out[a]);
                        } else {
                            assert(s[a + 1] == old_out[a]);
                        }
                    } else {
                        assert(s[p as int] == xv);
                    }
                }
            }
            i = i + 1;
        }
        let ghost full = out.deep_view();
        if n < total {
            out.truncate(n);
        }
        proof {
            let s = out.deep_view();
            assert(s =~= full.take(s.len() as int));
            assert forall|j: int| 0 <= j < es.len() implies s.contains(group_view(#[trigger] es[j].1))
                || forall|a: int| 0 <= a < s.len() ==> listed_before(
                    #[trigger] s[a],
                    group_view(es[j].1),
                ) by {
                assert(full.contains(group_view(es[j].1)));
                let q = choose|q: int| 0 <= q < full.len() && full[q] == group_view(es[j].1);
                if q < s.len() {
                    assert(s[q] == full[q]);
                } else {
                    assert forall|a: int| 0 <= a < s.len() implies listed_before(
                        #[trigger] s[a],
                        group_view(es[j].1),
                    ) by {
                        assert(s[a] == full[a]);
                    }
                }
            }
            assert forall|a: int| 0 <= a < s.len() implies exists|j: int|
                0 <= j < es.len() && #[trigger] s[a] == group_view(#[trigger] es[j].1) by {
                assert(s[a] == full[a]);
            }
        }
        out
    }
}

/// `g` is `g0` with robot `robot` set to `status`.
pub open spec fn robot_set(g0: RunGroupModel, g: RunGroupModel, robot: Seq<char>, status: RunRobotStatusModel) -> bool {
    &&& g == (RunGroupModel { robots: g.robots, ..g0 })
    &&& keys_sorted(g.robots)
    &&& pairs_to_map(g.robots) == pairs_to_map(g0.robots).insert(robot, status)
}

proof fn lemma_replace_keeps_filing(
    before: Seq<(Seq<char>, RunGroupModel)>,
    after: Seq<(Seq<char>, RunGroupModel)>,
    i: int,
    g: RunGroupModel,
)
    requires
        0 <= i < before.len(),
        after == before.update(i, (before[i].0, g)),
        g.run_id == before[i].0,
        forall|q: int| 0 <= q < before.len() ==> (#[trigger] before[q]).1.run_id == before[q].0,
    ensures
        forall|q: int| 0 <= q < after.len() ==> (#[trigger] after[q]).1.run_id == after[q].0,
{
    assert forall|q: int| 0 <= q < after.len() implies (#[trigger] after[q]).1.run_id == after[q].0 by {
        if q != i {
            assert(after[q] == before[q]);
        }
    }
}

proof fn lemma_replace_map(
    before: Seq<(Seq<char>, RunGroupModel)>,
    after: Seq<(Seq<char>, RunGroupModel)>,
    i: int,
    g: RunGroupModel,
)
    requires
        0 <= i < before.len(),
        keys_sorted(before),
        keys_sorted(after),
        after == before.update(i, (before[i].0, g)),
    ensures
        pairs_to_map(after) == pairs_to_map(before).insert(before[i].0, g),
{
    let k = before[i].0;
    lemma_sorted_lookup(after, i);
    assert forall|q: Seq<char>| #[trigger] pairs_to_map(after).contains_key(q) == pairs_to_map(
        before,
    ).insert(k, g).contains_key(q) by {
        if pairs_to_map(before).contains_key(q) {
            let j = choose|j: int| 0 <= j < before.len() && (#[trigger] before[j]).0 == q;
            assert(after[j].0 == q);
        }
        if pairs_to_map(after).contains_key(q) {
            let j = choose|j: int| 0 <= j < after.len() && (#[trigger] after[j]).0 == q;
            assert(before[j].0 == q);
        }
    }
    assert forall|q: Seq<char>| #[trigger] pairs_to_map(after).contains_key(q) implies pairs_to_map(
        after,
    )[q] == pairs_to_map(before).insert(k, g)[q] by {
        if q != k {
            let j = choose|j: int| 0 <= j < after.len() && (#[trigger] after[j]).0 == q;
            lemma_sorted_lookup(after, j);
            lemma_sorted_lookup(before, j);
            assert(j != i);
            assert(after[j] == before[j]);
        }
    }
    assert(pairs_to_map(after) =~= pairs_to_map(before).insert(k, g));
}

} // verus!
