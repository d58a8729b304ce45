//! One run of the steps of a plan: which step is handed out when, and what
//! the failure of a step does to the steps that wait for it.
use vstd::prelude::*;
use crate::composer::graph::{
    comes_before, depends_on, graph_wf, is_topological, lemma_depends_step, lemma_depends_unfold,
    lemma_needs_depends, needs, Graph,
};
use crate::composer::Plan;
use crate::entities::StepStatus;

verus! {

/// Everything that step `s` waits for went well.
#[verifier::opaque]
pub open spec fn all_needs_met(g: Graph, statuses: Seq<StepStatus>, s: int) -> bool {
    forall|k: int| 0 <= k < g[s].len() ==> statuses[#[trigger] g[s][k]] == StepStatus::Success
}

/// Something that step `s` waits for was given up.
#[verifier::opaque]
pub open spec fn has_lost_need(g: Graph, statuses: Seq<StepStatus>, s: int) -> bool {
    exists|k: int| 0 <= k < g[s].len() && statuses[g[s][k]].is_lost()
}

/// The statuses fit the graph: a step that was handed to a worker waits for
/// nothing any more, and the steps that are skipped are those that wait for
/// a step that was given up.
pub open spec fn coherent(g: Graph, statuses: Seq<StepStatus>) -> bool {
    &&& graph_wf(g)
    &&& statuses.len() == g.len()
    &&& forall|s: int|
        0 <= s < g.len() && (#[trigger] statuses[s]).is_active() ==> all_needs_met(g, statuses, s)
    &&& forall|s: int|
        0 <= s < g.len() ==> ((#[trigger] statuses[s]) == StepStatus::Skipped <==> has_lost_need(
            g,
            statuses,
            s,
        ))
}

/// Step `s` can be handed to a worker.
pub open spec fn is_ready(g: Graph, statuses: Seq<StepStatus>, s: int) -> bool {
    statuses[s] == StepStatus::Pending && all_needs_met(g, statuses, s)
}

/// The statuses before anything was done.
pub open spec fn all_pending(n: nat) -> Seq<StepStatus> {
    Seq::new(n, |s: int| StepStatus::Pending)
}

/// The statuses after every step that can be handed to a worker was.
pub open spec fn after_launch(g: Graph, statuses: Seq<StepStatus>) -> Seq<StepStatus> {
    Seq::new(
        statuses.len(),
        |s: int|
            if is_ready(g, statuses, s) {
                StepStatus::Running
            } else {
                statuses[s]
            },
    )
}

/// The statuses after step `a` went well.
pub open spec fn after_success(statuses: Seq<StepStatus>, a: int) -> Seq<StepStatus> {
    statuses.update(a, StepStatus::Success)
}

/// The statuses after step `a` failed: every step that waits for it,
/// directly or through others, and has not been dealt with is skipped.
pub open spec fn after_failure(g: Graph, statuses: Seq<StepStatus>, a: int) -> Seq<StepStatus> {
    Seq::new(
        statuses.len(),
        |s: int|
            if s == a {
                StepStatus::Failed
            } else if statuses[s] == StepStatus::Pending && depends_on(g, s, a) {
                StepStatus::Skipped
            } else {
                statuses[s]
            },
    )
}

/// Nothing is left to do: no step is pending or running.
pub open spec fn all_settled(statuses: Seq<StepStatus>) -> bool {
    forall|s: int| 0 <= s < statuses.len() ==> (#[trigger] statuses[s]).is_settled()
}

pub proof fn lemma_met(g: Graph, statuses: Seq<StepStatus>, s: int, k: int)
    requires
        all_needs_met(g, statuses, s),
        0 <= k < g[s].len(),
    ensures
        statuses[g[s][k]] == StepStatus::Success,
{
    reveal(all_needs_met);
}

pub proof fn lemma_lost_need(g: Graph, statuses: Seq<StepStatus>, s: int, k: int)
    requires
        0 <= k < g[s].len(),
        statuses[g[s][k]].is_lost(),
    ensures
        has_lost_need(g, statuses, s),
{
    reveal(has_lost_need);
}

pub proof fn lemma_lost_need_witness(g: Graph, statuses: Seq<StepStatus>, s: int) -> (k: int)
    requires
        has_lost_need(g, statuses, s),
    ensures
        0 <= k < g[s].len(),
        statuses[g[s][k]].is_lost(),
{
    reveal(has_lost_need);
    choose|k: int| 0 <= k < g[s].len() && statuses[g[s][k]].is_lost()
}

/// A step that waits for `v` and was handed to a worker saw `v` go well.
proof fn lemma_active_need(g: Graph, statuses: Seq<StepStatus>, s: int, v: int)
    requires
        coherent(g, statuses),
        needs(g, s, v),
        statuses[s].is_active(),
    ensures
        statuses[v] == StepStatus::Success,
{
    let k = choose|k: int| 0 <= k < g[s].len() && g[s][k] == v;
    lemma_met(g, statuses, s, k);
}

/// No step that waits for a step that has not gone well, directly or
/// through others, was handed to a worker.
proof fn lemma_chain_inactive(g: Graph, statuses: Seq<StepStatus>, chain: Seq<int>)
    requires
        coherent(g, statuses),
        chain.len() >= 2,
        forall|i: int| 0 <= i < chain.len() - 1 ==> needs(g, #[trigger] chain[i], chain[i + 1]),
        0 <= chain.last() < g.len(),
        statuses[chain.last()] != StepStatus::Success,
    ensures
        !statuses[chain[0]].is_active(),
    decreases chain.len(),
{
    assert(needs(g, chain[0], chain[1]));
    if chain.len() == 2 {
        if statuses[chain[0]].is_active() {
            lemma_active_need(g, statuses, chain[0], chain[1]);
        }
    } else {
        let tail = chain.drop_first();
        assert forall|i: int| 0 <= i < tail.len() - 1 implies needs(
            g,
            #[trigger] tail[i],
            tail[i + 1],
        ) by {
            assert(needs(g, chain[i + 1], chain[i + 2]));
        }
        assert(tail.last() == chain.last());
        lemma_chain_inactive(g, statuses, tail);
        if statuses[chain[0]].is_active() {
            lemma_active_need(g, statuses, chain[0], chain[1]);
        }
    }
}

/// A step that waits for a step that has not gone well is pending or
/// skipped.
pub proof fn lemma_dependent_inactive(g: Graph, statuses: Seq<StepStatus>, s: int, a: int)
    requires
        coherent(g, statuses),
        0 <= a < g.len(),
        statuses[a] != StepStatus::Success,
        depends_on(g, s, a),
    ensures
        0 <= s < g.len(),
        statuses[s] == StepStatus::Pending || statuses[s] == StepStatus::Skipped,
{
    let chain = choose|chain: Seq<int>|
        crate::composer::graph::is_chain(g, chain) && chain[0] == s && chain.last() == a;
    assert(needs(g, chain[0], chain[1]));
    lemma_chain_inactive(g, statuses, chain);
}

/// The statuses at the start fit every graph.
pub proof fn lemma_start_coherent(g: Graph)
    requires
        graph_wf(g),
    ensures
        coherent(g, all_pending(g.len())),
{
    let statuses = all_pending(g.len());
    assert forall|s: int| 0 <= s < g.len() implies !has_lost_need(g, statuses, s) by {
        if has_lost_need(g, statuses, s) {
            let k = lemma_lost_need_witness(g, statuses, s);
        }
    }
}

/// Handing out the steps that are ready keeps the statuses fitting.
pub proof fn lemma_launch_coherent(g: Graph, statuses: Seq<StepStatus>)
    requires
        coherent(g, statuses),
    ensures
        coherent(g, after_launch(g, statuses)),
{
    let after = after_launch(g, statuses);
    assert forall|s: int| 0 <= s < g.len() && (#[trigger] after[s]).is_active() implies all_needs_met(
        g,
        after,
        s,
    ) by {
        assert(statuses[s].is_active() || is_ready(g, statuses, s));
        assert(all_needs_met(g, statuses, s));
        assert forall|k: int| 0 <= k < g[s].len() implies after[#[trigger] g[s][k]]
            == StepStatus::Success by {
            lemma_met(g, statuses, s, k);
        }
        assert(all_needs_met(g, after, s)) by {
            reveal(all_needs_met);
        }
    }
    assert forall|s: int| 0 <= s < g.len() implies ((#[trigger] after[s]) == StepStatus::Skipped
        <==> has_lost_need(g, after, s)) by {
        assert(statuses[s] == StepStatus::Skipped <==> has_lost_need(g, statuses, s));
        if has_lost_need(g, after, s) {
            let k = lemma_lost_need_witness(g, after, s);
            lemma_lost_need(g, statuses, s, k);
        }
        if has_lost_need(g, statuses, s) {
            let k = lemma_lost_need_witness(g, statuses, s);
            lemma_lost_need(g, after, s, k);
        }
    }
}

/// A step that went well keeps the statuses fitting.
pub proof fn lemma_success_coherent(g: Graph, statuses: Seq<StepStatus>, a: int)
    requires
        coherent(g, statuses),
        0 <= a < g.len(),
        statuses[a] == StepStatus::Running,
    ensures
        coherent(g, after_success(statuses, a)),
{
    let after = after_success(statuses, a);
    assert forall|s: int| 0 <= s < g.len() && (#[trigger] after[s]).is_active() implies all_needs_met(
        g,
        after,
        s,
    ) by {
        assert(statuses[s].is_active());
        assert forall|k: int| 0 <= k < g[s].len() implies after[#[trigger] g[s][k]]
            == StepStatus::Success by {
            lemma_met(g, statuses, s, k);
        }
        assert(all_needs_met(g, after, s)) by {
            reveal(all_needs_met);
        }
    }
    assert forall|s: int| 0 <= s < g.len() implies ((#[trigger] after[s]) == StepStatus::Skipped
        <==> has_lost_need(g, after, s)) by {
        assert(statuses[s] == StepStatus::Skipped <==> has_lost_need(g, statuses, s));
        if has_lost_need(g, after, s) {
            let k = lemma_lost_need_witness(g, after, s);
            lemma_lost_need(g, statuses, s, k);
        }
        if has_lost_need(g, statuses, s) {
            let k = lemma_lost_need_witness(g, statuses, s);
            lemma_lost_need(g, after, s, k);
        }
    }
}

/// After a step failed, a step is given up where it was before, or is the
/// one that failed, or waits for that one.
proof fn lemma_lost_after_failure(g: Graph, statuses: Seq<StepStatus>, a: int, v: int)
    requires
        coherent(g, statuses),
        0 <= a < g.len(),
        0 <= v < g.len(),
        statuses[a] == StepStatus::Running,
    ensures
        after_failure(g, statuses, a)[v].is_lost() <==> (statuses[v].is_lost() || v == a
            || depends_on(g, v, a)),
{
    if depends_on(g, v, a) {
        lemma_dependent_inactive(g, statuses, v, a);
    }
}

/// A step that failed keeps the statuses fitting.
pub proof fn lemma_failure_coherent(g: Graph, statuses: Seq<StepStatus>, a: int)
    requires
        coherent(g, statuses),
        0 <= a < g.len(),
        statuses[a] == StepStatus::Running,
    ensures
        coherent(g, after_failure(g, statuses, a)),
{
    let after = after_failure(g, statuses, a);
    assert forall|s: int| 0 <= s < g.len() && (#[trigger] after[s]).is_active() implies all_needs_met(
        g,
        after,
        s,
    ) by {
        assert(statuses[s].is_active());
        assert forall|k: int| 0 <= k < g[s].len() implies after[#[trigger] g[s][k]]
            == StepStatus::Success by {
            lemma_met(g, statuses, s, k);
        }
        assert(all_needs_met(g, after, s)) by {
            reveal(all_needs_met);
        }
    }
    assert forall|s: int| 0 <= s < g.len() implies ((#[trigger] after[s]) == StepStatus::Skipped
        <==> has_lost_need(g, after, s)) by {
        assert(statuses[s] == StepStatus::Skipped <==> has_lost_need(g, statuses, s));
        if after[s] == StepStatus::Skipped {
            if statuses[s] == StepStatus::Skipped {
                let k = lemma_lost_need_witness(g, statuses, s);
                lemma_lost_after_failure(g, statuses, a, g[s][k]);
                lemma_lost_need(g, after, s, k);
            } else {
                lemma_depends_unfold(g, s, a);
                if needs(g, s, a) {
                    let k = choose|k: int| 0 <= k < g[s].len() && g[s][k] == a;
                    lemma_lost_need(g, after, s, k);
                } else {
                    let v = choose|v: int| needs(g, s, v) && depends_on(g, v, a);
                    let k = choose|k: int| 0 <= k < g[s].len() && g[s][k] == v;
                    lemma_lost_after_failure(g, statuses, a, v);
                    lemma_lost_need(g, after, s, k);
                }
            }
        }
        if has_lost_need(g, after, s) {
            let k = lemma_lost_need_witness(g, after, s);
            let v = g[s][k];
            assert(needs(g, s, v));
            lemma_lost_after_failure(g, statuses, a, v);
            if statuses[v].is_lost() {
                lemma_lost_need(g, statuses, s, k);
            } else {
                if v == a {
                    lemma_needs_depends(g, s, a);
                } else {
                    lemma_depends_step(g, s, v, a);
                }
                lemma_dependent_inactive(g, statuses, s, a);
            }
        }
    }
}

/// The statuses in the middle of skipping what waits for the failed step
/// `a`: the first `upto` steps of the order are dealt with, the others are
/// as they were.
pub open spec fn skipping(
    g: Graph,
    order: Seq<usize>,
    statuses: Seq<StepStatus>,
    a: int,
    now: Seq<StepStatus>,
    upto: int,
) -> bool {
    &&& now.len() == statuses.len()
    &&& forall|j: int|
        0 <= j < upto ==> now[(#[trigger] order[j]) as int] == after_failure(
            g,
            statuses,
            a,
        )[order[j] as int]
    &&& forall|j: int|
        upto <= j < order.len() ==> now[(#[trigger] order[j]) as int] == statuses.update(
            a,
            StepStatus::Failed,
        )[order[j] as int]
}

/// In the middle of skipping, the next step of the order is to be skipped
/// exactly where it is pending and waits for a step that was given up.
proof fn lemma_skip_decision(
    g: Graph,
    order: Seq<usize>,
    statuses: Seq<StepStatus>,
    a: int,
    now: Seq<StepStatus>,
    at: int,
)
    requires
        coherent(g, statuses),
        is_topological(g, order),
        0 <= a < g.len(),
        statuses[a] == StepStatus::Running,
        0 <= at < order.len(),
        skipping(g, order, statuses, a, now, at),
    ensures
        (now[order[at] as int] == StepStatus::Pending && has_lost_need(g, now, order[at] as int))
            <==> (order[at] != a && statuses[order[at] as int] == StepStatus::Pending
            && depends_on(g, order[at] as int, a)),
{
    let v = order[at] as int;
    let after = after_failure(g, statuses, a);
    assert(now[v] == statuses.update(a, StepStatus::Failed)[v]);
    if v != a && statuses[v] == StepStatus::Pending {
        assert(!has_lost_need(g, statuses, v));
        if has_lost_need(g, now, v) {
            let k = lemma_lost_need_witness(g, now, v);
            let w = g[v][k];
            assert(needs(g, v, w));
            assert(comes_before(order, at, w));
            let j = choose|j: int| 0 <= j < at && order[j] == w;
            assert(now[order[j] as int] == after[order[j] as int]);
            lemma_lost_after_failure(g, statuses, a, w);
            if statuses[w].is_lost() {
                lemma_lost_need(g, statuses, v, k);
            } else if w == a {
                lemma_needs_depends(g, v, a);
            } else {
                lemma_depends_step(g, v, w, a);
            }
        }
        if depends_on(g, v, a) {
            lemma_depends_unfold(g, v, a);
            let w = if needs(g, v, a) {
                a
            } else {
                choose|w: int| needs(g, v, w) && depends_on(g, w, a)
            };
            let k = choose|k: int| 0 <= k < g[v].len() && g[v][k] == w;
            assert(comes_before(order, at, g[v][k]));
            let j = choose|j: int| 0 <= j < at && order[j] == w;
            assert(now[order[j] as int] == after[order[j] as int]);
            lemma_lost_after_failure(g, statuses, a, w);
            lemma_lost_need(g, now, v, k);
        }
    }
}

/// Dealing with the next step of the order goes one step on in skipping.
proof fn lemma_skip_step(
    g: Graph,
    order: Seq<usize>,
    statuses: Seq<StepStatus>,
    a: int,
    now: Seq<StepStatus>,
    at: int,
)
    requires
        coherent(g, statuses),
        is_topological(g, order),
        0 <= a < g.len(),
        statuses[a] == StepStatus::Running,
        0 <= at < order.len(),
        skipping(g, order, statuses, a, now, at),
    ensures
        skipping(
            g,
            order,
            statuses,
            a,
            if now[order[at] as int] == StepStatus::Pending && has_lost_need(
                g,
                now,
                order[at] as int,
            ) {
                now.update(order[at] as int, StepStatus::Skipped)
            } else {
                now
            },
            at + 1,
        ),
{
    lemma_skip_decision(g, order, statuses, a, now, at);
    let v = order[at] as int;
    let next = if now[v] == StepStatus::Pending && has_lost_need(g, now, v) {
        now.update(v, StepStatus::Skipped)
    } else {
        now
    };
    let after = after_failure(g, statuses, a);
    assert forall|j: int| 0 <= j < at + 1 implies next[(#[trigger] order[j]) as int]
        == after[order[j] as int] by {
        if j < at {
            assert(order[j] != order[at]);
            assert(now[order[j] as int] == after[order[j] as int]);
        }
    }
    assert forall|j: int| at + 1 <= j < order.len() implies next[(#[trigger] order[j]) as int]
        == statuses.update(a, StepStatus::Failed)[order[j] as int] by {
        assert(order[at] != order[j]);
    }
}

/// When every step of the order is dealt with, the skipping is done.
proof fn lemma_skip_done(
    g: Graph,
    order: Seq<usize>,
    statuses: Seq<StepStatus>,
    a: int,
    now: Seq<StepStatus>,
)
    requires
        coherent(g, statuses),
        is_topological(g, order),
        skipping(g, order, statuses, a, now, order.len() as int),
    ensures
        now == after_failure(g, statuses, a),
{
    let after = after_failure(g, statuses, a);
    assert forall|s: int| 0 <= s < now.len() implies now[s] == after[s] by {
        assert(comes_before(order, order.len() as int, s));
        let j = choose|j: int| 0 <= j < order.len() && order[j] == s;
        assert(now[order[j] as int] == after[order[j] as int]);
    }
    assert(now =~= after);
}

/// One run of the steps of a plan: where each step stands.
pub struct Execution {
    plan: Plan,
    statuses: Vec<StepStatus>,
}

#[derive(Debug, Clone, Copy, PartialEq, Eq, Structural)]
pub enum ExecutionError {
    /// The step that is reported on is not running.
    NotRunning,
}

/// That step `step` has come to `status`.
#[derive(Debug, Clone, Copy, PartialEq, Eq, Structural)]
pub struct Progress {
    pub step: usize,
    pub status: StepStatus,
}

/// The progress to tell of after step `a` failed: the failure itself, then
/// each step that is newly skipped, those first that others wait for.
pub open spec fn failure_progress(
    g: Graph,
    order: Seq<usize>,
    statuses: Seq<StepStatus>,
    a: int,
) -> Seq<Progress> {
    seq![Progress { step: a as usize, status: StepStatus::Failed }] + skipped_progress(
        g,
        order,
        statuses,
        a,
        order.len() as int,
    )
}

/// The newly skipped steps among the first `upto` of the order.
pub open spec fn skipped_progress(
    g: Graph,
    order: Seq<usize>,
    statuses: Seq<StepStatus>,
    a: int,
    upto: int,
) -> Seq<Progress>
    decreases upto,
{
    if upto <= 0 {
        Seq::empty()
    } else {
        let s = order[upto - 1];
        let before = skipped_progress(g, order, statuses, a, upto - 1);
        if s != a && statuses[s as int] == StepStatus::Pending && depends_on(g, s as int, a) {
            before.push(Progress { step: s, status: StepStatus::Skipped })
        } else {
            before
        }
    }
}

/// The steps among the first `upto` that are ready, in ascending order.
pub open spec fn ready_steps(g: Graph, statuses: Seq<StepStatus>, upto: int) -> Seq<usize>
    decreases upto,
{
    if upto <= 0 {
        Seq::empty()
    } else {
        let before = ready_steps(g, statuses, upto - 1);
        if is_ready(g, statuses, upto - 1) {
            before.push((upto - 1) as usize)
        } else {
            before
        }
    }
}

impl Execution {
    pub closed spec fn graph(&self) -> Graph {
        self.plan.graph()
    }

    pub closed spec fn statuses(&self) -> Seq<StepStatus> {
        self.statuses@
    }

    pub closed spec fn order(&self) -> Seq<usize> {
        self.plan.order()
    }

    pub closed spec fn names(&self) -> Seq<Seq<char>> {
        self.plan.names()
    }

    pub closed spec fn wf(&self) -> bool {
        &&& self.plan.wf()
        &&& coherent(self.plan.graph(), self.statuses@)
    }

    /// What a run in order holds: its plan has no cycle and an order in
    /// which every step comes after all it waits for, and its statuses fit
    /// the graph.
    pub proof fn lemma_wf(&self)
        requires
            self.wf(),
        ensures
            self.names().len() == self.graph().len(),
            self.statuses().len() == self.graph().len(),
            graph_wf(self.graph()),
            crate::composer::graph::acyclic(self.graph()),
            is_topological(self.graph(), self.order()),
            coherent(self.graph(), self.statuses()),
    {
        self.plan.lemma_wf();
    }

    /// A run of a plan starts with every step pending.
    pub fn new(plan: Plan) -> (run: Self)
        requires
            plan.wf(),
        ensures
            run.wf(),
            run.graph() == plan.graph(),
            run.names() == plan.names(),
            run.order() == plan.order(),
            run.statuses() == all_pending(plan.graph().len()),
    {
        let n = plan.len();
        let mut statuses: Vec<StepStatus> = Vec::new();
        let mut i: usize = 0;
        while i < n
            invariant
                i <= n,
                statuses@.len() == i,
                forall|j: int| 0 <= j < i ==> statuses@[j] == StepStatus::Pending,
            decreases n - i,
        {
            statuses.push(StepStatus::Pending);
            i += 1;
        }
        proof {
            plan.lemma_wf();
            assert(statuses@ =~= all_pending(plan.graph().len()));
            lemma_start_coherent(plan.graph());
        }
        Execution { plan, statuses }
    }

    /// The number of steps.
    pub fn len(&self) -> (n: usize)
        requires
            self.wf(),
        ensures
            n == self.graph().len(),
            n == self.statuses().len(),
    {
        self.statuses.len()
    }

    /// Where step `step` stands.
    pub fn status(&self, step: usize) -> (status: StepStatus)
        requires
            self.wf(),
            step < self.graph().len(),
        ensures
            status == self.statuses()[step as int],
    {
        self.statuses[step]
    }

    /// The name of step `step`.
    pub fn name_of(&self, step: usize) -> (name: &String)
        requires
            self.wf(),
            step < self.graph().len(),
        ensures
            name@ == self.names()[step as int],
    {
        self.plan.name_of(step)
    }

    fn needs_met(&self, step: usize) -> (met: bool)
        requires
            self.wf(),
            step < self.graph().len(),
        ensures
            met == all_needs_met(self.graph(), self.statuses(), step as int),
    {
        proof {
            self.plan.lemma_wf();
        }
        let list = self.plan.needs_of(step);
        let n = list.len();
        let ghost g = self.graph();
        let mut k: usize = 0;
        while k < n
            invariant
                self.wf(),
                g == self.graph(),
                graph_wf(g),
                step < g.len(),
                n == list@.len(),
                n == g[step as int].len(),
                forall|j: int| 0 <= j < n ==> list@[j] == g[step as int][j],
                k <= n,
                forall|j: int|
                    0 <= j < k ==> self.statuses@[#[trigger] g[step as int][j]]
                        == StepStatus::Success,
            decreases n - k,
        {
            proof {
                assert(0 <= g[step as int][k as int] < g.len());
            }
            match self.statuses[list[k]] {
                StepStatus::Success => {},
                _ => {
                    proof {
                        reveal(all_needs_met);
                        assert(self.statuses@[g[step as int][k as int]] != StepStatus::Success);
                    }
                    return false;
                },
            }
            k += 1;
        }
        proof {
            reveal(all_needs_met);
        }
        true
    }

    fn lost_need(&self, step: usize) -> (lost: bool)
        requires
            self.plan.wf(),
            self.statuses@.len() == self.plan.graph().len(),
            step < self.plan.graph().len(),
        ensures
            lost == has_lost_need(self.plan.graph(), self.statuses@, step as int),
    {
        proof {
            self.plan.lemma_wf();
        }
        let list = self.plan.needs_of(step);
        let n = list.len();
        let ghost g = self.plan.graph();
        let mut k: usize = 0;
        while k < n
            invariant
                self.plan.wf(),
                self.statuses@.len() == g.len(),
                g == self.plan.graph(),
                graph_wf(g),
                step < g.len(),
                n == list@.len(),
                n == g[step as int].len(),
                forall|j: int| 0 <= j < n ==> list@[j] == g[step as int][j],
                k <= n,
                forall|j: int| 0 <= j < k ==> !self.statuses@[#[trigger] g[step as int][j]].is_lost(),
            decreases n - k,
        {
            proof {
                assert(0 <= g[step as int][k as int] < g.len());
            }
            if self.statuses[list[k]].is_lost() {
                proof {
                    lemma_lost_need(g, self.statuses@, step as int, k as int);
                }
                return true;
            }
            k += 1;
        }
        proof {
            if has_lost_need(g, self.statuses@, step as int) {
                let j = lemma_lost_need_witness(g, self.statuses@, step as int);
                assert(!self.statuses@[g[step as int][j]].is_lost());
            }
        }
        false
    }

    /// Hands every step that is ready to a worker: the steps that come back
    /// are running now, in ascending order.
    pub fn launch_ready(&mut self) -> (launched: Vec<usize>)
        requires
            old(self).wf(),
        ensures
            final(self).wf(),
            final(self).graph() == old(self).graph(),
            final(self).names() == old(self).names(),
            final(self).order() == old(self).order(),
            final(self).statuses() == after_launch(old(self).graph(), old(self).statuses()),
            launched@ == ready_steps(
                old(self).graph(),
                old(self).statuses(),
                old(self).graph().len() as int,
            ),
    {
        let n = self.statuses.len();
        let ghost g = self.graph();
        let ghost before = self.statuses@;
        let mut launched: Vec<usize> = Vec::new();
        let mut s: usize = 0;
        while s < n
            invariant
                self.wf(),
                self.plan == old(self).plan,
                g == self.graph(),
                before == old(self).statuses@,
                n == before.len(),
                s <= n,
                launched@ == ready_steps(g, before, s as int),
                forall|i: int| 0 <= i < s ==> is_ready(g, before, i) == (#[trigger] launched@.contains(i as usize)),
                forall|i: int| 0 <= i < launched@.len() ==> (#[trigger] launched@[i]) < s,
            decreases n - s,
        {
            let ready = match self.statuses[s] {
                StepStatus::Pending => self.needs_met(s),
                _ => false,
            };
            let ghost so_far = launched@;
            if ready {
                launched.push(s);
            }
            proof {
                assert forall|i: int| 0 <= i < s + 1 implies is_ready(g, before, i) == (#[trigger] launched@.contains(i as usize)) by {
                    if i < s {
                        if so_far.contains(i as usize) {
                            let j = choose|j: int| 0 <= j < so_far.len() && so_far[j] == i as usize;
                            assert(launched@[j] == i as usize);
                        }
                        if launched@.contains(i as usize) {
                            let j = choose|j: int| 0 <= j < launched@.len() && launched@[j] == i as usize;
                            if j < so_far.len() {
                                assert(so_far[j] == i as usize);
                            }
                        }
                    } else {
                        if ready {
                            assert(launched@[launched@.len() - 1] == s);
                        } else {
                            if launched@.contains(s) {
                                let j = choose|j: int| 0 <= j < launched@.len() && launched@[j] == s;
                                assert(launched@[j] < s);
                            }
                        }
                    }
                }
            }
            s += 1;
        }
        let ghost target = after_launch(g, before);
        let m = launched.len();
        let mut i: usize = 0;
        while i < m
            invariant
                self.plan == old(self).plan,
                self.plan.wf(),
                g == self.plan.graph(),
                n == before.len(),
                n == self.statuses@.len(),
                target == after_launch(g, before),
                m == launched@.len(),
                i <= m,
                forall|j: int| 0 <= j < m ==> (#[trigger] launched@[j]) < n,
                forall|j: int| 0 <= j < n ==> is_ready(g, before, j) == (#[trigger] launched@.contains(j as usize)),
                forall|j: int|
                    0 <= j < n ==> (#[trigger] self.statuses@[j]) == if exists|x: int|
                        0 <= x < i && launched@[x] == j as usize {
                        StepStatus::Running
                    } else {
                        before[j]
                    },
            decreases m - i,
        {
            let step = launched[i];
            let ghost prior = self.statuses@;
            self.statuses.set(step, StepStatus::Running);
            proof {
                assert forall|j: int| 0 <= j < n implies (#[trigger] self.statuses@[j]) == if exists|x: int|
                    0 <= x < i + 1 && launched@[x] == j as usize {
                    StepStatus::Running
                } else {
                    before[j]
                } by {
                    if j == step {
                        assert(launched@[i as int] == j as usize);
                    } else {
                        assert(self.statuses@[j] == prior[j]);
                        if exists|x: int| 0 <= x < i + 1 && launched@[x] == j as usize {
                            let x = choose|x: int| 0 <= x < i + 1 && launched@[x] == j as usize;
                            assert(x < i);
                        }
                    }
                }
            }
            i += 1;
        }
        proof {
            assert forall|j: int| 0 <= j < n implies self.statuses@[j] == target[j] by {
                if is_ready(g, before, j) {
                    assert(launched@.contains(j as usize));
                    let x = choose|x: int| 0 <= x < launched@.len() && launched@[x] == j as usize;
                    assert(0 <= x < m && launched@[x] == j as usize);
                } else {
                    if exists|x: int| 0 <= x < m && launched@[x] == j as usize {
                        let x = choose|x: int| 0 <= x < m && launched@[x] == j as usize;
                        assert(launched@.contains(j as usize));
                    }
                }
            }
            assert(self.statuses@ =~= target);
            lemma_launch_coherent(g, before);
        }
        launched
    }

    /// Takes the report that step `step` went well or failed, and says what
    /// progress there is to tell of. After a failure every step that waits
    /// for the failed one, directly or through others, is skipped.
    pub fn report(&mut self, step: usize, success: bool) -> (told: Result<
        Vec<Progress>,
        ExecutionError,
    >)
        requires
            old(self).wf(),
        ensures
            final(self).wf(),
            final(self).graph() == old(self).graph(),
            final(self).names() == old(self).names(),
            final(self).order() == old(self).order(),
            match told {
                Err(e) => {
                    &&& e == ExecutionError::NotRunning
                    &&& !(step < old(self).graph().len() && old(self).statuses()[step as int]
                        == StepStatus::Running)
                    &&& final(self).statuses() == old(self).statuses()
                },
                Ok(progress) => {
                    &&& step < old(self).graph().len()
                    &&& old(self).statuses()[step as int] == StepStatus::Running
                    &&& success ==> final(self).statuses() == after_success(
                        old(self).statuses(),
                        step as int,
                    ) && progress@ == seq![Progress { step, status: StepStatus::Success }]
                    &&& !success ==> final(self).statuses() == after_failure(
                        old(self).graph(),
                        old(self).statuses(),
                        step as int,
                    ) && progress@ == failure_progress(
                        old(self).graph(),
                        old(self).order(),
                        old(self).statuses(),
                        step as int,
                    )
                },
            },
    {
        let n = self.statuses.len();
        if step >= n {
            return Err(ExecutionError::NotRunning);
        }
        match self.statuses[step] {
            StepStatus::Running => {},
            _ => {
                return Err(ExecutionError::NotRunning);
            },
        }
        let ghost g = self.graph();
        let ghost order = self.order();
        let ghost before = self.statuses@;
        let mut progress: Vec<Progress> = Vec::new();
        if success {
            self.statuses.set(step, StepStatus::Success);
            progress.push(Progress { step, status: StepStatus::Success });
            proof {
                lemma_success_coherent(g, before, step as int);
            }
            return Ok(progress);
        }
        self.statuses.set(step, StepStatus::Failed);
        progress.push(Progress { step, status: StepStatus::Failed });
        proof {
            self.plan.lemma_wf();
        }
        let mut at: usize = 0;
        while at < n
            invariant
                self.plan == old(self).plan,
                self.plan.wf(),
                g == self.plan.graph(),
                order == self.plan.order(),
                is_topological(g, order),
                coherent(g, before),
                before == old(self).statuses@,
                n == before.len(),
                n == g.len(),
                step < n,
                before[step as int] == StepStatus::Running,
                at <= n,
                skipping(g, order, before, step as int, self.statuses@, at as int),
                progress@ == seq![Progress { step, status: StepStatus::Failed }] + skipped_progress(
                    g,
                    order,
                    before,
                    step as int,
                    at as int,
                ),
            decreases n - at,
        {
            let v = self.plan.order_at(at);
            let skip = match self.statuses[v] {
                StepStatus::Pending => self.lost_need(v),
                _ => false,
            };
            proof {
                lemma_skip_decision(g, order, before, step as int, self.statuses@, at as int);
                lemma_skip_step(g, order, before, step as int, self.statuses@, at as int);
            }
            if skip {
                self.statuses.set(v, StepStatus::Skipped);
                let ghost told = progress@;
                progress.push(Progress { step: v, status: StepStatus::Skipped });
                proof {
                    assert(progress@ =~= seq![Progress { step, status: StepStatus::Failed }]
                        + skipped_progress(g, order, before, step as int, at + 1));
                }
            }
            at += 1;
        }
        proof {
            lemma_skip_done(g, order, before, step as int, self.statuses@);
            lemma_failure_coherent(g, before, step as int);
        }
        Ok(progress)
    }

    /// Whether nothing is left to do.
    pub fn is_finished(&self) -> (finished: bool)
        requires
            self.wf(),
        ensures
            finished == all_settled(self.statuses()),
    {
        let n = self.statuses.len();
        let mut s: usize = 0;
        while s < n
            invariant
                n == self.statuses@.len(),
                s <= n,
                forall|i: int| 0 <= i < s ==> (#[trigger] self.statuses@[i]).is_settled(),
            decreases n - s,
        {
            if !self.statuses[s].is_settled() {
                return false;
            }
            s += 1;
        }
        true
    }
}

} // verus!
