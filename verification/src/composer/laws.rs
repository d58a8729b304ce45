//! What holds of every run: a failure skips exactly what waits for it, a
//! step is handed out only after all it waits for went well, and a run never
//! gets stuck.
use vstd::prelude::*;
use crate::composer::execution::{
    after_failure, after_launch, all_needs_met, all_settled, coherent, failure_progress, is_ready,
    lemma_dependent_inactive, lemma_failure_coherent, lemma_lost_need, lemma_lost_need_witness,
    lemma_met, skipped_progress, Progress,
};
use crate::composer::graph::{
    acyclic, comes_before, depends_on, is_chain, is_topological, lemma_depends_step,
    lemma_needs_depends, needs, ranked_by, Graph,
};
use crate::entities::StepStatus;

verus! {

/// When a running step fails, every step that waits for it, directly or
/// through others, is skipped afterwards; the failed step is failed; every
/// other step stands where it stood; and the statuses still fit the graph.
pub proof fn lemma_skip_propagation(g: Graph, statuses: Seq<StepStatus>, a: int)
    requires
        coherent(g, statuses),
        0 <= a < g.len(),
        statuses[a] == StepStatus::Running,
    ensures
        after_failure(g, statuses, a)[a] == StepStatus::Failed,
        forall|s: int|
            depends_on(g, s, a) ==> 0 <= s < g.len() && after_failure(g, statuses, a)[s]
                == StepStatus::Skipped,
        forall|s: int|
            0 <= s < g.len() && s != a && !depends_on(g, s, a) ==> after_failure(g, statuses, a)[s]
                == statuses[s],
        coherent(g, after_failure(g, statuses, a)),
{
    assert forall|s: int| depends_on(g, s, a) implies 0 <= s < g.len() && after_failure(
        g,
        statuses,
        a,
    )[s] == StepStatus::Skipped by {
        lemma_dependent_inactive(g, statuses, s, a);
        if s == a {
        }
    }
    lemma_failure_coherent(g, statuses, a);
}

proof fn lemma_skipped_progress(
    g: Graph,
    order: Seq<usize>,
    statuses: Seq<StepStatus>,
    a: int,
    upto: int,
)
    requires
        0 <= upto <= order.len(),
    ensures
        forall|i: int|
            0 <= i < skipped_progress(g, order, statuses, a, upto).len() ==> {
                let told = #[trigger] skipped_progress(g, order, statuses, a, upto)[i];
                &&& told.status == StepStatus::Skipped
                &&& told.step != a
                &&& statuses[told.step as int] == StepStatus::Pending
                &&& depends_on(g, told.step as int, a)
            },
        forall|j: int|
            0 <= j < upto && order[j] != a && statuses[order[j] as int] == StepStatus::Pending
                && depends_on(g, order[j] as int, a) ==> skipped_progress(
                g,
                order,
                statuses,
                a,
                upto,
            ).contains(Progress { step: #[trigger] order[j], status: StepStatus::Skipped }),
    decreases upto,
{
    if upto > 0 {
        lemma_skipped_progress(g, order, statuses, a, upto - 1);
        let before = skipped_progress(g, order, statuses, a, upto - 1);
        let all = skipped_progress(g, order, statuses, a, upto);
        assert forall|i: int| 0 <= i < all.len() implies {
            let told = #[trigger] all[i];
            &&& told.status == StepStatus::Skipped
            &&& told.step != a
            &&& statuses[told.step as int] == StepStatus::Pending
            &&& depends_on(g, told.step as int, a)
        } by {
            if i < before.len() {
                assert(all[i] == before[i]);
            }
        }
        assert forall|j: int|
            0 <= j < upto && order[j] != a && statuses[order[j] as int] == StepStatus::Pending
                && depends_on(g, order[j] as int, a) implies all.contains(
            Progress { step: #[trigger] order[j], status: StepStatus::Skipped },
        ) by {
            let told = Progress { step: order[j], status: StepStatus::Skipped };
            if j < upto - 1 {
                assert(before.contains(told));
                let i = choose|i: int| 0 <= i < before.len() && before[i] == told;
                assert(all[i] == told);
            } else {
                assert(all[all.len() - 1] == told);
            }
        }
    }
}

/// After a running step failed, the progress told of is the failure
/// followed by the skipping of steps that were pending and wait for the
/// failed step; every such step is told of, and no other.
pub proof fn lemma_failure_progress(
    g: Graph,
    order: Seq<usize>,
    statuses: Seq<StepStatus>,
    a: int,
)
    requires
        coherent(g, statuses),
        is_topological(g, order),
        0 <= a < g.len(),
        a <= usize::MAX,
        statuses[a] == StepStatus::Running,
    ensures
        failure_progress(g, order, statuses, a)[0] == (Progress {
            step: a as usize,
            status: StepStatus::Failed,
        }),
        forall|i: int|
            1 <= i < failure_progress(g, order, statuses, a).len() ==> {
                let told = #[trigger] failure_progress(g, order, statuses, a)[i];
                &&& told.status == StepStatus::Skipped
                &&& statuses[told.step as int] == StepStatus::Pending
                &&& depends_on(g, told.step as int, a)
            },
        forall|s: usize|
            statuses[s as int] == StepStatus::Pending && depends_on(g, s as int, a)
                ==> #[trigger] failure_progress(g, order, statuses, a).contains(
                Progress { step: s, status: StepStatus::Skipped },
            ),
{
    let skipped = skipped_progress(g, order, statuses, a, order.len() as int);
    let all = failure_progress(g, order, statuses, a);
    lemma_skipped_progress(g, order, statuses, a, order.len() as int);
    assert forall|i: int| 1 <= i < all.len() implies {
        let told = #[trigger] all[i];
        &&& told.status == StepStatus::Skipped
        &&& statuses[told.step as int] == StepStatus::Pending
        &&& depends_on(g, told.step as int, a)
    } by {
        assert(all[i] == skipped[i - 1]);
    }
    assert forall|s: usize|
        statuses[s as int] == StepStatus::Pending && depends_on(g, s as int, a) implies #[trigger] all.contains(
        Progress { step: s, status: StepStatus::Skipped },
    ) by {
        lemma_dependent_inactive(g, statuses, s as int, a);
        assert(comes_before(order, order.len() as int, s as int));
        let j = choose|j: int| 0 <= j < order.len() && order[j] == s as int;
        let told = Progress { step: order[j], status: StepStatus::Skipped };
        assert(skipped.contains(told));
        let i = choose|i: int| 0 <= i < skipped.len() && skipped[i] == told;
        assert(all[i + 1] == told);
    }
}

proof fn lemma_failed_chain_skips(g: Graph, statuses: Seq<StepStatus>, chain: Seq<int>)
    requires
        coherent(g, statuses),
        is_chain(g, chain),
        0 <= chain.last() < g.len(),
        statuses[chain.last()] == StepStatus::Failed,
    ensures
        statuses[chain[0]] == StepStatus::Skipped,
    decreases chain.len(),
{
    assert(needs(g, chain[0], chain[1]));
    let k = choose|k: int| 0 <= k < g[chain[0]].len() && g[chain[0]][k] == chain[1];
    if chain.len() > 2 {
        let tail = chain.drop_first();
        assert forall|i: int| 0 <= i < tail.len() - 1 implies needs(
            g,
            #[trigger] tail[i],
            tail[i + 1],
        ) by {
            assert(needs(g, chain[i + 1], chain[i + 2]));
        }
        assert(tail.last() == chain.last());
        lemma_failed_chain_skips(g, statuses, tail);
    }
    lemma_lost_need(g, statuses, chain[0], k);
}

proof fn lemma_skipped_has_cause(g: Graph, rank: Seq<nat>, statuses: Seq<StepStatus>, s: int) -> (a:
    int)
    requires
        coherent(g, statuses),
        ranked_by(g, rank),
        0 <= s < g.len(),
        statuses[s] == StepStatus::Skipped,
    ensures
        0 <= a < g.len(),
        statuses[a] == StepStatus::Failed,
        depends_on(g, s, a),
    decreases rank[s],
{
    let k = lemma_lost_need_witness(g, statuses, s);
    let w = g[s][k];
    assert(needs(g, s, w));
    assert(rank[g[s][k]] < rank[s]);
    if statuses[w] == StepStatus::Failed {
        lemma_needs_depends(g, s, w);
        w
    } else {
        let a = lemma_skipped_has_cause(g, rank, statuses, w);
        lemma_depends_step(g, s, w, a);
        a
    }
}

/// At every moment of a run the skipped steps are those that wait, directly
/// or through others, for a step that failed.
pub proof fn lemma_skipped_iff_waits_for_failed(g: Graph, statuses: Seq<StepStatus>, s: int)
    requires
        coherent(g, statuses),
        acyclic(g),
        0 <= s < g.len(),
    ensures
        statuses[s] == StepStatus::Skipped <==> exists|a: int|
            0 <= a < g.len() && statuses[a] == StepStatus::Failed && depends_on(g, s, a),
{
    if statuses[s] == StepStatus::Skipped {
        let rank = choose|rank: Seq<nat>| ranked_by(g, rank);
        let a = lemma_skipped_has_cause(g, rank, statuses, s);
        assert(0 <= a < g.len() && statuses[a] == StepStatus::Failed && depends_on(g, s, a));
    }
    if exists|a: int| 0 <= a < g.len() && statuses[a] == StepStatus::Failed && depends_on(g, s, a) {
        let a = choose|a: int|
            0 <= a < g.len() && statuses[a] == StepStatus::Failed && depends_on(g, s, a);
        let chain = choose|chain: Seq<int>| is_chain(g, chain) && chain[0] == s && chain.last() == a;
        lemma_failed_chain_skips(g, statuses, chain);
    }
}

/// A step is handed to a worker only after everything it waits for went
/// well.
pub proof fn lemma_launch_after_needs(g: Graph, statuses: Seq<StepStatus>, s: int)
    requires
        coherent(g, statuses),
        0 <= s < g.len(),
        after_launch(g, statuses)[s] == StepStatus::Running,
    ensures
        forall|k: int| 0 <= k < g[s].len() ==> statuses[#[trigger] g[s][k]] == StepStatus::Success,
{
    assert(all_needs_met(g, statuses, s));
    assert forall|k: int| 0 <= k < g[s].len() implies statuses[#[trigger] g[s][k]]
        == StepStatus::Success by {
        lemma_met(g, statuses, s, k);
    }
}

proof fn lemma_pending_leads_to_ready(
    g: Graph,
    rank: Seq<nat>,
    statuses: Seq<StepStatus>,
    s: int,
) -> (r: int)
    requires
        coherent(g, statuses),
        ranked_by(g, rank),
        0 <= s < g.len(),
        statuses[s] == StepStatus::Pending,
        forall|u: int| 0 <= u < g.len() ==> statuses[u] != StepStatus::Running,
    ensures
        0 <= r < g.len(),
        is_ready(g, statuses, r),
    decreases rank[s],
{
    if all_needs_met(g, statuses, s) {
        s
    } else {
        reveal(all_needs_met);
        let k = choose|k: int| 0 <= k < g[s].len() && statuses[g[s][k]] != StepStatus::Success;
        let w = g[s][k];
        assert(rank[g[s][k]] < rank[s]);
        if statuses[w].is_lost() {
            lemma_lost_need(g, statuses, s, k);
        }
        lemma_pending_leads_to_ready(g, rank, statuses, w)
    }
}

/// A run never gets stuck: while something is left to do and no step is
/// running, some step is ready to be handed to a worker.
pub proof fn lemma_no_deadlock(g: Graph, statuses: Seq<StepStatus>)
    requires
        coherent(g, statuses),
        acyclic(g),
        !all_settled(statuses),
        forall|u: int| 0 <= u < g.len() ==> statuses[u] != StepStatus::Running,
    ensures
        exists|r: int| 0 <= r < g.len() && is_ready(g, statuses, r),
{
    let rank = choose|rank: Seq<nat>| ranked_by(g, rank);
    let s = choose|s: int| 0 <= s < statuses.len() && !(#[trigger] statuses[s]).is_settled();
    let r = lemma_pending_leads_to_ready(g, rank, statuses, s);
    assert(0 <= r < g.len() && is_ready(g, statuses, r));
}

} // verus!
