//! The graph of the steps and what they wait for: cycles, chains, and an
//! order in which every step comes after all it waits for.
use vstd::prelude::*;

verus! {

/// The steps of a submission and what each needs: at place `s` stand the
/// steps that step `s` waits for.
pub type Graph = Seq<Seq<int>>;

/// Every step that is needed is a step of the graph.
pub open spec fn graph_wf(g: Graph) -> bool {
    forall|s: int, k: int|
        0 <= s < g.len() && 0 <= k < g[s].len() ==> 0 <= #[trigger] g[s][k] < g.len()
}

/// Step `s` waits for step `v` itself.
pub open spec fn needs(g: Graph, s: int, v: int) -> bool {
    0 <= s < g.len() && exists|k: int| 0 <= k < g[s].len() && g[s][k] == v
}

/// `rank` numbers the steps so that each step stands above all it needs.
pub open spec fn ranked_by(g: Graph, rank: Seq<nat>) -> bool {
    &&& rank.len() == g.len()
    &&& forall|s: int, k: int|
        0 <= s < g.len() && 0 <= k < g[s].len() ==> rank[#[trigger] g[s][k]] < rank[s]
}

/// No step waits for itself, directly or through others: the steps can be
/// numbered so that each stands above all it needs.
pub open spec fn acyclic(g: Graph) -> bool {
    exists|rank: Seq<nat>| ranked_by(g, rank)
}

/// Each step of the chain needs the one after it.
pub open spec fn is_chain(g: Graph, chain: Seq<int>) -> bool {
    &&& chain.len() >= 2
    &&& forall|i: int| 0 <= i < chain.len() - 1 ==> needs(g, #[trigger] chain[i], chain[i + 1])
}

/// Step `s` waits for step `a`, directly or through others.
pub open spec fn depends_on(g: Graph, s: int, a: int) -> bool {
    exists|chain: Seq<int>| is_chain(g, chain) && chain[0] == s && chain.last() == a
}

/// A step that needs another depends on it.
pub proof fn lemma_needs_depends(g: Graph, s: int, v: int)
    requires
        needs(g, s, v),
    ensures
        depends_on(g, s, v),
{
    let chain = seq![s, v];
    assert(is_chain(g, chain));
    assert(chain[0] == s && chain.last() == v);
}

/// A step that needs a step that depends on `a` depends on `a`.
pub proof fn lemma_depends_step(g: Graph, s: int, v: int, a: int)
    requires
        needs(g, s, v),
        depends_on(g, v, a),
    ensures
        depends_on(g, s, a),
{
    let tail = choose|chain: Seq<int>| is_chain(g, chain) && chain[0] == v && chain.last() == a;
    let chain = seq![s] + tail;
    assert forall|i: int| 0 <= i < chain.len() - 1 implies needs(
        g,
        #[trigger] chain[i],
        chain[i + 1],
    ) by {
        if i > 0 {
            assert(chain[i] == tail[i - 1]);
            assert(chain[i + 1] == tail[i]);
            assert(needs(g, tail[i - 1], tail[i]));
        } else {
            assert(chain[1] == tail[0]);
        }
    }
    assert(chain.last() == tail.last());
    assert(is_chain(g, chain) && chain[0] == s && chain.last() == a);
}

/// A step that depends on `a` needs `a` itself or needs a step that depends
/// on `a`.
pub proof fn lemma_depends_unfold(g: Graph, s: int, a: int)
    requires
        depends_on(g, s, a),
    ensures
        needs(g, s, a) || exists|v: int| needs(g, s, v) && depends_on(g, v, a),
{
    let chain = choose|chain: Seq<int>| is_chain(g, chain) && chain[0] == s && chain.last() == a;
    assert(needs(g, chain[0], chain[1]));
    if chain.len() > 2 {
        let tail = chain.drop_first();
        assert forall|i: int| 0 <= i < tail.len() - 1 implies needs(
            g,
            #[trigger] tail[i],
            tail[i + 1],
        ) by {
            assert(needs(g, chain[i + 1], chain[i + 2]));
        }
        assert(tail.last() == chain.last());
        assert(is_chain(g, tail) && tail[0] == chain[1] && tail.last() == a);
        assert(depends_on(g, chain[1], a));
    }
}

proof fn lemma_chain_descends(g: Graph, rank: Seq<nat>, chain: Seq<int>)
    requires
        graph_wf(g),
        ranked_by(g, rank),
        is_chain(g, chain),
    ensures
        0 <= chain[0] < g.len(),
        0 <= chain.last() < g.len(),
        rank[chain.last()] < rank[chain[0]],
    decreases chain.len(),
{
    assert(needs(g, chain[0], chain[1]));
    let k = choose|k: int| 0 <= k < g[chain[0]].len() && g[chain[0]][k] == chain[1];
    assert(rank[g[chain[0]][k]] < rank[chain[0]]);
    if chain.len() > 2 {
        let tail = chain.drop_first();
        assert forall|i: int| 0 <= i < tail.len() - 1 implies needs(
            g,
            #[trigger] tail[i],
            tail[i + 1],
        ) by {
            assert(needs(g, chain[i + 1], chain[i + 2]));
        }
        lemma_chain_descends(g, rank, tail);
        assert(tail.last() == chain.last());
    }
}

/// In a graph without cycles no step depends on itself.
pub proof fn lemma_acyclic_no_self_dependency(g: Graph, s: int)
    requires
        graph_wf(g),
        acyclic(g),
    ensures
        !depends_on(g, s, s),
{
    if depends_on(g, s, s) {
        let rank = choose|rank: Seq<nat>| ranked_by(g, rank);
        let chain = choose|chain: Seq<int>|
            is_chain(g, chain) && chain[0] == s && chain.last() == s;
        lemma_chain_descends(g, rank, chain);
    }
}

/// Step `u` needs a step of the set `open_steps`.
#[verifier::opaque]
spec fn open_need(g: Graph, open_steps: Set<int>, u: int) -> bool {
    exists|k: int| 0 <= k < g[u].len() && open_steps.contains(g[u][k])
}

/// Every step of the set needs a step of the set.
#[verifier::opaque]
spec fn closed_under_needs(g: Graph, open_steps: Set<int>) -> bool {
    forall|u: int| #[trigger] open_steps.contains(u) ==> 0 <= u < g.len() && open_need(g, open_steps, u)
}

proof fn lemma_open_need(g: Graph, open_steps: Set<int>, u: int) -> (k: int)
    requires
        closed_under_needs(g, open_steps),
        open_steps.contains(u),
    ensures
        0 <= u < g.len(),
        0 <= k < g[u].len(),
        open_steps.contains(g[u][k]),
{
    reveal(closed_under_needs);
    reveal(open_need);
    choose|k: int| 0 <= k < g[u].len() && open_steps.contains(g[u][k])
}

/// Where every step of a set needs a step of the set, a numbering that puts
/// each step above all it needs gives the steps of the set numbers beyond
/// every bound.
proof fn lemma_closed_set_unbounded(
    g: Graph,
    rank: Seq<nat>,
    open_steps: Set<int>,
    s: int,
    bound: nat,
)
    requires
        graph_wf(g),
        ranked_by(g, rank),
        open_steps.contains(s),
        closed_under_needs(g, open_steps),
    ensures
        rank[s] >= bound,
    decreases bound,
{
    if bound > 0 {
        let k = lemma_open_need(g, open_steps, s);
        assert(rank[g[s][k]] < rank[s]);
        lemma_closed_set_unbounded(g, rank, open_steps, g[s][k], (bound - 1) as nat);
    }
}

/// The steps that `done` leaves unmarked.
spec fn unmarked(done: Seq<bool>) -> Set<int> {
    Set::new(|u: int| 0 <= u < done.len() && !done[u])
}

pub open spec fn graph_of(needs: Seq<Vec<usize>>) -> Graph {
    Seq::new(needs.len(), |s: int| Seq::new(needs[s]@.len(), |k: int| needs[s]@[k] as int))
}

/// Whether all that step `s` needs is marked in `done`.
fn all_done(needs: &Vec<Vec<usize>>, done: &Vec<bool>, s: usize) -> (all: bool)
    requires
        graph_wf(graph_of(needs@)),
        done@.len() == needs@.len(),
        s < needs@.len(),
    ensures
        all == forall|k: int| 0 <= k < needs@[s as int]@.len() ==> done@[needs@[s as int]@[k] as int],
{
    let list = &needs[s];
    let n = list.len();
    let mut k: usize = 0;
    while k < n
        invariant
            graph_wf(graph_of(needs@)),
            done@.len() == needs@.len(),
            s < needs@.len(),
            list == needs@[s as int],
            n == list@.len(),
            k <= n,
            forall|j: int| 0 <= j < k ==> done@[list@[j] as int],
        decreases n - k,
    {
        proof {
            let g = graph_of(needs@);
            assert(g[s as int][k as int] == list@[k as int]);
            assert(0 <= g[s as int][k as int] < g.len());
        }
        if !done[list[k]] {
            return false;
        }
        k += 1;
    }
    true
}

/// Step `v` stands in `order` before place `i`.
pub open spec fn comes_before(order: Seq<usize>, i: int, v: int) -> bool {
    exists|j: int| 0 <= j < i && order[j] == v
}

/// An order of the steps in which every step comes after all it needs.
pub open spec fn is_topological(g: Graph, order: Seq<usize>) -> bool {
    &&& order.len() == g.len()
    &&& forall|i: int| 0 <= i < order.len() ==> (#[trigger] order[i]) < g.len()
    &&& forall|i: int, j: int| 0 <= i < j < order.len() ==> order[i] != order[j]
    &&& forall|i: int, k: int|
        0 <= i < order.len() && 0 <= k < g[order[i] as int].len() ==> comes_before(
            order,
            i,
            #[trigger] g[order[i] as int][k],
        )
    &&& forall|s: int| 0 <= s < g.len() ==> #[trigger] comes_before(order, order.len() as int, s)
}

/// The steps marked in `done` are those in `order`, `place` says where each
/// stands in it, and each stands after all it needs.
#[verifier::opaque]
spec fn placed(g: Graph, done: Seq<bool>, order: Seq<usize>, place: Seq<nat>) -> bool {
    let n = g.len();
    &&& graph_wf(g)
    &&& done.len() == n
    &&& place.len() == n
    &&& order.len() <= n
    &&& forall|j: int|
        0 <= j < order.len() ==> (#[trigger] order[j]) < n && done[order[j] as int]
            && place[order[j] as int] == j
    &&& forall|s: int|
        0 <= s < n && #[trigger] done[s] ==> place[s] < order.len() && order[place[s] as int] == s
    &&& forall|s: int, k: int|
        0 <= s < n && done[s] && 0 <= k < g[s].len() ==> done[#[trigger] g[s][k]] && place[g[s][k]]
            < place[s]
}

/// Every unmarked step of `0..upto` needs an unmarked step.
#[verifier::opaque]
spec fn blocked_below(g: Graph, done: Seq<bool>, upto: int) -> bool {
    forall|u: int| 0 <= u < upto && !#[trigger] done[u] ==> open_need(g, unmarked(done), u)
}

proof fn lemma_placed_start(g: Graph, done: Seq<bool>, place: Seq<nat>)
    requires
        graph_wf(g),
        done.len() == g.len(),
        place.len() == g.len(),
        forall|j: int| 0 <= j < done.len() ==> !done[j],
    ensures
        placed(g, done, Seq::<usize>::empty(), place),
{
    reveal(placed);
}

proof fn lemma_placed_mark(g: Graph, done: Seq<bool>, order: Seq<usize>, place: Seq<nat>, at: usize)
    requires
        placed(g, done, order, place),
        at < g.len(),
        !done[at as int],
        forall|k: int| 0 <= k < g[at as int].len() ==> done[#[trigger] g[at as int][k]],
    ensures
        order.len() < g.len(),
        placed(
            g,
            done.update(at as int, true),
            order.push(at),
            place.update(at as int, order.len()),
        ),
{
    reveal(placed);
    let s = at as int;
    lemma_order_has_room(done, order, place, s);
    let done2 = done.update(s, true);
    let order2 = order.push(at);
    let place2 = place.update(s, order.len());
    assert forall|j: int| 0 <= j < order2.len() implies (#[trigger] order2[j]) < g.len()
        && done2[order2[j] as int] && place2[order2[j] as int] == j by {
        if j < order.len() {
            assert(order2[j] == order[j]);
            assert(done[order[j] as int]);
        }
    }
    assert forall|u: int| 0 <= u < g.len() && #[trigger] done2[u] implies place2[u]
        < order2.len() && order2[place2[u] as int] == u by {
        if u != s {
            assert(done[u]);
            assert(order2[place[u] as int] == order[place[u] as int]);
        }
    }
    assert forall|u: int, k: int| 0 <= u < g.len() && done2[u] && 0 <= k < g[u].len() implies done2[#[trigger] g[u][k]]
        && place2[g[u][k]] < place2[u] by {
        let v = g[u][k];
        if u == s {
            assert(done[v]);
            assert(place[v] < order.len());
        } else {
            assert(done[u]);
            assert(done[v] && place[v] < place[u]);
        }
    }
}

proof fn lemma_placed_sorted(g: Graph, done: Seq<bool>, order: Seq<usize>, place: Seq<nat>)
    requires
        placed(g, done, order, place),
        order.len() == g.len(),
    ensures
        acyclic(g),
        is_topological(g, order),
{
    reveal(placed);
    assert forall|s: int| 0 <= s < g.len() implies #[trigger] done[s] by {
        lemma_full_order_covers(done, order, place, s);
    }
    assert(ranked_by(g, place));
    assert forall|i: int, k: int|
        0 <= i < order.len() && 0 <= k < g[order[i] as int].len() implies comes_before(
        order,
        i,
        #[trigger] g[order[i] as int][k],
    ) by {
        let s = order[i] as int;
        let v = g[s][k];
        assert(done[s]);
        assert(place[s] == i);
        assert(done[v] && place[v] < place[s]);
        let j = place[v] as int;
        assert(order[j] == v);
        assert(0 <= j < i && order[j] == v);
    }
    assert forall|i: int, j: int| 0 <= i < j < order.len() implies order[i] != order[j] by {
        assert(place[order[i] as int] == i);
        assert(place[order[j] as int] == j);
    }
    assert forall|i: int| 0 <= i < order.len() implies (#[trigger] order[i]) < g.len() by {}
    assert forall|s: int| 0 <= s < g.len() implies #[trigger] comes_before(
        order,
        order.len() as int,
        s,
    ) by {
        assert(done[s]);
        let j = place[s] as int;
        assert(0 <= j < order.len() && order[j] == s);
    }
}

proof fn lemma_placed_stuck(g: Graph, done: Seq<bool>, order: Seq<usize>, place: Seq<nat>)
    requires
        placed(g, done, order, place),
        blocked_below(g, done, g.len() as int),
        order.len() != g.len(),
    ensures
        !acyclic(g),
{
    let open_steps = unmarked(done);
    assert(graph_wf(g) && done.len() == g.len()) by {
        reveal(placed);
    }
    assert(exists|u: int| 0 <= u < done.len() && !done[u]) by {
        reveal(placed);
        lemma_short_order_misses(done, order, place);
    }
    let missing = choose|u: int| 0 <= u < done.len() && !done[u];
    assert(open_steps.contains(missing));
    assert(closed_under_needs(g, open_steps)) by {
        reveal(closed_under_needs);
        reveal(blocked_below);
    }
    if acyclic(g) {
        let rank = choose|rank: Seq<nat>| ranked_by(g, rank);
        lemma_closed_set_unbounded(g, rank, open_steps, missing, rank[missing] + 1);
    }
}

proof fn lemma_blocked_next(g: Graph, done: Seq<bool>, upto: int, k: int)
    requires
        blocked_below(g, done, upto),
        0 <= upto < done.len(),
        done[upto] || (0 <= k < g[upto].len() && 0 <= g[upto][k] < done.len() && !done[g[upto][k]]),
    ensures
        blocked_below(g, done, upto + 1),
{
    reveal(blocked_below);
    if !done[upto] {
        assert(unmarked(done).contains(g[upto][k]));
        assert(open_need(g, unmarked(done), upto)) by {
            reveal(open_need);
        }
    }
}

proof fn lemma_blocked_none(g: Graph, done: Seq<bool>)
    ensures
        blocked_below(g, done, 0),
{
    reveal(blocked_below);
}

/// An order of the steps in which every step comes after all it needs,
/// where there is one: there is one exactly where the graph has no cycle.
pub fn topological_order(needs: &Vec<Vec<usize>>) -> (sorted: Option<Vec<usize>>)
    requires
        graph_wf(graph_of(needs@)),
    ensures
        sorted.is_some() == acyclic(graph_of(needs@)),
        match sorted {
            Some(order) => is_topological(graph_of(needs@), order@),
            None => true,
        },
{
    let ghost g = graph_of(needs@);
    let n = needs.len();
    let mut done: Vec<bool> = Vec::new();
    let mut i: usize = 0;
    while i < n
        invariant
            i <= n,
            done@.len() == i,
            forall|j: int| 0 <= j < i ==> !done@[j],
        decreases n - i,
    {
        done.push(false);
        i += 1;
    }
    let mut order: Vec<usize> = Vec::new();
    let ghost mut place: Seq<nat> = Seq::new(n as nat, |s: int| 0nat);
    proof {
        lemma_placed_start(g, done@, place);
    }
    loop
        invariant_except_break
            n == needs@.len(),
            g == graph_of(needs@),
            graph_wf(g),
            done@.len() == n,
            order@.len() <= n,
            placed(g, done@, order@, place),
        ensures
            n == needs@.len(),
            g == graph_of(needs@),
            placed(g, done@, order@, place),
            blocked_below(g, done@, n as int),
        decreases n - order@.len(),
    {
        let ghost before = order@.len();
        let mut changed = false;
        let mut s: usize = 0;
        proof {
            lemma_blocked_none(g, done@);
        }
        while s < n
            invariant
                n == needs@.len(),
                g == graph_of(needs@),
                graph_wf(g),
                done@.len() == n,
                s <= n,
                order@.len() <= n,
                before <= order@.len(),
                changed == (order@.len() > before),
                placed(g, done@, order@, place),
                !changed ==> blocked_below(g, done@, s as int),
            decreases n - s,
        {
            if !done[s] {
                let ready = all_done(needs, &done, s);
                if ready {
                    proof {
                        assert forall|k: int| 0 <= k < g[s as int].len() implies done@[#[trigger] g[s as int][k]] by {
                            assert(g[s as int][k] == needs@[s as int]@[k]);
                        }
                        lemma_placed_mark(g, done@, order@, place, s);
                        place = place.update(s as int, order@.len() as nat);
                    }
                    done.set(s, true);
                    order.push(s);
                    changed = true;
                } else {
                    proof {
                        let k = choose|k: int|
                            0 <= k < needs@[s as int]@.len() && !done@[needs@[s as int]@[k] as int];
                        assert(g[s as int][k] == needs@[s as int]@[k]);
                        assert(0 <= g[s as int][k] < g.len());
                        if !changed {
                            lemma_blocked_next(g, done@, s as int, k);
                        }
                    }
                }
            } else {
                proof {
                    if !changed {
                        lemma_blocked_next(g, done@, s as int, 0);
                    }
                }
            }
            s += 1;
        }
        if !changed {
            break ;
        }
    }
    if order.len() == n {
        proof {
            lemma_placed_sorted(g, done@, order@, place);
        }
        Some(order)
    } else {
        proof {
            lemma_placed_stuck(g, done@, order@, place);
        }
        None
    }
}

/// The marked steps of `0..upto`.
spec fn marked_below(done: Seq<bool>, upto: int) -> Set<int> {
    Set::new(|s: int| 0 <= s < upto && done[s])
}

proof fn lemma_marked_below(done: Seq<bool>, upto: int)
    requires
        0 <= upto <= done.len(),
    ensures
        marked_below(done, upto).finite(),
        marked_below(done, upto).len() <= upto,
        (forall|s: int| 0 <= s < upto ==> done[s]) ==> marked_below(done, upto).len() == upto,
        (exists|s: int| 0 <= s < upto && !done[s]) ==> marked_below(done, upto).len() < upto,
    decreases upto,
{
    if upto == 0 {
        assert(marked_below(done, upto) =~= Set::<int>::empty());
    } else {
        lemma_marked_below(done, upto - 1);
        let before = marked_below(done, upto - 1);
        if done[upto - 1] {
            assert(marked_below(done, upto) =~= before.insert(upto - 1));
        } else {
            assert(marked_below(done, upto) =~= before);
        }
    }
}

/// The places of the marked steps are as many as the order is long.
proof fn lemma_marked_count(done: Seq<bool>, order: Seq<usize>, place: Seq<nat>)
    requires
        place.len() == done.len(),
        forall|j: int| 0 <= j < order.len() ==> (#[trigger] order[j]) < done.len() && done[order[j] as int]
            && place[order[j] as int] == j,
        forall|s: int| 0 <= s < done.len() && #[trigger] done[s] ==> place[s] < order.len() && order[place[s] as int] == s,
    ensures
        marked_below(done, done.len() as int).len() == order.len(),
    decreases order.len(),
{
    let n = done.len() as int;
    lemma_marked_below(done, n);
    let marked = marked_below(done, n);
    let steps = Set::new(|s: int| exists|j: int| 0 <= j < order.len() && order[j] as int == s);
    assert forall|s: int| marked.contains(s) <==> steps.contains(s) by {
        if marked.contains(s) {
            assert(order[place[s] as int] == s);
        }
        if steps.contains(s) {
            let j = choose|j: int| 0 <= j < order.len() && order[j] as int == s;
            assert(done[order[j] as int]);
        }
    }
    assert(marked =~= steps);
    lemma_order_steps_count(order, place);
}

/// An order in which every step has its own place names as many steps as
/// it is long.
proof fn lemma_order_steps_count(order: Seq<usize>, place: Seq<nat>)
    requires
        forall|j: int| 0 <= j < order.len() ==> (#[trigger] order[j]) < place.len() && place[order[j] as int] == j,
    ensures
        Set::new(|s: int| exists|j: int| 0 <= j < order.len() && order[j] as int == s).finite(),
        Set::new(|s: int| exists|j: int| 0 <= j < order.len() && order[j] as int == s).len()
            == order.len(),
    decreases order.len(),
{
    let steps = Set::new(|s: int| exists|j: int| 0 <= j < order.len() && order[j] as int == s);
    if order.len() == 0 {
        assert(steps =~= Set::<int>::empty());
    } else {
        let init = order.drop_last();
        let last = order.last() as int;
        assert forall|j: int| 0 <= j < init.len() implies (#[trigger] init[j]) < place.len() && place[init[j] as int] == j by {
            assert(init[j] == order[j]);
        }
        lemma_order_steps_count(init, place);
        let fewer = Set::new(|s: int| exists|j: int| 0 <= j < init.len() && init[j] as int == s);
        assert forall|s: int| steps.contains(s) <==> fewer.insert(last).contains(s) by {
            if steps.contains(s) {
                let j = choose|j: int| 0 <= j < order.len() && order[j] as int == s;
                if j < init.len() {
                    assert(init[j] == order[j]);
                }
            }
            if fewer.contains(s) {
                let j = choose|j: int| 0 <= j < init.len() && init[j] as int == s;
                assert(order[j] == init[j]);
            }
            if s == last {
                assert(order[order.len() - 1] as int == s);
            }
        }
        assert(steps =~= fewer.insert(last));
        if fewer.contains(last) {
            let j = choose|j: int| 0 <= j < init.len() && init[j] as int == last;
            assert(order[j] == init[j]);
            assert(place[order[j] as int] == j);
            assert(place[order[order.len() - 1] as int] == order.len() - 1);
        }
    }
}

/// While a step is unmarked, the order is shorter than the graph.
proof fn lemma_order_has_room(done: Seq<bool>, order: Seq<usize>, place: Seq<nat>, s: int)
    requires
        place.len() == done.len(),
        0 <= s < done.len(),
        !done[s],
        forall|j: int| 0 <= j < order.len() ==> (#[trigger] order[j]) < done.len() && done[order[j] as int]
            && place[order[j] as int] == j,
        forall|s: int| 0 <= s < done.len() && #[trigger] done[s] ==> place[s] < order.len() && order[place[s] as int] == s,
    ensures
        order.len() < done.len(),
{
    lemma_marked_count(done, order, place);
    lemma_marked_below(done, done.len() as int);
}

/// An order as long as the graph holds every step.
proof fn lemma_full_order_covers(done: Seq<bool>, order: Seq<usize>, place: Seq<nat>, s: int)
    requires
        place.len() == done.len(),
        order.len() == done.len(),
        0 <= s < done.len(),
        forall|j: int| 0 <= j < order.len() ==> (#[trigger] order[j]) < done.len() && done[order[j] as int]
            && place[order[j] as int] == j,
        forall|s: int| 0 <= s < done.len() && #[trigger] done[s] ==> place[s] < order.len() && order[place[s] as int] == s,
    ensures
        done[s],
{
    if !done[s] {
        lemma_order_has_room(done, order, place, s);
    }
}

/// An order shorter than the graph leaves a step out.
proof fn lemma_short_order_misses(done: Seq<bool>, order: Seq<usize>, place: Seq<nat>)
    requires
        place.len() == done.len(),
        order.len() < done.len(),
        forall|j: int| 0 <= j < order.len() ==> (#[trigger] order[j]) < done.len() && done[order[j] as int]
            && place[order[j] as int] == j,
        forall|s: int| 0 <= s < done.len() && #[trigger] done[s] ==> place[s] < order.len() && order[place[s] as int] == s,
    ensures
        exists|u: int| 0 <= u < done.len() && !done[u],
{
    lemma_marked_count(done, order, place);
    lemma_marked_below(done, done.len() as int);
}

} // verus!
