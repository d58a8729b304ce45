//! What holds of every sweep: pinned paths stay, stale visits go, the
//! capacity is kept, and the state stays consistent.
use vstd::prelude::*;
use vstd::multiset::Multiset;
use crate::worker::eviction::heap::{is_least, least, lemma_least_exists};
use crate::worker::eviction::model::EvictionModel;

verus! {

/// The state after the visits of `visits`, each a path and its instant, were
/// recorded in turn from nothing.
pub open spec fn after_visits(visits: Seq<(Seq<char>, int)>) -> EvictionModel
    decreases visits.len(),
{
    if visits.len() == 0 {
        EvictionModel::empty()
    } else {
        after_visits(visits.drop_last()).visit(visits.last().0, visits.last().1)
    }
}

/// As `consistent`, in the middle of a sweep: an instant that was put aside
/// counts as still to be looked at.
pub open spec fn consistent_with(m: EvictionModel, held: Multiset<int>) -> bool {
    (EvictionModel { items: m.items.add(held), ..m }).consistent()
}

/// Every instant put aside records pinned paths and nothing else.
pub open spec fn held_are_pinned(m: EvictionModel, held: Multiset<int>) -> bool {
    forall|t: int| #[trigger]
        held.contains(t) ==> !m.paths_at(t).is_empty() && m.paths_at(t).subset_of(m.preserve)
}

/// A visit keeps a consistent state consistent.
pub proof fn lemma_visit_consistent(m: EvictionModel, path: Seq<char>, now: int)
    requires
        m.consistent(),
    ensures
        m.visit(path, now).consistent(),
{
    let after = m.visit(path, now);
    assert forall|t: int| #[trigger] after.time_to_data.contains_key(t) implies after.items.contains(
        t,
    ) && !after.time_to_data[t].is_empty() by {
        if t == now {
            assert(after.time_to_data[t].contains(path));
        } else {
            assert(m.time_to_data.contains_key(t));
        }
    }
    assert forall|p: Seq<char>| #[trigger] after.data_to_time.contains_key(p) implies after.paths_at(
        after.data_to_time[p],
    ).contains(p) by {
        if p != path {
            assert(m.data_to_time.contains_key(p));
            assert(m.paths_at(m.data_to_time[p]).contains(p));
        }
    }
}

/// Pinning and visiting keeps a consistent state consistent.
pub proof fn lemma_enter_consistent(m: EvictionModel, path: Seq<char>, now: int)
    requires
        m.consistent(),
    ensures
        m.enter(path, now).consistent(),
{
    lemma_pin_consistent(m, path);
    lemma_visit_consistent(EvictionModel { preserve: m.preserve.insert(path), ..m }, path, now);
}

/// Pinning keeps a consistent state consistent.
pub proof fn lemma_pin_consistent(m: EvictionModel, path: Seq<char>)
    requires
        m.consistent(),
    ensures
        (EvictionModel { preserve: m.preserve.insert(path), ..m }).consistent(),
{
    let after = EvictionModel { preserve: m.preserve.insert(path), ..m };
    assert forall|p: Seq<char>| #[trigger] after.data_to_time.contains_key(p) implies after.paths_at(
        after.data_to_time[p],
    ).contains(p) by {
        assert(m.data_to_time.contains_key(p));
        assert(m.paths_at(m.data_to_time[p]).contains(p));
    }
}

/// Unpinning keeps a consistent state consistent.
pub proof fn lemma_leave_consistent(m: EvictionModel, path: Seq<char>)
    requires
        m.consistent(),
    ensures
        m.leave(path).consistent(),
{
    let after = m.leave(path);
    assert forall|p: Seq<char>| #[trigger] after.data_to_time.contains_key(p) implies after.paths_at(
        after.data_to_time[p],
    ).contains(p) by {
        assert(m.data_to_time.contains_key(p));
        assert(m.paths_at(m.data_to_time[p]).contains(p));
    }
}

/// Any run of visits from nothing ends in a consistent state without pinned
/// paths, whose instants are those of the visits.
pub proof fn lemma_after_visits(visits: Seq<(Seq<char>, int)>)
    ensures
        after_visits(visits).consistent(),
        after_visits(visits).preserve == Set::<Seq<char>>::empty(),
        forall|t: int|
            after_visits(visits).items.contains(t) ==> exists|i: int|
                0 <= i < visits.len() && visits[i].1 == t,
    decreases visits.len(),
{
    if visits.len() > 0 {
        let init = visits.drop_last();
        lemma_after_visits(init);
        lemma_visit_consistent(after_visits(init), visits.last().0, visits.last().1);
        assert forall|t: int| after_visits(visits).items.contains(t) implies exists|i: int|
            0 <= i < visits.len() && visits[i].1 == t by {
            if t == visits.last().1 {
                assert(visits[visits.len() - 1].1 == t);
            } else {
                assert(after_visits(init).items.contains(t));
                let i = choose|i: int| 0 <= i < init.len() && init[i].1 == t;
                assert(visits[i].1 == t);
            }
        }
    }
}

proof fn lemma_expire_consistent(m: EvictionModel, held: Multiset<int>, t: int)
    requires
        consistent_with(m, held),
        m.items.contains(t),
    ensures
        consistent_with(
            m.expire(t),
            if m.pinned_at(t).is_empty() {
                held
            } else {
                held.insert(t)
            },
        ),
{
    let after = m.expire(t);
    let kept = if m.pinned_at(t).is_empty() {
        held
    } else {
        held.insert(t)
    };
    let whole = EvictionModel { items: m.items.add(held), ..m };
    assert forall|u: int| #[trigger] after.time_to_data.contains_key(u) implies after.items.add(
        kept,
    ).contains(u) && !after.time_to_data[u].is_empty() by {
        if u != t {
            assert(whole.time_to_data.contains_key(u));
            assert(whole.items.contains(u));
        }
    }
    assert forall|p: Seq<char>| #[trigger] after.data_to_time.contains_key(p) implies after.paths_at(
        after.data_to_time[p],
    ).contains(p) by {
        assert(whole.data_to_time.contains_key(p));
        assert(whole.paths_at(whole.data_to_time[p]).contains(p));
        assert(!m.expired_at(t).contains(p));
        if m.data_to_time[p] == t {
            assert(m.pinned_at(t).contains(p));
        }
    }
}

proof fn lemma_sweep_from_consistent(
    m: EvictionModel,
    held: Multiset<int>,
    evicted: Set<Seq<char>>,
    now: int,
    ttl: int,
    capacity: int,
)
    requires
        consistent_with(m, held),
    ensures
        m.sweep_from(held, evicted, now, ttl, capacity).state.consistent(),
    decreases m.items.len(),
{
    if m.due(now, ttl, capacity) {
        lemma_least_exists(m.items);
        let t = least(m.items);
        lemma_expire_consistent(m, held, t);
        lemma_sweep_from_consistent(
            m.expire(t),
            if m.pinned_at(t).is_empty() {
                held
            } else {
                held.insert(t)
            },
            evicted.union(m.expired_at(t)),
            now,
            ttl,
            capacity,
        );
    }
}

/// A sweep keeps a consistent state consistent.
pub proof fn lemma_sweep_consistent(m: EvictionModel, now: int, ttl: int, capacity: int)
    requires
        m.consistent(),
    ensures
        m.sweep(now, ttl, capacity).state.consistent(),
{
    assert(m.items.add(Multiset::empty()) =~= m.items);
    assert((EvictionModel { items: m.items.add(Multiset::empty()), ..m }) == m);
    lemma_sweep_from_consistent(m, Multiset::empty(), Set::empty(), now, ttl, capacity);
}

proof fn lemma_sweep_from_spares_pinned(
    m: EvictionModel,
    held: Multiset<int>,
    evicted: Set<Seq<char>>,
    now: int,
    ttl: int,
    capacity: int,
    path: Seq<char>,
)
    requires
        m.preserve.contains(path),
        !evicted.contains(path),
    ensures
        ({
            let swept = m.sweep_from(held, evicted, now, ttl, capacity);
            &&& !swept.evicted.contains(path)
            &&& swept.state.preserve == m.preserve
            &&& forall|t: int| m.paths_at(t).contains(path) ==> swept.state.paths_at(t).contains(path)
            &&& m.data_to_time.contains_key(path) ==> swept.state.data_to_time.contains_key(path)
                && swept.state.data_to_time[path] == m.data_to_time[path]
        }),
    decreases m.items.len(),
{
    if m.due(now, ttl, capacity) {
        lemma_least_exists(m.items);
        let t = least(m.items);
        let after = m.expire(t);
        assert forall|u: int| m.paths_at(u).contains(path) implies after.paths_at(u).contains(
            path,
        ) by {
            if u == t {
                assert(m.pinned_at(t).contains(path));
            }
        }
        lemma_sweep_from_spares_pinned(
            after,
            if m.pinned_at(t).is_empty() {
                held
            } else {
                held.insert(t)
            },
            evicted.union(m.expired_at(t)),
            now,
            ttl,
            capacity,
            path,
        );
    }
}

/// No sweep chooses a pinned path, whatever its age and however many visits
/// are on record: the path stays pinned, it stays recorded wherever it was,
/// and its latest instant stays known.
pub proof fn lemma_sweep_spares_pinned(
    m: EvictionModel,
    now: int,
    ttl: int,
    capacity: int,
    path: Seq<char>,
)
    requires
        m.preserve.contains(path),
    ensures
        ({
            let swept = m.sweep(now, ttl, capacity);
            &&& !swept.evicted.contains(path)
            &&& swept.state.preserve.contains(path)
            &&& forall|t: int| m.paths_at(t).contains(path) ==> swept.state.paths_at(t).contains(path)
            &&& m.data_to_time.contains_key(path) ==> swept.state.data_to_time.contains_key(path)
                && swept.state.data_to_time[path] == m.data_to_time[path]
        }),
{
    lemma_sweep_from_spares_pinned(m, Multiset::empty(), Set::empty(), now, ttl, capacity, path);
}

proof fn lemma_sweep_from_past_ttl(
    m: EvictionModel,
    evicted: Set<Seq<char>>,
    now: int,
    ttl: int,
    capacity: int,
)
    requires
        m.consistent(),
        m.preserve.is_empty(),
        forall|t: int| m.items.contains(t) ==> now - t >= ttl,
    ensures
        ({
            let swept = m.sweep_from(Multiset::empty(), evicted, now, ttl, capacity);
            &&& swept.state.items.len() == 0
            &&& swept.held.len() == 0
            &&& swept.state.time_to_data == Map::<int, Set<Seq<char>>>::empty()
            &&& swept.state.data_to_time == Map::<Seq<char>, int>::empty()
        }),
    decreases m.items.len(),
{
    let none = Multiset::<int>::empty();
    assert(m.items.add(none) =~= m.items);
    assert((EvictionModel { items: m.items.add(none), ..m }) == m);
    if m.items.len() > 0 {
        lemma_least_exists(m.items);
        let t = least(m.items);
        assert(m.due(now, ttl, capacity));
        assert(m.pinned_at(t) =~= Set::<Seq<char>>::empty());
        lemma_expire_consistent(m, none, t);
        let after = m.expire(t);
        assert(after.items.add(none) =~= after.items);
        assert((EvictionModel { items: after.items.add(none), ..after }) == after);
        assert forall|u: int| after.items.contains(u) implies now - u >= ttl by {
            assert(m.items.contains(u));
        }
        lemma_sweep_from_past_ttl(after, evicted.union(m.expired_at(t)), now, ttl, capacity);
    } else {
        let swept = m.sweep_from(none, evicted, now, ttl, capacity);
        assert(swept.state == m);
        assert forall|t: int| !m.time_to_data.contains_key(t) by {
            if m.time_to_data.contains_key(t) {
                assert(m.items.contains(t));
            }
        }
        assert(m.time_to_data =~= Map::<int, Set<Seq<char>>>::empty());
        assert forall|p: Seq<char>| !m.data_to_time.contains_key(p) by {
            if m.data_to_time.contains_key(p) {
                assert(m.paths_at(m.data_to_time[p]).contains(p));
            }
        }
        assert(m.data_to_time =~= Map::<Seq<char>, int>::empty());
    }
}

/// In a consistent state without pinned paths, a sweep at which every
/// instant on record is at least `ttl` old leaves nothing: no instant, no
/// record, no path.
pub proof fn lemma_sweep_past_ttl(m: EvictionModel, now: int, ttl: int, capacity: int)
    requires
        m.consistent(),
        m.preserve.is_empty(),
        forall|t: int| m.items.contains(t) ==> now - t >= ttl,
    ensures
        m.sweep(now, ttl, capacity).state == EvictionModel::empty(),
        m.sweep(now, ttl, capacity).held == Multiset::<int>::empty(),
{
    lemma_sweep_from_past_ttl(m, Set::empty(), now, ttl, capacity);
    let swept = m.sweep(now, ttl, capacity);
    lemma_sweep_from_spares_nothing_new(m, Multiset::empty(), Set::empty(), now, ttl, capacity);
    vstd::multiset::lemma_multiset_empty_len(swept.state.items);
    vstd::multiset::lemma_multiset_empty_len(swept.held);
    assert(swept.state.preserve =~= Set::<Seq<char>>::empty());
    assert(swept.state =~= EvictionModel::empty());
}

/// The path is recorded at some instant.
pub open spec fn on_record(m: EvictionModel, path: Seq<char>) -> bool {
    exists|t: int| m.paths_at(t).contains(path)
}

proof fn lemma_sweep_from_past_ttl_evicts(
    m: EvictionModel,
    evicted: Set<Seq<char>>,
    now: int,
    ttl: int,
    capacity: int,
    path: Seq<char>,
)
    requires
        m.consistent(),
        m.preserve.is_empty(),
        forall|t: int| m.items.contains(t) ==> now - t >= ttl,
        on_record(m, path) || evicted.contains(path),
    ensures
        m.sweep_from(Multiset::empty(), evicted, now, ttl, capacity).evicted.contains(path),
    decreases m.items.len(),
{
    let none = Multiset::<int>::empty();
    assert(m.items.add(none) =~= m.items);
    assert((EvictionModel { items: m.items.add(none), ..m }) == m);
    if m.items.len() > 0 {
        lemma_least_exists(m.items);
        let first = least(m.items);
        assert(m.due(now, ttl, capacity));
        assert(m.pinned_at(first) =~= Set::<Seq<char>>::empty());
        lemma_expire_consistent(m, none, first);
        let after = m.expire(first);
        let chosen = evicted.union(m.expired_at(first));
        assert(after.items.add(none) =~= after.items);
        assert((EvictionModel { items: after.items.add(none), ..after }) == after);
        assert forall|u: int| after.items.contains(u) implies now - u >= ttl by {
            assert(m.items.contains(u));
        }
        if !evicted.contains(path) {
            let t = choose|t: int| m.paths_at(t).contains(path);
            if t != first {
                assert(after.paths_at(t) == m.paths_at(t));
                assert(on_record(after, path));
            } else if m.superseded(path, first) {
                let u = m.data_to_time[path];
                assert(m.paths_at(u).contains(path));
                assert(after.paths_at(u) == m.paths_at(u));
                assert(on_record(after, path));
            } else {
                assert(m.expired_at(first).contains(path));
            }
        }
        lemma_sweep_from_past_ttl_evicts(after, chosen, now, ttl, capacity, path);
    } else {
        if on_record(m, path) {
            let t = choose|t: int| m.paths_at(t).contains(path);
            assert(m.time_to_data.contains_key(t));
            assert(m.items.contains(t));
        }
    }
}

proof fn lemma_sweep_from_evicts_recorded(
    m: EvictionModel,
    held: Multiset<int>,
    evicted: Set<Seq<char>>,
    now: int,
    ttl: int,
    capacity: int,
    path: Seq<char>,
)
    requires
        m.sweep_from(held, evicted, now, ttl, capacity).evicted.contains(path),
    ensures
        evicted.contains(path) || on_record(m, path),
    decreases m.items.len(),
{
    if m.due(now, ttl, capacity) {
        lemma_least_exists(m.items);
        let first = least(m.items);
        let after = m.expire(first);
        lemma_sweep_from_evicts_recorded(
            after,
            if m.pinned_at(first).is_empty() {
                held
            } else {
                held.insert(first)
            },
            evicted.union(m.expired_at(first)),
            now,
            ttl,
            capacity,
            path,
        );
        if !evicted.contains(path) {
            if m.expired_at(first).contains(path) {
                assert(m.paths_at(first).contains(path));
            } else {
                let t = choose|t: int| after.paths_at(t).contains(path);
                if t == first {
                    assert(after.paths_at(first).subset_of(m.paths_at(first)));
                }
                assert(m.paths_at(t).contains(path));
            }
        }
    }
}

/// What a sweep gives up was on record before it.
pub proof fn lemma_sweep_evicts_recorded(
    m: EvictionModel,
    now: int,
    ttl: int,
    capacity: int,
    path: Seq<char>,
)
    requires
        m.sweep(now, ttl, capacity).evicted.contains(path),
    ensures
        on_record(m, path),
{
    lemma_sweep_from_evicts_recorded(m, Multiset::empty(), Set::empty(), now, ttl, capacity, path);
}

/// In a consistent state without pinned paths, a sweep at which every
/// instant on record is at least `ttl` old gives up every path on record,
/// and nothing else.
pub proof fn lemma_sweep_past_ttl_gives_up_all(
    m: EvictionModel,
    now: int,
    ttl: int,
    capacity: int,
    path: Seq<char>,
)
    requires
        m.consistent(),
        m.preserve.is_empty(),
        forall|t: int| m.items.contains(t) ==> now - t >= ttl,
    ensures
        m.sweep(now, ttl, capacity).evicted.contains(path) <==> on_record(m, path),
{
    if on_record(m, path) {
        lemma_sweep_from_past_ttl_evicts(m, Set::empty(), now, ttl, capacity, path);
    }
    if m.sweep(now, ttl, capacity).evicted.contains(path) {
        lemma_sweep_evicts_recorded(m, now, ttl, capacity, path);
    }
}

proof fn lemma_sweep_from_spares_nothing_new(
    m: EvictionModel,
    held: Multiset<int>,
    evicted: Set<Seq<char>>,
    now: int,
    ttl: int,
    capacity: int,
)
    ensures
        m.sweep_from(held, evicted, now, ttl, capacity).state.preserve == m.preserve,
    decreases m.items.len(),
{
    if m.due(now, ttl, capacity) {
        lemma_least_exists(m.items);
        let t = least(m.items);
        lemma_sweep_from_spares_nothing_new(
            m.expire(t),
            if m.pinned_at(t).is_empty() {
                held
            } else {
                held.insert(t)
            },
            evicted.union(m.expired_at(t)),
            now,
            ttl,
            capacity,
        );
    }
}

/// After any run of visits without pinning, one sweep at which every visit
/// is at least `ttl` old leaves nothing.
pub proof fn lemma_visits_then_sweep_past_ttl(
    visits: Seq<(Seq<char>, int)>,
    now: int,
    ttl: int,
    capacity: int,
)
    requires
        forall|i: int| 0 <= i < visits.len() ==> now - visits[i].1 >= ttl,
    ensures
        after_visits(visits).sweep(now, ttl, capacity).state == EvictionModel::empty(),
{
    lemma_after_visits(visits);
    let m = after_visits(visits);
    assert forall|t: int| m.items.contains(t) implies now - t >= ttl by {
        let i = choose|i: int| 0 <= i < visits.len() && visits[i].1 == t;
        assert(now - visits[i].1 >= ttl);
    }
    lemma_sweep_past_ttl(m, now, ttl, capacity);
}

proof fn lemma_sweep_from_capacity(
    m: EvictionModel,
    held: Multiset<int>,
    evicted: Set<Seq<char>>,
    now: int,
    ttl: int,
    capacity: int,
)
    requires
        capacity >= 0,
        held_are_pinned(m, held),
    ensures
        ({
            let swept = m.sweep_from(held, evicted, now, ttl, capacity);
            &&& swept.held.subset_of(swept.state.items)
            &&& swept.state.items.len() <= capacity + swept.held.len()
            &&& held_are_pinned(swept.state, swept.held)
        }),
    decreases m.items.len(),
{
    if m.due(now, ttl, capacity) {
        lemma_least_exists(m.items);
        let t = least(m.items);
        let after = m.expire(t);
        let kept = if m.pinned_at(t).is_empty() {
            held
        } else {
            held.insert(t)
        };
        assert forall|u: int| #[trigger] kept.contains(u) implies !after.paths_at(u).is_empty()
            && after.paths_at(u).subset_of(after.preserve) by {
            if u == t {
                if held.contains(t) {
                    assert(m.pinned_at(t) =~= m.paths_at(t));
                }
                assert(after.paths_at(t) == m.pinned_at(t));
            } else {
                assert(held.contains(u));
                assert(after.paths_at(u) == m.paths_at(u));
            }
        }
        lemma_sweep_from_capacity(
            after,
            kept,
            evicted.union(m.expired_at(t)),
            now,
            ttl,
            capacity,
        );
    } else {
        let swept = m.sweep_from(held, evicted, now, ttl, capacity);
        assert(swept.state.items == m.items.add(held));
        assert(held.subset_of(m.items.add(held)));
        assert(forall|u: int| swept.state.paths_at(u) == m.paths_at(u));
    }
}

/// After a sweep, no more than `capacity` instants are on record beside those
/// that were put back for the sake of pinned paths: each instant put back
/// records pinned paths and nothing else.
pub proof fn lemma_sweep_capacity(m: EvictionModel, now: int, ttl: int, capacity: int)
    requires
        capacity >= 0,
    ensures
        ({
            let swept = m.sweep(now, ttl, capacity);
            &&& swept.held.subset_of(swept.state.items)
            &&& swept.state.items.len() <= capacity + swept.held.len()
            &&& held_are_pinned(swept.state, swept.held)
            &&& m.preserve.is_empty() ==> swept.state.items.len() <= capacity
        }),
{
    lemma_sweep_from_capacity(m, Multiset::empty(), Set::empty(), now, ttl, capacity);
    lemma_sweep_from_spares_nothing_new(m, Multiset::empty(), Set::empty(), now, ttl, capacity);
    let swept = m.sweep(now, ttl, capacity);
    if m.preserve.is_empty() && swept.held.len() > 0 {
        let t = swept.held.choose();
        assert(swept.held.contains(t));
        let p = swept.state.paths_at(t).choose();
        assert(swept.state.paths_at(t).contains(p));
        assert(swept.state.preserve.contains(p));
    }
}

/// One thing that happens to an eviction manager.
pub enum Event {
    Visit { path: Seq<char>, now: int },
    Enter { path: Seq<char>, now: int },
    Leave { path: Seq<char> },
    Sweep { now: int },
}

/// The state after `event`.
pub open spec fn after_event(m: EvictionModel, event: Event, ttl: int, capacity: int) -> EvictionModel {
    match event {
        Event::Visit { path, now } => m.visit(path, now),
        Event::Enter { path, now } => m.enter(path, now),
        Event::Leave { path } => m.leave(path),
        Event::Sweep { now } => m.sweep(now, ttl, capacity).state,
    }
}

/// The paths that `event` gives up.
pub open spec fn evicted_by(m: EvictionModel, event: Event, ttl: int, capacity: int) -> Set<
    Seq<char>,
> {
    match event {
        Event::Sweep { now } => m.sweep(now, ttl, capacity).evicted,
        _ => Set::empty(),
    }
}

/// The state after the events of `events` happened in turn.
pub open spec fn after_events(m: EvictionModel, events: Seq<Event>, ttl: int, capacity: int) -> EvictionModel
    decreases events.len(),
{
    if events.len() == 0 {
        m
    } else {
        after_event(after_events(m, events.drop_last(), ttl, capacity), events.last(), ttl, capacity)
    }
}

/// The paths that any of the events gives up.
pub open spec fn ever_evicted(m: EvictionModel, events: Seq<Event>, ttl: int, capacity: int) -> Set<
    Seq<char>,
>
    decreases events.len(),
{
    if events.len() == 0 {
        Set::empty()
    } else {
        ever_evicted(m, events.drop_last(), ttl, capacity).union(
            evicted_by(
                after_events(m, events.drop_last(), ttl, capacity),
                events.last(),
                ttl,
                capacity,
            ),
        )
    }
}

/// A pinned path that is not unpinned is never given up, whatever else
/// happens, however old its visits are and however many visits are on
/// record; and it stays pinned.
pub proof fn lemma_pinned_is_never_evicted(
    m: EvictionModel,
    events: Seq<Event>,
    ttl: int,
    capacity: int,
    path: Seq<char>,
)
    requires
        m.preserve.contains(path),
        forall|i: int| 0 <= i < events.len() ==> events[i] != (Event::Leave { path }),
    ensures
        !ever_evicted(m, events, ttl, capacity).contains(path),
        after_events(m, events, ttl, capacity).preserve.contains(path),
    decreases events.len(),
{
    if events.len() > 0 {
        let init = events.drop_last();
        assert forall|i: int| 0 <= i < init.len() implies init[i] != (Event::Leave { path }) by {
            assert(init[i] == events[i]);
        }
        lemma_pinned_is_never_evicted(m, init, ttl, capacity, path);
        let before = after_events(m, init, ttl, capacity);
        assert(events.last() == events[events.len() - 1]);
        match events.last() {
            Event::Sweep { now } => {
                lemma_sweep_spares_pinned(before, now, ttl, capacity, path);
            },
            _ => {},
        }
    }
}

/// Whatever happens to a manager whose state is consistent, its state stays
/// consistent.
pub proof fn lemma_events_consistent(
    m: EvictionModel,
    events: Seq<Event>,
    ttl: int,
    capacity: int,
)
    requires
        m.consistent(),
    ensures
        after_events(m, events, ttl, capacity).consistent(),
    decreases events.len(),
{
    if events.len() > 0 {
        lemma_events_consistent(m, events.drop_last(), ttl, capacity);
        let before = after_events(m, events.drop_last(), ttl, capacity);
        match events.last() {
            Event::Visit { path, now } => lemma_visit_consistent(before, path, now),
            Event::Enter { path, now } => lemma_enter_consistent(before, path, now),
            Event::Leave { path } => lemma_leave_consistent(before, path),
            Event::Sweep { now } => lemma_sweep_consistent(before, now, ttl, capacity),
        }
    }
}

/// After any events that end in a sweep, no more than `capacity` instants
/// are on record beside those that were put back for the sake of pinned
/// paths.
pub proof fn lemma_capacity_after_events(
    m: EvictionModel,
    events: Seq<Event>,
    now: int,
    ttl: int,
    capacity: int,
)
    requires
        capacity >= 0,
    ensures
        ({
            let swept = after_events(m, events, ttl, capacity).sweep(now, ttl, capacity);
            &&& after_events(m, events.push(Event::Sweep { now }), ttl, capacity) == swept.state
            &&& swept.state.items.len() <= capacity + swept.held.len()
            &&& held_are_pinned(swept.state, swept.held)
        }),
{
    let all = events.push(Event::Sweep { now });
    assert(all.drop_last() =~= events);
    lemma_sweep_capacity(after_events(m, events, ttl, capacity), now, ttl, capacity);
}

/// The instant is `t` or later.
pub open spec fn at_or_after(t: int) -> spec_fn(int) -> bool {
    |u: int| u >= t
}

/// Those of the instants that are `t` or later.
pub open spec fn later(items: Multiset<int>, t: int) -> Multiset<int> {
    items.filter(at_or_after(t))
}

proof fn lemma_later_after_expire(m: EvictionModel, now: int, ttl: int, capacity: int, t: int)
    requires
        now - t < ttl,
        later(m.items, t).len() <= capacity,
        m.due(now, ttl, capacity),
    ensures
        m.items.contains(least(m.items)),
        least(m.items) < t,
        later(m.expire(least(m.items)).items, t) == later(m.items, t),
{
    broadcast use vstd::multiset::axiom_filter_count;

    lemma_least_exists(m.items);
    let first = least(m.items);
    if first >= t {
        assert forall|u: int| later(m.items, t).count(u) == m.items.count(u) by {
            if m.items.count(u) > 0 {
                assert(m.items.contains(u));
                assert(first <= u);
            }
        }
        assert(later(m.items, t) =~= m.items);
    }
    assert(later(m.items.remove(first), t) =~= later(m.items, t));
}

proof fn lemma_sweep_from_spares_fresh(
    m: EvictionModel,
    held: Multiset<int>,
    evicted: Set<Seq<char>>,
    now: int,
    ttl: int,
    capacity: int,
    path: Seq<char>,
    t: int,
)
    requires
        now - t < ttl,
        later(m.items, t).len() <= capacity,
        m.data_to_time.contains_key(path),
        m.data_to_time[path] == t,
        !evicted.contains(path),
    ensures
        ({
            let swept = m.sweep_from(held, evicted, now, ttl, capacity);
            &&& !swept.evicted.contains(path)
            &&& swept.state.data_to_time.contains_key(path)
            &&& swept.state.data_to_time[path] == t
            &&& swept.state.paths_at(t) == m.paths_at(t)
            &&& swept.state.items.count(t) == m.items.count(t) + held.count(t)
        }),
    decreases m.items.len(),
{
    if m.due(now, ttl, capacity) {
        lemma_later_after_expire(m, now, ttl, capacity, t);
        let first = least(m.items);
        let after = m.expire(first);
        let kept = if m.pinned_at(first).is_empty() {
            held
        } else {
            held.insert(first)
        };
        assert(m.superseded(path, first));
        assert(!m.expired_at(first).contains(path));
        assert(after.paths_at(t) == m.paths_at(t));
        lemma_sweep_from_spares_fresh(
            after,
            kept,
            evicted.union(m.expired_at(first)),
            now,
            ttl,
            capacity,
            path,
            t,
        );
    }
}

proof fn lemma_sweep_from_stale_gone(
    m: EvictionModel,
    held: Multiset<int>,
    evicted: Set<Seq<char>>,
    now: int,
    ttl: int,
    capacity: int,
)
    requires
        consistent_with(m, held),
        held_are_pinned(m, held),
    ensures
        ({
            let swept = m.sweep_from(held, evicted, now, ttl, capacity);
            &&& forall|t: int| #[trigger] swept.state.paths_at(t).subset_of(m.paths_at(t))
            &&& forall|t: int|
                now - t >= ttl ==> #[trigger] swept.state.paths_at(t).subset_of(m.preserve)
        }),
    decreases m.items.len(),
{
    let swept = m.sweep_from(held, evicted, now, ttl, capacity);
    if m.due(now, ttl, capacity) {
        lemma_least_exists(m.items);
        let first = least(m.items);
        let after = m.expire(first);
        let kept = if m.pinned_at(first).is_empty() {
            held
        } else {
            held.insert(first)
        };
        lemma_expire_consistent(m, held, first);
        assert forall|u: int| #[trigger] kept.contains(u) implies !after.paths_at(u).is_empty()
            && after.paths_at(u).subset_of(after.preserve) by {
            if u == first {
                if held.contains(first) {
                    assert(m.pinned_at(first) =~= m.paths_at(first));
                }
                assert(after.paths_at(first) == m.pinned_at(first));
            } else {
                assert(held.contains(u));
                assert(after.paths_at(u) == m.paths_at(u));
            }
        }
        let chosen = evicted.union(m.expired_at(first));
        lemma_sweep_from_stale_gone(after, kept, chosen, now, ttl, capacity);
        let next = after.sweep_from(kept, chosen, now, ttl, capacity);
        assert(swept == next);
        assert(after.preserve == m.preserve);
        assert forall|t: int| #[trigger] swept.state.paths_at(t).subset_of(m.paths_at(t)) by {
            assert(next.state.paths_at(t).subset_of(after.paths_at(t)));
            assert(after.paths_at(t).subset_of(m.paths_at(t)));
        }
        assert forall|t: int| now - t >= ttl implies #[trigger] swept.state.paths_at(t).subset_of(
            m.preserve,
        ) by {
            assert(next.state.paths_at(t).subset_of(after.preserve));
        }
    } else {
        assert(swept.state.time_to_data == m.time_to_data);
        assert forall|t: int| #[trigger] swept.state.paths_at(t).subset_of(m.paths_at(t)) by {
            assert(swept.state.paths_at(t) == m.paths_at(t));
        }
        assert forall|t: int| now - t >= ttl implies #[trigger] swept.state.paths_at(t).subset_of(
            m.preserve,
        ) by {
            if m.time_to_data.contains_key(t) {
                let whole = EvictionModel { items: m.items.add(held), ..m };
                assert(whole.time_to_data.contains_key(t));
                assert(whole.items.contains(t));
                if held.contains(t) {
                } else {
                    assert(m.items.contains(t));
                    lemma_least_exists(m.items);
                    assert(is_least(m.items, least(m.items)));
                    assert(least(m.items) <= t);
                }
            }
        }
    }
}

/// After a sweep, no record has grown, and a record that is at least `ttl`
/// old holds pinned paths and nothing else.
pub proof fn lemma_sweep_drops_stale_records(m: EvictionModel, now: int, ttl: int, capacity: int)
    requires
        m.consistent(),
    ensures
        forall|t: int| #[trigger]
            m.sweep(now, ttl, capacity).state.paths_at(t).subset_of(m.paths_at(t)),
        forall|t: int|
            now - t >= ttl ==> #[trigger] m.sweep(now, ttl, capacity).state.paths_at(t).subset_of(
                m.preserve,
            ),
{
    let none = Multiset::<int>::empty();
    assert(m.items.add(none) =~= m.items);
    assert((EvictionModel { items: m.items.add(none), ..m }) == m);
    lemma_sweep_from_stale_gone(m, none, Set::empty(), now, ttl, capacity);
}

/// A path whose latest visit is younger than `ttl`, and stands among the
/// `capacity` latest instants on record, is not given up: its latest record
/// stays as it is and stays its latest.
pub proof fn lemma_sweep_spares_fresh(
    m: EvictionModel,
    now: int,
    ttl: int,
    capacity: int,
    path: Seq<char>,
)
    requires
        m.data_to_time.contains_key(path),
        now - m.data_to_time[path] < ttl,
        later(m.items, m.data_to_time[path]).len() <= capacity,
    ensures
        ({
            let swept = m.sweep(now, ttl, capacity);
            let latest = m.data_to_time[path];
            &&& !swept.evicted.contains(path)
            &&& swept.state.data_to_time.contains_key(path)
            &&& swept.state.data_to_time[path] == latest
            &&& swept.state.paths_at(latest) == m.paths_at(latest)
            &&& swept.state.items.count(latest) == m.items.count(latest)
        }),
{
    lemma_sweep_from_spares_fresh(
        m,
        Multiset::empty(),
        Set::empty(),
        now,
        ttl,
        capacity,
        path,
        m.data_to_time[path],
    );
}

/// However often a path was visited: where it is not pinned, its latest
/// visit is younger than `ttl` and stands among the `capacity` latest
/// instants on record, and all its earlier visits are at least `ttl` old, a
/// sweep leaves the path recorded at its latest visit and nowhere else, and
/// does not give it up.
pub proof fn lemma_sweep_keeps_only_the_latest_record(
    m: EvictionModel,
    now: int,
    ttl: int,
    capacity: int,
    path: Seq<char>,
)
    requires
        m.consistent(),
        !m.preserve.contains(path),
        m.data_to_time.contains_key(path),
        now - m.data_to_time[path] < ttl,
        later(m.items, m.data_to_time[path]).len() <= capacity,
        forall|t: int|
            #[trigger] m.paths_at(t).contains(path) && t != m.data_to_time[path] ==> now - t
                >= ttl,
    ensures
        ({
            let swept = m.sweep(now, ttl, capacity);
            let latest = m.data_to_time[path];
            &&& !swept.evicted.contains(path)
            &&& swept.state.live(path, latest)
            &&& forall|t: int| #[trigger]
                swept.state.paths_at(t).contains(path) <==> t == latest
        }),
{
    let swept = m.sweep(now, ttl, capacity);
    let latest = m.data_to_time[path];
    lemma_sweep_spares_fresh(m, now, ttl, capacity, path);
    lemma_sweep_drops_stale_records(m, now, ttl, capacity);
    assert(m.paths_at(latest).contains(path));
    assert forall|t: int| #[trigger] swept.state.paths_at(t).contains(path) <==> t == latest by {
        if swept.state.paths_at(t).contains(path) && t != latest {
            assert(swept.state.paths_at(t).subset_of(m.paths_at(t)));
            assert(m.paths_at(t).contains(path));
            assert(now - t >= ttl);
            assert(swept.state.paths_at(t).subset_of(m.preserve));
        }
    }
}

/// A path has at most one live record: one at the latest instant known for
/// it.
pub proof fn lemma_live_record_unique(m: EvictionModel, path: Seq<char>, t1: int, t2: int)
    requires
        m.live(path, t1),
        m.live(path, t2),
    ensures
        t1 == t2,
{
}

proof fn lemma_sweep_from_forgets_evicted(
    m: EvictionModel,
    held: Multiset<int>,
    evicted: Set<Seq<char>>,
    now: int,
    ttl: int,
    capacity: int,
)
    requires
        forall|p: Seq<char>| #[trigger] evicted.contains(p) ==> !m.data_to_time.contains_key(p),
    ensures
        forall|p: Seq<char>| #[trigger]
            m.sweep_from(held, evicted, now, ttl, capacity).evicted.contains(p) ==> !m.sweep_from(
                held,
                evicted,
                now,
                ttl,
                capacity,
            ).state.data_to_time.contains_key(p),
    decreases m.items.len(),
{
    if m.due(now, ttl, capacity) {
        lemma_least_exists(m.items);
        let t = least(m.items);
        let after = m.expire(t);
        let chosen = evicted.union(m.expired_at(t));
        assert forall|p: Seq<char>| #[trigger] chosen.contains(p) implies !after.data_to_time.contains_key(
            p,
        ) by {
            if evicted.contains(p) {
                assert(!m.data_to_time.contains_key(p));
            }
        }
        let kept = if m.pinned_at(t).is_empty() {
            held
        } else {
            held.insert(t)
        };
        lemma_sweep_from_forgets_evicted(after, kept, chosen, now, ttl, capacity);
        assert(m.sweep_from(held, evicted, now, ttl, capacity) == after.sweep_from(
            kept,
            chosen,
            now,
            ttl,
            capacity,
        ));
    } else {
        let swept = m.sweep_from(held, evicted, now, ttl, capacity);
        assert(swept.evicted == evicted);
        assert(swept.state.data_to_time == m.data_to_time);
    }
}

/// However often a path was visited, after a sweep it has no live record if
/// the sweep chose it, and at most one if not.
pub proof fn lemma_sweep_one_live_record(
    m: EvictionModel,
    now: int,
    ttl: int,
    capacity: int,
    path: Seq<char>,
)
    ensures
        ({
            let swept = m.sweep(now, ttl, capacity);
            &&& swept.evicted.contains(path) ==> forall|t: int| !swept.state.live(path, t)
            &&& forall|t1: int, t2: int|
                swept.state.live(path, t1) && swept.state.live(path, t2) ==> t1 == t2
        }),
{
    lemma_sweep_from_forgets_evicted(m, Multiset::empty(), Set::empty(), now, ttl, capacity);
}

/// Writing the persisted fields out and taking them back gives the same
/// instants, records and latest instants, whatever was pinned before or
/// after.
pub proof fn lemma_save_load_round_trip(m: EvictionModel, into: EvictionModel)
    ensures
        into.restore(m.persisted()).items == m.items,
        into.restore(m.persisted()).time_to_data == m.time_to_data,
        into.restore(m.persisted()).data_to_time == m.data_to_time,
        into.restore(m.persisted()).preserve == into.preserve,
        m.restore(m.persisted()) == m,
{
}

} // verus!
