//! The eviction manager: it records when each artifact was last used, and
//! a sweep gives up the stale ones and those beyond its capacity.
use vstd::prelude::*;
use crate::worker::eviction::heap::{instants, lemma_least_unique, TimeHeap};
use crate::worker::eviction::laws::{
    lemma_enter_consistent, lemma_leave_consistent, lemma_pin_consistent, lemma_sweep_consistent,
    lemma_visit_consistent,
};
use crate::worker::eviction::model::EvictionModel;
use crate::worker::eviction::tables::{
    distinct_paths, lemma_path_set_push, path_map, path_set, time_map, PathSet, PathTable,
    TimeTable,
};

pub mod assoc;
pub mod evict;
pub mod heap;
pub mod laws;
pub mod model;
pub mod tables;

verus! {

/// The longest time to live that a manager takes, in nanoseconds: `i64::MAX`
/// milliseconds.
pub const MAX_TTL_NANOS: u128 = 9_223_372_036_854_775_807_000_000;

pub const NANOS_PER_SECOND: u128 = 1_000_000_000;

#[derive(Debug, Clone, Copy, PartialEq, Eq)]
pub enum EvictionError {
    /// The time to live is longer than `MAX_TTL_NANOS`.
    TtlOutOfRange,
}

/// The fields of a manager that outlive the process, as plain values. The
/// pinned paths are not among them.
#[derive(Debug)]
pub struct EvictionSnapshot {
    /// The instants still to be looked at, in any order.
    pub items: Vec<i64>,
    /// The paths recorded at each instant.
    pub time_to_data: Vec<(i64, Vec<String>)>,
    /// The latest instant of each path.
    pub data_to_time: Vec<(String, i64)>,
}

impl View for EvictionSnapshot {
    type V = EvictionModel;

    open spec fn view(&self) -> EvictionModel {
        EvictionModel {
            items: instants(self.items@).to_multiset(),
            time_to_data: time_map(self.time_to_data@),
            data_to_time: path_map(self.data_to_time@),
            preserve: Set::empty(),
        }
    }
}

/// What has just happened in the loop that sweeps again and again.
#[derive(Debug, Clone, Copy, PartialEq, Eq, Structural)]
pub enum LoopEvent {
    /// The loop has begun.
    Started,
    /// The pause is over.
    Slept,
    /// A sweep is over; `failed` says whether a deletion went wrong.
    Cleaned { failed: bool },
}

/// What the loop does next.
#[derive(Debug, Clone, Copy, PartialEq, Eq, Structural)]
pub enum LoopAction {
    /// Pause for so many nanoseconds.
    Sleep { nanos: u128 },
    /// Sweep, and delete what the sweep gives up.
    Clean,
}

struct EvictionState {
    items: TimeHeap,
    time_to_data: TimeTable,
    data_to_time: PathTable,
    preserve: PathSet,
}

/// Keeps track of when each artifact on disk was last used, and decides which
/// ones a sweep deletes: those not used for `ttl`, and the least recently
/// used ones while more than `capacity` visits are on record. Pinned paths
/// are never chosen.
pub struct EvictionManager {
    name: String,
    interval: u128,
    ttl: u128,
    capacity: usize,
    state: EvictionState,
}

impl View for EvictionManager {
    type V = EvictionModel;

    closed spec fn view(&self) -> EvictionModel {
        EvictionModel {
            items: self.state.items@,
            time_to_data: self.state.time_to_data@,
            data_to_time: self.state.data_to_time@,
            preserve: self.state.preserve@,
        }
    }
}

/// The reading of `chrono::Utc::now`, in nanoseconds since the Unix epoch as
/// `DateTime::timestamp_nanos_opt` gives them: `None` where the date is out
/// of the range of an `i64`. Nothing is claimed of the instant itself. The
/// call panics where the system clock stands before the Unix epoch.
#[verifier::external_body]
fn current_instant() -> Option<i64> {
    chrono::Utc::now().timestamp_nanos_opt()
}

/// Whether `chrono::Duration::from_std` succeeds on the span of `secs`
/// seconds and `subsec_nanos` nanoseconds: it does on spans of at most
/// `i64::MAX` milliseconds, and on no others.
#[verifier::external_body]
fn fits_time_delta(secs: u64, subsec_nanos: u32) -> (fits: bool)
    requires
        subsec_nanos < NANOS_PER_SECOND,
    ensures
        fits == (secs * NANOS_PER_SECOND + subsec_nanos <= MAX_TTL_NANOS),
{
    chrono::Duration::from_std(std::time::Duration::new(secs, subsec_nanos)).is_ok()
}

impl EvictionManager {
    /// The containers are in order.
    pub closed spec fn wf(&self) -> bool {
        &&& self.state.items.wf()
        &&& self.state.time_to_data.wf()
        &&& self.state.data_to_time.wf()
        &&& self.state.preserve.wf()
    }

    pub closed spec fn spec_name(&self) -> &String {
        &self.name
    }

    pub closed spec fn spec_interval_nanos(&self) -> u128 {
        self.interval
    }

    pub closed spec fn spec_ttl_nanos(&self) -> u128 {
        self.ttl
    }

    pub closed spec fn spec_capacity(&self) -> usize {
        self.capacity
    }

    /// Nothing but the state differs between the two managers.
    pub open spec fn same_settings(&self, other: &Self) -> bool {
        &&& self.spec_name()@ == other.spec_name()@
        &&& self.spec_interval_nanos() == other.spec_interval_nanos()
        &&& self.spec_ttl_nanos() == other.spec_ttl_nanos()
        &&& self.spec_capacity() == other.spec_capacity()
    }

    /// What a sweep at `now` does to this manager.
    pub open spec fn spec_sweep(&self, now: int) -> crate::worker::eviction::model::Sweep {
        self@.sweep(now, self.spec_ttl_nanos() as int, self.spec_capacity() as int)
    }

    /// A manager that knows no path yet. `interval_nanos` is the pause
    /// between two sweeps, `ttl_nanos` the age from which a visit is stale,
    /// `capacity` the number of visits kept on record at most.
    pub fn new(name: String, interval_nanos: u128, ttl_nanos: u128, capacity: usize) -> (made:
        Result<Self, EvictionError>)
        ensures
            match made {
                Ok(manager) => {
                    &&& ttl_nanos <= MAX_TTL_NANOS
                    &&& manager.wf()
                    &&& manager@ == EvictionModel::empty()
                    &&& manager@.consistent()
                    &&& manager.spec_name()@ == name@
                    &&& manager.spec_interval_nanos() == interval_nanos
                    &&& manager.spec_ttl_nanos() == ttl_nanos
                    &&& manager.spec_capacity() == capacity
                },
                Err(e) => e == EvictionError::TtlOutOfRange && ttl_nanos > MAX_TTL_NANOS,
            },
    {
        let secs = ttl_nanos / NANOS_PER_SECOND;
        let subsec = ttl_nanos % NANOS_PER_SECOND;
        if secs > u64::MAX as u128 {
            return Err(EvictionError::TtlOutOfRange);
        }
        if !fits_time_delta(secs as u64, subsec as u32) {
            return Err(EvictionError::TtlOutOfRange);
        }
        Ok(
            EvictionManager {
                name,
                interval: interval_nanos,
                ttl: ttl_nanos,
                capacity,
                state: EvictionState {
                    items: TimeHeap::new(),
                    time_to_data: TimeTable::new(),
                    data_to_time: PathTable::new(),
                    preserve: PathSet::new(),
                },
            },
        )
    }

    #[verifier::when_used_as_spec(spec_name)]
    pub fn name(&self) -> (name: &String)
        ensures
            name == self.spec_name(),
    {
        &self.name
    }

    #[verifier::when_used_as_spec(spec_interval_nanos)]
    pub fn interval_nanos(&self) -> (nanos: u128)
        ensures
            nanos == self.spec_interval_nanos(),
    {
        self.interval
    }

    #[verifier::when_used_as_spec(spec_ttl_nanos)]
    pub fn ttl_nanos(&self) -> (nanos: u128)
        ensures
            nanos == self.spec_ttl_nanos(),
    {
        self.ttl
    }

    #[verifier::when_used_as_spec(spec_capacity)]
    pub fn capacity(&self) -> (capacity: usize)
        ensures
            capacity == self.spec_capacity(),
    {
        self.capacity
    }

    /// What the loop that sweeps again and again does after `event`: it
    /// pauses for the interval, then sweeps, and so on without end; a sweep
    /// that failed does not stop it.
    pub fn run_loop(&self, event: LoopEvent) -> (action: LoopAction)
        ensures
            action == if event == LoopEvent::Slept {
                LoopAction::Clean
            } else {
                LoopAction::Sleep { nanos: self.spec_interval_nanos() }
            },
    {
        match event {
            LoopEvent::Slept => LoopAction::Clean,
            _ => LoopAction::Sleep { nanos: self.interval },
        }
    }

    /// Records that `data` was touched at `now`. Earlier records of the path
    /// stay until a sweep comes to them.
    pub fn visit_once_at(&mut self, data: &str, now: i64)
        requires
            old(self).wf(),
        ensures
            final(self).wf(),
            final(self).same_settings(old(self)),
            final(self)@ == old(self)@.visit(data@, now as int),
            old(self)@.consistent() ==> final(self)@.consistent(),
    {
        proof {
            if self@.consistent() {
                lemma_visit_consistent(self@, data@, now as int);
            }
        }
        self.state.items.push(now);
        self.state.data_to_time.insert(data.to_owned(), now);
        let mut paths = match self.state.time_to_data.take(now) {
            Some(set) => set,
            None => PathSet::new(),
        };
        let _ = paths.insert(data.to_owned());
        self.state.time_to_data.put(now, paths);
        assert(self@.time_to_data =~= old(self)@.visit(data@, now as int).time_to_data);
    }

    /// Pins `data`, then records that it was touched at `now`.
    pub fn visit_enter_at(&mut self, data: &str, now: i64)
        requires
            old(self).wf(),
        ensures
            final(self).wf(),
            final(self).same_settings(old(self)),
            final(self)@ == old(self)@.enter(data@, now as int),
            old(self)@.consistent() ==> final(self)@.consistent(),
    {
        proof {
            if self@.consistent() {
                lemma_enter_consistent(self@, data@, now as int);
            }
        }
        let _ = self.state.preserve.insert(data.to_owned());
        self.visit_once_at(data, now);
    }

    /// Unpins `data`. No record changes.
    pub fn visit_leave(&mut self, data: &str)
        requires
            old(self).wf(),
        ensures
            final(self).wf(),
            final(self).same_settings(old(self)),
            final(self)@ == old(self)@.leave(data@),
            old(self)@.consistent() ==> final(self)@.consistent(),
    {
        proof {
            if self@.consistent() {
                lemma_leave_consistent(self@, data@);
            }
        }
        let path = data.to_owned();
        let _ = self.state.preserve.remove(&path);
    }

    /// Records that `data` was touched now, and says when that was. Where the
    /// clock gives no instant, nothing is recorded.
    pub fn visit_once(&mut self, data: &str) -> (at: Option<i64>)
        requires
            old(self).wf(),
        ensures
            final(self).wf(),
            final(self).same_settings(old(self)),
            match at {
                Some(now) => final(self)@ == old(self)@.visit(data@, now as int),
                None => final(self)@ == old(self)@,
            },
            old(self)@.consistent() ==> final(self)@.consistent(),
    {
        match current_instant() {
            Some(now) => {
                self.visit_once_at(data, now);
                Some(now)
            },
            None => None,
        }
    }

    /// Pins `data` and records that it was touched now; says when that was.
    /// Where the clock gives no instant, the path is pinned and nothing is
    /// recorded.
    pub fn visit_enter(&mut self, data: &str) -> (at: Option<i64>)
        requires
            old(self).wf(),
        ensures
            final(self).wf(),
            final(self).same_settings(old(self)),
            match at {
                Some(now) => final(self)@ == old(self)@.enter(data@, now as int),
                None => final(self)@ == (EvictionModel {
                    preserve: old(self)@.preserve.insert(data@),
                    ..old(self)@
                }),
            },
            old(self)@.consistent() ==> final(self)@.consistent(),
    {
        match current_instant() {
            Some(now) => {
                self.visit_enter_at(data, now);
                Some(now)
            },
            None => {
                proof {
                    if self@.consistent() {
                        lemma_pin_consistent(self@, data@);
                    }
                }
                let _ = self.state.preserve.insert(data.to_owned());
                None
            },
        }
    }

    /// Takes the persisted fields from `recovered` and keeps the pinned
    /// paths; says how many instants are now to be looked at.
    pub fn load_states(&mut self, recovered: &EvictionSnapshot) -> (count: usize)
        requires
            old(self).wf(),
        ensures
            final(self).wf(),
            final(self).same_settings(old(self)),
            final(self)@ == old(self)@.restore(recovered@),
            count == recovered.items@.len(),
    {
        self.state.items = TimeHeap::from_vec(&recovered.items);
        self.state.time_to_data = TimeTable::from_entries(&recovered.time_to_data);
        self.state.data_to_time = PathTable::from_entries(&recovered.data_to_time);
        proof {
            broadcast use vstd::seq_lib::group_to_multiset_ensures;

        }
        self.state.items.len()
    }

    /// The persisted fields as plain values. The pinned paths are left out.
    pub fn save_states(&self) -> (snapshot: EvictionSnapshot)
        requires
            self.wf(),
        ensures
            snapshot@ == self@.persisted(),
    {
        EvictionSnapshot {
            items: self.state.items.to_vec(),
            time_to_data: self.state.time_to_data.entries(),
            data_to_time: self.state.data_to_time.entries(),
        }
    }

    /// The number of instants still to be looked at.
    pub fn item_count(&self) -> (count: usize)
        ensures
            count == self@.items.len(),
    {
        self.state.items.len()
    }

    /// The number of instants at which paths are recorded.
    pub fn record_count(&self) -> (count: usize)
        requires
            self.wf(),
        ensures
            self@.time_to_data.dom().finite(),
            count == self@.time_to_data.dom().len(),
    {
        self.state.time_to_data.len()
    }

    /// The number of paths whose latest instant is known.
    pub fn path_count(&self) -> (count: usize)
        requires
            self.wf(),
        ensures
            self@.data_to_time.dom().finite(),
            count == self@.data_to_time.dom().len(),
    {
        self.state.data_to_time.len()
    }

    /// Whether `data` is pinned.
    pub fn is_preserved(&self, data: &str) -> (pinned: bool)
        ensures
            pinned == self@.preserve.contains(data@),
    {
        let path = data.to_owned();
        self.state.preserve.contains(&path)
    }

    /// Deals with the paths of one record of instant `t`: the pinned ones
    /// come back as the record to keep; of the others, those not visited
    /// again after `t` are forgotten and put into `evicted`, which holds
    /// each path once.
    fn expire_paths(&mut self, t: i64, paths: &Vec<String>, evicted: &mut PathSet) -> (kept:
        PathSet)
        requires
            old(self).wf(),
            old(evicted).wf(),
            distinct_paths(paths@),
        ensures
            final(self).wf(),
            final(self).same_settings(old(self)),
            kept.wf(),
            final(evicted).wf(),
            kept@ == old(self)@.pinned_among(path_set(paths@)),
            final(evicted)@ == old(evicted)@.union(
                old(self)@.expired_among(path_set(paths@), t as int),
            ),
            final(self)@ == (EvictionModel {
                data_to_time: old(self)@.data_to_time.remove_keys(
                    old(self)@.expired_among(path_set(paths@), t as int),
                ),
                ..old(self)@
            }),
    {
        let ghost before = self@;
        let ghost chosen = evicted@;
        let n = paths.len();
        let mut kept = PathSet::new();
        let mut i: usize = 0;
        assert(path_set(paths@.subrange(0, 0)) =~= Set::<Seq<char>>::empty());
        assert(chosen.union(before.expired_among(Set::empty(), t as int)) =~= chosen);
        assert(before.data_to_time.remove_keys(before.expired_among(Set::empty(), t as int))
            =~= before.data_to_time);
        assert(before.pinned_among(Set::empty()) =~= Set::<Seq<char>>::empty());
        while i < n
            invariant
                n == paths@.len(),
                i <= n,
                distinct_paths(paths@),
                self.wf(),
                self.same_settings(old(self)),
                kept.wf(),
                evicted.wf(),
                self@.items == before.items,
                self@.time_to_data == before.time_to_data,
                self@.preserve == before.preserve,
                kept@ == before.pinned_among(path_set(paths@.subrange(0, i as int))),
                evicted@ == chosen.union(
                    before.expired_among(path_set(paths@.subrange(0, i as int)), t as int),
                ),
                self@.data_to_time == before.data_to_time.remove_keys(
                    before.expired_among(path_set(paths@.subrange(0, i as int)), t as int),
                ),
            decreases n - i,
        {
            let ghost seen = path_set(paths@.subrange(0, i as int));
            let ghost next = path_set(paths@.subrange(0, i + 1));
            let path = paths[i].clone();
            proof {
                assert(paths@.subrange(0, i + 1) =~= paths@.subrange(0, i as int).push(
                    paths@[i as int],
                ));
                lemma_path_set_push(paths@.subrange(0, i as int), paths@[i as int]);
                assert(next == seen.insert(path@));
                if seen.contains(path@) {
                    let j = choose|j: int|
                        0 <= j < paths@.subrange(0, i as int).len() && paths@.subrange(
                            0,
                            i as int,
                        )[j]@ == path@;
                    assert(paths@[j]@ == paths@[i as int]@);
                }
                assert(!seen.contains(path@));
                assert(!before.expired_among(seen, t as int).contains(path@));
            }
            if self.state.preserve.contains(&path) {
                proof {
                    assert(before.pinned_among(next) =~= before.pinned_among(seen).insert(path@));
                    assert(before.expired_among(next, t as int) =~= before.expired_among(
                        seen,
                        t as int,
                    ));
                }
                let _ = kept.insert(path);
            } else {
                let superseded = match self.state.data_to_time.get(&path) {
                    Some(latest) => latest > t,
                    None => false,
                };
                assert(superseded == before.superseded(path@, t as int));
                proof {
                    assert(before.pinned_among(next) =~= before.pinned_among(seen));
                }
                if superseded {
                    proof {
                        assert(before.expired_among(next, t as int) =~= before.expired_among(
                            seen,
                            t as int,
                        ));
                    }
                } else {
                    proof {
                        assert(before.expired_among(next, t as int) =~= before.expired_among(
                            seen,
                            t as int,
                        ).insert(path@));
                        assert(chosen.union(before.expired_among(seen, t as int)).insert(path@)
                            =~= chosen.union(before.expired_among(next, t as int)));
                        assert(before.data_to_time.remove_keys(
                            before.expired_among(seen, t as int),
                        ).remove(path@) =~= before.data_to_time.remove_keys(
                            before.expired_among(next, t as int),
                        ));
                    }
                    self.state.data_to_time.remove(&path);
                    let _ = evicted.insert(path);
                }
            }
            i += 1;
        }
        assert(paths@.subrange(0, n as int) =~= paths@);
        kept
    }

    /// One sweep at `now`. The paths that come back are to be deleted, each
    /// once; they are forgotten here.
    pub fn clean_at(&mut self, now: i64) -> (evicted: Vec<String>)
        requires
            old(self).wf(),
        ensures
            final(self).wf(),
            final(self).same_settings(old(self)),
            final(self)@ == old(self).spec_sweep(now as int).state,
            path_set(evicted@) == old(self).spec_sweep(now as int).evicted,
            distinct_paths(evicted@),
            old(self)@.consistent() ==> final(self)@.consistent(),
    {
        proof {
            if self@.consistent() {
                lemma_sweep_consistent(self@, now as int, self.ttl as int, self.capacity as int);
            }
        }
        let ghost goal = self.spec_sweep(now as int);
        let ghost ttl = self.ttl as int;
        let ghost capacity = self.capacity as int;
        let mut evicted = PathSet::new();
        let mut held: Vec<i64> = Vec::new();
        proof {
            broadcast use vstd::seq_lib::group_to_multiset_ensures;

            assert(instants(held@).len() == 0);
            vstd::multiset::lemma_multiset_empty_len(instants(held@).to_multiset());
        }
        loop
            invariant_except_break
                self.wf(),
                self.same_settings(old(self)),
                ttl == self.ttl,
                capacity == self.capacity,
                evicted.wf(),
                self@.sweep_from(
                    instants(held@).to_multiset(),
                    evicted@,
                    now as int,
                    ttl,
                    capacity,
                ) == goal,
            ensures
                self.wf(),
                self.same_settings(old(self)),
                goal.state == (EvictionModel {
                    items: self@.items.add(instants(held@).to_multiset()),
                    ..self@
                }),
                evicted.wf(),
                goal.evicted == evicted@,
            decreases self@.items.len(),
        {
            let t = match self.state.items.peek() {
                None => {
                    break ;
                },
                Some(t) => t,
            };
            proof {
                lemma_least_unique(self@.items, t as int);
            }
            let age: i128 = now as i128 - t as i128;
            let within_ttl = age < 0 || (age as u128) < self.ttl;
            let not_overflow = self.state.items.len() <= self.capacity;
            if within_ttl && not_overflow {
                break ;
            }
            assert(self@.due(now as int, ttl, capacity));
            let ghost before = self@;
            let ghost held_before = instants(held@).to_multiset();
            let ghost chosen = evicted@;
            let kept = match self.state.time_to_data.take(t) {
                Some(set) => {
                    let paths = set.into_paths();
                    self.expire_paths(t, &paths, &mut evicted)
                },
                None => {
                    proof {
                        assert(before.expired_at(t as int) =~= Set::<Seq<char>>::empty());
                        assert(chosen.union(before.expired_at(t as int)) =~= chosen);
                        assert(before.data_to_time.remove_keys(before.expired_at(t as int))
                            =~= before.data_to_time);
                        assert(before.pinned_at(t as int) =~= Set::<Seq<char>>::empty());
                    }
                    PathSet::new()
                },
            };
            assert(kept@ =~= before.pinned_at(t as int));
            assert(evicted@ =~= chosen.union(before.expired_at(t as int)));
            assert(self@.data_to_time =~= before.data_to_time.remove_keys(
                before.expired_at(t as int),
            ));
            if !kept.is_empty() {
                self.state.time_to_data.put(t, kept);
                let ghost held_seq = held@;
                held.push(t);
                proof {
                    broadcast use vstd::seq_lib::group_to_multiset_ensures;

                    assert(instants(held@) =~= instants(held_seq).push(t as int));
                }
            }
            let _ = self.state.items.pop();
            proof {
                assert(self@.time_to_data =~= before.expire(t as int).time_to_data);
                assert(self@ =~= before.expire(t as int));
            }
        }
        let n = held.len();
        let mut i: usize = 0;
        let ghost rest = self@.items;
        proof {
            broadcast use vstd::seq_lib::group_to_multiset_ensures;

            let none = instants(held@.subrange(0, 0));
            assert(none.len() == 0);
            vstd::multiset::lemma_multiset_empty_len(none.to_multiset());
            assert(rest.add(none.to_multiset()) =~= rest);
        }
        while i < n
            invariant
                n == held@.len(),
                i <= n,
                self.wf(),
                self.same_settings(old(self)),
                self@.time_to_data == goal.state.time_to_data,
                self@.data_to_time == goal.state.data_to_time,
                self@.preserve == goal.state.preserve,
                self@.items == rest.add(instants(held@.subrange(0, i as int)).to_multiset()),
            decreases n - i,
        {
            proof {
                broadcast use vstd::seq_lib::group_to_multiset_ensures;

                assert(instants(held@.subrange(0, i + 1)) =~= instants(
                    held@.subrange(0, i as int),
                ).push(held@[i as int] as int));
                assert(rest.add(instants(held@.subrange(0, i as int)).to_multiset()).insert(
                    held@[i as int] as int,
                ) =~= rest.add(instants(held@.subrange(0, i + 1)).to_multiset()));
            }
            self.state.items.push(held[i]);
            i += 1;
        }
        assert(held@.subrange(0, n as int) =~= held@);
        assert(self@ =~= goal.state);
        evicted.into_paths()
    }

    /// One sweep now; the paths to delete come back, each once. Where the
    /// clock gives no instant, nothing is done.
    pub fn clean(&mut self) -> (swept: Option<(i64, Vec<String>)>)
        requires
            old(self).wf(),
        ensures
            final(self).wf(),
            final(self).same_settings(old(self)),
            match swept {
                Some((now, evicted)) => {
                    &&& final(self)@ == old(self).spec_sweep(now as int).state
                    &&& path_set(evicted@) == old(self).spec_sweep(now as int).evicted
                    &&& distinct_paths(evicted@)
                },
                None => final(self)@ == old(self)@,
            },
            old(self)@.consistent() ==> final(self)@.consistent(),
    {
        match current_instant() {
            Some(now) => {
                let evicted = self.clean_at(now);
                Some((now, evicted))
            },
            None => None,
        }
    }
}

} // verus!
