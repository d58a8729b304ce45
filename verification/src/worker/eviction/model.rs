//! The state of an eviction manager as mathematics, and what a visit and a
//! sweep do to it.
use vstd::prelude::*;
use vstd::multiset::Multiset;
use crate::worker::eviction::heap::{least, lemma_least_exists};

verus! {

/// What an eviction manager knows, as mathematics: the instants still to be
/// looked at, the paths recorded at each instant, the latest instant of each
/// path, and the paths that are pinned.
#[verifier::ext_equal]
pub struct EvictionModel {
    pub items: Multiset<int>,
    pub time_to_data: Map<int, Set<Seq<char>>>,
    pub data_to_time: Map<Seq<char>, int>,
    pub preserve: Set<Seq<char>>,
}

/// What one sweep leaves behind: the state after it, the paths to delete,
/// and the instants that were put back because a pinned path is recorded at
/// them.
#[verifier::ext_equal]
pub struct Sweep {
    pub state: EvictionModel,
    pub evicted: Set<Seq<char>>,
    pub held: Multiset<int>,
}

impl EvictionModel {
    pub open spec fn empty() -> Self {
        EvictionModel {
            items: Multiset::empty(),
            time_to_data: Map::empty(),
            data_to_time: Map::empty(),
            preserve: Set::empty(),
        }
    }

    /// The paths recorded at instant `t`.
    pub open spec fn paths_at(self, t: int) -> Set<Seq<char>> {
        if self.time_to_data.contains_key(t) {
            self.time_to_data[t]
        } else {
            Set::empty()
        }
    }

    /// `path` is recorded at `t`, and `t` is its latest instant.
    pub open spec fn live(self, path: Seq<char>, t: int) -> bool {
        &&& self.paths_at(t).contains(path)
        &&& self.data_to_time.contains_key(path)
        &&& self.data_to_time[path] == t
    }

    /// The state after `path` was touched at `now`.
    pub open spec fn visit(self, path: Seq<char>, now: int) -> Self {
        EvictionModel {
            items: self.items.insert(now),
            time_to_data: self.time_to_data.insert(now, self.paths_at(now).insert(path)),
            data_to_time: self.data_to_time.insert(path, now),
            preserve: self.preserve,
        }
    }

    /// The state after `path` was pinned and touched at `now`.
    pub open spec fn enter(self, path: Seq<char>, now: int) -> Self {
        EvictionModel { preserve: self.preserve.insert(path), ..self }.visit(path, now)
    }

    /// The state after `path` was unpinned.
    pub open spec fn leave(self, path: Seq<char>) -> Self {
        EvictionModel { preserve: self.preserve.remove(path), ..self }
    }

    /// What of the state is written out: all but the pinned paths.
    pub open spec fn persisted(self) -> Self {
        EvictionModel { preserve: Set::empty(), ..self }
    }

    /// The state after the persisted fields of `recovered` took the place of
    /// its own: the pinned paths stay.
    pub open spec fn restore(self, recovered: Self) -> Self {
        EvictionModel { preserve: self.preserve, ..recovered }
    }

    /// A later visit of `path` than the one at `t` is known.
    pub open spec fn superseded(self, path: Seq<char>, t: int) -> bool {
        self.data_to_time.contains_key(path) && self.data_to_time[path] > t
    }

    /// The pinned ones among `paths`.
    pub open spec fn pinned_among(self, paths: Set<Seq<char>>) -> Set<Seq<char>> {
        paths.intersect(self.preserve)
    }

    /// Those of `paths` that a record of `t` gives up: the ones that are
    /// neither pinned nor visited again later than `t`.
    pub open spec fn expired_among(self, paths: Set<Seq<char>>, t: int) -> Set<Seq<char>> {
        Set::new(
            |p: Seq<char>|
                paths.contains(p) && !self.preserve.contains(p) && !self.superseded(p, t),
        )
    }

    /// The pinned ones among the paths recorded at `t`.
    pub open spec fn pinned_at(self, t: int) -> Set<Seq<char>> {
        self.pinned_among(self.paths_at(t))
    }

    /// The paths that the record of `t` gives up.
    pub open spec fn expired_at(self, t: int) -> Set<Seq<char>> {
        self.expired_among(self.paths_at(t), t)
    }

    /// The state after the record of `t` was dealt with and one `t` was taken
    /// from the instants: the pinned paths stay recorded at `t`, the others
    /// leave, and those that expire are forgotten.
    pub open spec fn expire(self, t: int) -> Self {
        EvictionModel {
            items: self.items.remove(t),
            time_to_data: if self.pinned_at(t).is_empty() {
                self.time_to_data.remove(t)
            } else {
                self.time_to_data.insert(t, self.pinned_at(t))
            },
            data_to_time: self.data_to_time.remove_keys(self.expired_at(t)),
            preserve: self.preserve,
        }
    }

    /// The earliest instant is too old, or there are too many instants.
    pub open spec fn due(self, now: int, ttl: int, capacity: int) -> bool {
        self.items.len() > 0 && !(now - least(self.items) < ttl && self.items.len() <= capacity)
    }

    /// The rest of a sweep that has put `held` aside and chosen `evicted` so
    /// far.
    pub open spec fn sweep_from(
        self,
        held: Multiset<int>,
        evicted: Set<Seq<char>>,
        now: int,
        ttl: int,
        capacity: int,
    ) -> Sweep
        decreases self.items.len(),
        via Self::sweep_from_decreases
    {
        if self.due(now, ttl, capacity) {
            let t = least(self.items);
            self.expire(t).sweep_from(
                if self.pinned_at(t).is_empty() {
                    held
                } else {
                    held.insert(t)
                },
                evicted.union(self.expired_at(t)),
                now,
                ttl,
                capacity,
            )
        } else {
            Sweep { state: EvictionModel { items: self.items.add(held), ..self }, evicted, held }
        }
    }

    #[via_fn]
    proof fn sweep_from_decreases(
        self,
        held: Multiset<int>,
        evicted: Set<Seq<char>>,
        now: int,
        ttl: int,
        capacity: int,
    ) {
        if self.due(now, ttl, capacity) {
            lemma_least_exists(self.items);
        }
    }

    /// One sweep at `now`: as long as the earliest instant is at least `ttl`
    /// old or more than `capacity` instants are held, the earliest record is
    /// dealt with; at the end the instants of pinned records are put back.
    pub open spec fn sweep(self, now: int, ttl: int, capacity: int) -> Sweep {
        self.sweep_from(Multiset::empty(), Set::empty(), now, ttl, capacity)
    }

    /// Every recorded instant is still to be looked at, no record is empty,
    /// and every path with a latest instant is recorded at it.
    pub open spec fn consistent(self) -> bool {
        &&& forall|t: int| #[trigger]
            self.time_to_data.contains_key(t) ==> self.items.contains(t)
                && !self.time_to_data[t].is_empty()
        &&& forall|p: Seq<char>| #[trigger]
            self.data_to_time.contains_key(p) ==> self.paths_at(self.data_to_time[p]).contains(p)
    }
}

} // verus!
