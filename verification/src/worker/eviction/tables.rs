//! Sets of paths, and the tables from instants to paths and back.
use vstd::prelude::*;
use crate::worker::eviction::assoc::{
    assoc, assoc_fold, has_key, index_of, keys_distinct, lemma_assoc_at, lemma_assoc_empty,
    lemma_assoc_fold, lemma_assoc_fold_push, lemma_assoc_len, lemma_assoc_push, lemma_assoc_remove,
};

verus! {

/// The set of paths that a list of strings names.
pub open spec fn path_set(s: Seq<String>) -> Set<Seq<char>> {
    Set::new(|p: Seq<char>| exists|i: int| 0 <= i < s.len() && s[i]@ == p)
}

/// No path stands twice in the list.
pub open spec fn distinct_paths(s: Seq<String>) -> bool {
    forall|i: int, j: int| 0 <= i < j < s.len() ==> s[i]@ != s[j]@
}

pub proof fn lemma_path_set_push(s: Seq<String>, p: String)
    ensures
        path_set(s.push(p)) =~= path_set(s).insert(p@),
{
    let t = s.push(p);
    assert forall|q: Seq<char>| path_set(t).contains(q) <==> path_set(s).insert(p@).contains(
        q,
    ) by {
        if path_set(t).contains(q) {
            let i = choose|i: int| 0 <= i < t.len() && t[i]@ == q;
            if i < s.len() {
                assert(s[i]@ == q);
            }
        }
        if path_set(s).contains(q) {
            let i = choose|i: int| 0 <= i < s.len() && s[i]@ == q;
            assert(t[i]@ == q);
        }
        if q == p@ {
            assert(t[s.len() as int]@ == q);
        }
    }
}

pub proof fn lemma_path_set_remove(s: Seq<String>, at: int)
    requires
        distinct_paths(s),
        0 <= at < s.len(),
    ensures
        distinct_paths(s.remove(at)),
        path_set(s.remove(at)) =~= path_set(s).remove(s[at]@),
{
    let t = s.remove(at);
    assert forall|i: int, j: int| 0 <= i < j < t.len() implies t[i]@ != t[j]@ by {
        let si = if i < at { i } else { i + 1 };
        let sj = if j < at { j } else { j + 1 };
        assert(t[i] == s[si] && t[j] == s[sj]);
    }
    assert forall|q: Seq<char>| path_set(t).contains(q) <==> path_set(s).remove(s[at]@).contains(
        q,
    ) by {
        if path_set(t).contains(q) {
            let i = choose|i: int| 0 <= i < t.len() && t[i]@ == q;
            let si = if i < at { i } else { i + 1 };
            assert(s[si] == t[i]);
        }
        if path_set(s).contains(q) && q != s[at]@ {
            let i = choose|i: int| 0 <= i < s.len() && s[i]@ == q;
            let ti = if i < at { i } else { i - 1 };
            assert(t[ti] == s[i]);
        }
    }
}

/// A set of paths. It stands for a hash set of paths: no path is held twice.
pub struct PathSet {
    paths: Vec<String>,
}

impl View for PathSet {
    type V = Set<Seq<char>>;

    closed spec fn view(&self) -> Set<Seq<char>> {
        path_set(self.paths@)
    }
}

impl PathSet {
    pub closed spec fn wf(&self) -> bool {
        distinct_paths(self.paths@)
    }

    pub fn new() -> (set: Self)
        ensures
            set.wf(),
            set@ == Set::<Seq<char>>::empty(),
    {
        let set = PathSet { paths: Vec::new() };
        assert(set@ =~= Set::<Seq<char>>::empty());
        set
    }

    pub fn is_empty(&self) -> (empty: bool)
        ensures
            empty == self@.is_empty(),
    {
        let empty = self.paths.len() == 0;
        proof {
            if !empty {
                assert(self.paths@[0]@ == self.paths@[0]@);
                assert(self@.contains(self.paths@[0]@));
            }
        }
        empty
    }

    fn position(&self, path: &String) -> (found: Option<usize>)
        ensures
            match found {
                Some(i) => i < self.paths@.len() && self.paths@[i as int]@ == path@,
                None => !self@.contains(path@),
            },
    {
        let n = self.paths.len();
        let mut i: usize = 0;
        while i < n
            invariant
                n == self.paths@.len(),
                i <= n,
                forall|j: int| 0 <= j < i ==> self.paths@[j]@ != path@,
            decreases n - i,
        {
            if self.paths[i] == *path {
                return Some(i);
            }
            i += 1;
        }
        None
    }

    pub fn contains(&self, path: &String) -> (held: bool)
        ensures
            held == self@.contains(path@),
    {
        self.position(path).is_some()
    }

    /// Puts `path` in; says whether it was new.
    pub fn insert(&mut self, path: String) -> (fresh: bool)
        requires
            old(self).wf(),
        ensures
            final(self).wf(),
            final(self)@ == old(self)@.insert(path@),
            fresh == !old(self)@.contains(path@),
    {
        if self.position(&path).is_some() {
            assert(self@ =~= self@.insert(path@));
            false
        } else {
            proof {
                lemma_path_set_push(self.paths@, path);
            }
            self.paths.push(path);
            true
        }
    }

    /// Takes `path` out; says whether it was held.
    pub fn remove(&mut self, path: &String) -> (held: bool)
        requires
            old(self).wf(),
        ensures
            final(self).wf(),
            final(self)@ == old(self)@.remove(path@),
            held == old(self)@.contains(path@),
    {
        match self.position(path) {
            Some(i) => {
                proof {
                    lemma_path_set_remove(self.paths@, i as int);
                }
                let _ = self.paths.remove(i);
                true
            },
            None => {
                assert(self@ =~= self@.remove(path@));
                false
            },
        }
    }

    /// The set of the paths that `paths` names.
    pub fn from_paths(paths: &Vec<String>) -> (set: Self)
        ensures
            set.wf(),
            set@ == path_set(paths@),
    {
        let n = paths.len();
        let mut set = PathSet::new();
        let mut i: usize = 0;
        while i < n
            invariant
                n == paths@.len(),
                i <= n,
                set.wf(),
                set@ == path_set(paths@.subrange(0, i as int)),
            decreases n - i,
        {
            proof {
                assert(paths@.subrange(0, i + 1) =~= paths@.subrange(0, i as int).push(
                    paths@[i as int],
                ));
                lemma_path_set_push(paths@.subrange(0, i as int), paths@[i as int]);
            }
            let _ = set.insert(paths[i].clone());
            i += 1;
        }
        assert(paths@.subrange(0, n as int) =~= paths@);
        set
    }

    /// The paths held, each once, in no particular order.
    pub fn into_paths(self) -> (paths: Vec<String>)
        requires
            self.wf(),
        ensures
            distinct_paths(paths@),
            path_set(paths@) == self@,
    {
        self.paths
    }

    /// A copy of the paths held, each once, in no particular order.
    pub fn to_paths(&self) -> (paths: Vec<String>)
        requires
            self.wf(),
        ensures
            distinct_paths(paths@),
            path_set(paths@) == self@,
    {
        let n = self.paths.len();
        let mut paths: Vec<String> = Vec::new();
        let mut i: usize = 0;
        while i < n
            invariant
                n == self.paths@.len(),
                i <= n,
                paths@.len() == i,
                forall|j: int| 0 <= j < i ==> paths@[j]@ == self.paths@[j]@,
            decreases n - i,
        {
            paths.push(self.paths[i].clone());
            i += 1;
        }
        proof {
            assert forall|q: Seq<char>| path_set(paths@).contains(q) <==> self@.contains(q) by {
                if path_set(paths@).contains(q) {
                    let j = choose|j: int| 0 <= j < paths@.len() && paths@[j]@ == q;
                    assert(self.paths@[j]@ == q);
                }
                if self@.contains(q) {
                    let j = choose|j: int| 0 <= j < self.paths@.len() && self.paths@[j]@ == q;
                    assert(paths@[j]@ == q);
                }
            }
            assert(path_set(paths@) =~= self@);
        }
        paths
    }
}

pub open spec fn path_pairs(s: Seq<(String, i64)>) -> Seq<(Seq<char>, int)> {
    s.map_values(|r: (String, i64)| (r.0@, r.1 as int))
}

/// The map from paths to instants that a list of pairs builds, a later pair
/// taking the place of an earlier one with the same path.
pub open spec fn path_map(s: Seq<(String, i64)>) -> Map<Seq<char>, int> {
    assoc_fold(path_pairs(s))
}

/// The map from instants to path sets that a list of plain records builds, a
/// later record taking the place of an earlier one with the same instant.
pub open spec fn time_map(s: Seq<(i64, Vec<String>)>) -> Map<int, Set<Seq<char>>> {
    assoc_fold(time_records(s))
}

/// A finite map from paths to instants. It stands for a hash map keyed by
/// path: no path is held twice.
pub struct PathTable {
    records: Vec<(String, i64)>,
}

impl View for PathTable {
    type V = Map<Seq<char>, int>;

    closed spec fn view(&self) -> Map<Seq<char>, int> {
        assoc(path_pairs(self.records@))
    }
}

impl PathTable {
    pub closed spec fn wf(&self) -> bool {
        keys_distinct(path_pairs(self.records@))
    }

    pub fn new() -> (table: Self)
        ensures
            table.wf(),
            table@ == Map::<Seq<char>, int>::empty(),
    {
        let table = PathTable { records: Vec::new() };
        proof {
            lemma_assoc_empty(path_pairs(table.records@));
        }
        table
    }

    pub fn len(&self) -> (n: usize)
        requires
            self.wf(),
        ensures
            self@.dom().finite(),
            n == self@.dom().len(),
    {
        proof {
            lemma_assoc_len(path_pairs(self.records@));
        }
        self.records.len()
    }

    fn position(&self, path: &String) -> (found: Option<usize>)
        requires
            self.wf(),
        ensures
            match found {
                Some(i) => i < self.records@.len() && self.records@[i as int].0@ == path@
                    && self@.contains_key(path@) && self@[path@] == self.records@[i as int].1,
                None => !self@.contains_key(path@),
            },
    {
        let n = self.records.len();
        let mut i: usize = 0;
        while i < n
            invariant
                self.wf(),
                n == self.records@.len(),
                i <= n,
                forall|j: int| 0 <= j < i ==> self.records@[j].0@ != path@,
            decreases n - i,
        {
            if self.records[i].0 == *path {
                proof {
                    lemma_assoc_at(path_pairs(self.records@), i as int);
                }
                return Some(i);
            }
            i += 1;
        }
        proof {
            let pairs = path_pairs(self.records@);
            if has_key(pairs, path@) {
                let j = index_of(pairs, path@);
                assert(self.records@[j].0@ == path@);
            }
        }
        None
    }

    pub fn get(&self, path: &String) -> (time: Option<i64>)
        requires
            self.wf(),
        ensures
            match time {
                Some(t) => self@.contains_key(path@) && self@[path@] == t,
                None => !self@.contains_key(path@),
            },
    {
        match self.position(path) {
            Some(i) => Some(self.records[i].1),
            None => None,
        }
    }

    pub fn remove(&mut self, path: &String)
        requires
            old(self).wf(),
        ensures
            final(self).wf(),
            final(self)@ == old(self)@.remove(path@),
    {
        match self.position(path) {
            Some(i) => {
                proof {
                    let pairs = path_pairs(self.records@);
                    lemma_assoc_remove(pairs, i as int);
                    assert(path_pairs(self.records@.remove(i as int)) =~= pairs.remove(i as int));
                }
                let _ = self.records.remove(i);
            },
            None => {
                assert(self@ =~= self@.remove(path@));
            },
        }
    }

    pub fn insert(&mut self, path: String, time: i64)
        requires
            old(self).wf(),
        ensures
            final(self).wf(),
            final(self)@ == old(self)@.insert(path@, time as int),
    {
        self.remove(&path);
        proof {
            let pairs = path_pairs(self.records@);
            lemma_assoc_push(pairs, path@, time as int);
            assert(path_pairs(self.records@.push((path, time))) =~= pairs.push(
                (path@, time as int),
            ));
            assert(old(self)@.remove(path@).insert(path@, time as int) =~= old(self)@.insert(
                path@,
                time as int,
            ));
        }
        self.records.push((path, time));
    }

    /// The table that `pairs` builds, a later pair taking the place of an
    /// earlier one with the same path.
    pub fn from_entries(pairs: &Vec<(String, i64)>) -> (table: Self)
        ensures
            table.wf(),
            table@ == path_map(pairs@),
    {
        let n = pairs.len();
        let mut table = PathTable::new();
        let mut i: usize = 0;
        assert(path_pairs(pairs@.subrange(0, 0)) =~= Seq::empty());
        while i < n
            invariant
                n == pairs@.len(),
                i <= n,
                table.wf(),
                table@ == path_map(pairs@.subrange(0, i as int)),
            decreases n - i,
        {
            proof {
                let done = path_pairs(pairs@.subrange(0, i as int));
                let pair = (pairs@[i as int].0@, pairs@[i as int].1 as int);
                assert(path_pairs(pairs@.subrange(0, i + 1)) =~= done.push(pair));
                lemma_assoc_fold_push(done, pair.0, pair.1);
            }
            table.insert(pairs[i].0.clone(), pairs[i].1);
            i += 1;
        }
        assert(pairs@.subrange(0, n as int) =~= pairs@);
        table
    }

    /// A copy of the pairs held, each path once, in no particular order.
    pub fn entries(&self) -> (pairs: Vec<(String, i64)>)
        requires
            self.wf(),
        ensures
            path_map(pairs@) == self@,
    {
        let n = self.records.len();
        let mut pairs: Vec<(String, i64)> = Vec::new();
        let mut i: usize = 0;
        while i < n
            invariant
                n == self.records@.len(),
                i <= n,
                pairs@.len() == i,
                forall|j: int|
                    0 <= j < i ==> pairs@[j].0@ == self.records@[j].0@ && pairs@[j].1
                        == self.records@[j].1,
            decreases n - i,
        {
            pairs.push((self.records[i].0.clone(), self.records[i].1));
            i += 1;
        }
        proof {
            assert(path_pairs(pairs@) =~= path_pairs(self.records@));
            lemma_assoc_fold(path_pairs(pairs@));
        }
        pairs
    }
}

pub open spec fn time_pairs(s: Seq<(i64, PathSet)>) -> Seq<(int, Set<Seq<char>>)> {
    s.map_values(|r: (i64, PathSet)| (r.0 as int, r.1@))
}

/// A finite map from instants to the sets of paths recorded at them. It
/// stands for a hash map keyed by instant: no instant is held twice.
pub struct TimeTable {
    records: Vec<(i64, PathSet)>,
}

impl View for TimeTable {
    type V = Map<int, Set<Seq<char>>>;

    closed spec fn view(&self) -> Map<int, Set<Seq<char>>> {
        assoc(time_pairs(self.records@))
    }
}

impl TimeTable {
    pub closed spec fn wf(&self) -> bool {
        &&& keys_distinct(time_pairs(self.records@))
        &&& forall|i: int| 0 <= i < self.records@.len() ==> (#[trigger] self.records@[i]).1.wf()
    }

    pub fn new() -> (table: Self)
        ensures
            table.wf(),
            table@ == Map::<int, Set<Seq<char>>>::empty(),
    {
        let table = TimeTable { records: Vec::new() };
        proof {
            lemma_assoc_empty(time_pairs(table.records@));
        }
        table
    }

    pub fn len(&self) -> (n: usize)
        requires
            self.wf(),
        ensures
            self@.dom().finite(),
            n == self@.dom().len(),
    {
        proof {
            lemma_assoc_len(time_pairs(self.records@));
        }
        self.records.len()
    }

    fn position(&self, time: i64) -> (found: Option<usize>)
        requires
            self.wf(),
        ensures
            match found {
                Some(i) => i < self.records@.len() && self.records@[i as int].0 == time
                    && self@.contains_key(time as int) && self@[time as int]
                    == self.records@[i as int].1@,
                None => !self@.contains_key(time as int),
            },
    {
        let n = self.records.len();
        let mut i: usize = 0;
        while i < n
            invariant
                self.wf(),
                n == self.records@.len(),
                i <= n,
                forall|j: int| 0 <= j < i ==> self.records@[j].0 != time,
            decreases n - i,
        {
            if self.records[i].0 == time {
                proof {
                    lemma_assoc_at(time_pairs(self.records@), i as int);
                }
                return Some(i);
            }
            i += 1;
        }
        proof {
            let pairs = time_pairs(self.records@);
            if has_key(pairs, time as int) {
                let j = index_of(pairs, time as int);
                assert(self.records@[j].0 == time);
            }
        }
        None
    }

    /// Takes the record of `time` out, if there is one.
    pub fn take(&mut self, time: i64) -> (paths: Option<PathSet>)
        requires
            old(self).wf(),
        ensures
            final(self).wf(),
            final(self)@ == old(self)@.remove(time as int),
            match paths {
                Some(set) => set.wf() && old(self)@.contains_key(time as int) && old(
                    self,
                )@[time as int] == set@,
                None => !old(self)@.contains_key(time as int),
            },
    {
        match self.position(time) {
            Some(i) => {
                proof {
                    let pairs = time_pairs(self.records@);
                    lemma_assoc_remove(pairs, i as int);
                    assert(time_pairs(self.records@.remove(i as int)) =~= pairs.remove(i as int));
                }
                let record = self.records.remove(i);
                Some(record.1)
            },
            None => {
                assert(self@ =~= self@.remove(time as int));
                None
            },
        }
    }

    /// Records `paths` at `time`, in place of what was recorded there.
    pub fn put(&mut self, time: i64, paths: PathSet)
        requires
            old(self).wf(),
            paths.wf(),
        ensures
            final(self).wf(),
            final(self)@ == old(self)@.insert(time as int, paths@),
    {
        let _ = self.take(time);
        proof {
            let pairs = time_pairs(self.records@);
            lemma_assoc_push(pairs, time as int, paths@);
            assert(time_pairs(self.records@.push((time, paths))) =~= pairs.push(
                (time as int, paths@),
            ));
            assert(old(self)@.remove(time as int).insert(time as int, paths@) =~= old(
                self,
            )@.insert(time as int, paths@));
        }
        self.records.push((time, paths));
    }

    /// The table that `records` builds, a later record taking the place of an
    /// earlier one with the same instant.
    pub fn from_entries(records: &Vec<(i64, Vec<String>)>) -> (table: Self)
        ensures
            table.wf(),
            table@ == time_map(records@),
    {
        let n = records.len();
        let mut table = TimeTable::new();
        let mut i: usize = 0;
        assert(time_records(records@.subrange(0, 0)) =~= Seq::empty());
        while i < n
            invariant
                n == records@.len(),
                i <= n,
                table.wf(),
                table@ == time_map(records@.subrange(0, i as int)),
            decreases n - i,
        {
            proof {
                let done = time_records(records@.subrange(0, i as int));
                let pair = (records@[i as int].0 as int, path_set(records@[i as int].1@));
                assert(time_records(records@.subrange(0, i + 1)) =~= done.push(pair));
                lemma_assoc_fold_push(done, pair.0, pair.1);
            }
            let paths = PathSet::from_paths(&records[i].1);
            table.put(records[i].0, paths);
            i += 1;
        }
        assert(records@.subrange(0, n as int) =~= records@);
        table
    }

    /// A copy of the records held, each instant once, in no particular order.
    pub fn entries(&self) -> (records: Vec<(i64, Vec<String>)>)
        requires
            self.wf(),
        ensures
            time_map(records@) == self@,
    {
        let n = self.records.len();
        let mut records: Vec<(i64, Vec<String>)> = Vec::new();
        let mut i: usize = 0;
        while i < n
            invariant
                self.wf(),
                n == self.records@.len(),
                i <= n,
                records@.len() == i,
                forall|j: int|
                    0 <= j < i ==> records@[j].0 == self.records@[j].0 && path_set(records@[j].1@)
                        == self.records@[j].1@,
            decreases n - i,
        {
            let paths = self.records[i].1.to_paths();
            records.push((self.records[i].0, paths));
            i += 1;
        }
        proof {
            assert(time_records(records@) =~= time_pairs(self.records@));
            lemma_assoc_fold(time_records(records@));
        }
        records
    }
}

/// The pairs of instant and path set that a list of plain records stands for.
pub open spec fn time_records(s: Seq<(i64, Vec<String>)>) -> Seq<(int, Set<Seq<char>>)> {
    s.map_values(|r: (i64, Vec<String>)| (r.0 as int, path_set(r.1@)))
}

} // verus!
