//! A priority queue of instants.
use vstd::prelude::*;
use vstd::multiset::Multiset;

verus! {

/// `t` occurs in `m` and nothing in `m` is earlier.
pub open spec fn is_least(m: Multiset<int>, t: int) -> bool {
    m.contains(t) && forall|u: int| m.contains(u) ==> t <= u
}

/// The earliest instant of a non-empty multiset.
pub open spec fn least(m: Multiset<int>) -> int {
    choose|t: int| is_least(m, t)
}

/// Every non-empty multiset of instants has an earliest one.
pub proof fn lemma_least_exists(m: Multiset<int>)
    requires
        m.len() > 0,
    ensures
        is_least(m, least(m)),
    decreases m.len(),
{
    let x = m.choose();
    let rest = m.remove(x);
    if rest.len() == 0 {
        assert forall|u: int| m.contains(u) implies x <= u by {
            if u != x {
                assert(rest.contains(u));
            }
        }
        assert(is_least(m, x));
    } else {
        lemma_least_exists(rest);
        let y = least(rest);
        let z = if x <= y { x } else { y };
        assert(m.contains(y));
        assert forall|u: int| m.contains(u) implies z <= u by {
            if u != x {
                assert(rest.contains(u));
            }
        }
        assert(is_least(m, z));
    }
}

/// The earliest instant is unique.
pub proof fn lemma_least_unique(m: Multiset<int>, t: int)
    requires
        is_least(m, t),
    ensures
        least(m) == t,
{
}

pub open spec fn instants(s: Seq<i64>) -> Seq<int> {
    s.map_values(|t: i64| t as int)
}

/// A priority queue of instants that hands out the earliest first. It stands
/// for a binary min-heap: what it holds is a multiset, kept here in
/// descending order so that the earliest instant is the last element.
pub struct TimeHeap {
    times: Vec<i64>,
}

impl View for TimeHeap {
    type V = Multiset<int>;

    closed spec fn view(&self) -> Multiset<int> {
        instants(self.times@).to_multiset()
    }
}

proof fn lemma_insert_multiset(s: Seq<int>, i: int, x: int)
    requires
        0 <= i <= s.len(),
    ensures
        s.insert(i, x).to_multiset() == s.to_multiset().insert(x),
{
    broadcast use vstd::seq_lib::group_to_multiset_ensures;

    let head = s.subrange(0, i);
    let tail = s.subrange(i, s.len() as int);
    assert(s =~= head + tail);
    assert(s.insert(i, x) =~= head.push(x) + tail);
    vstd::seq_lib::lemma_multiset_commutative(head, tail);
    vstd::seq_lib::lemma_multiset_commutative(head.push(x), tail);
    assert(head.push(x).to_multiset() =~= head.to_multiset().insert(x));
    assert(head.to_multiset().insert(x).add(tail.to_multiset()) =~= head.to_multiset().add(
        tail.to_multiset(),
    ).insert(x));
}

impl TimeHeap {
    /// The instants are held latest first.
    pub closed spec fn wf(&self) -> bool {
        forall|i: int, j: int| 0 <= i <= j < self.times@.len() ==> self.times@[i] >= self.times@[j]
    }

    pub fn new() -> (heap: Self)
        ensures
            heap.wf(),
            heap@ == Multiset::<int>::empty(),
    {
        let heap = TimeHeap { times: Vec::new() };
        proof {
            broadcast use vstd::seq_lib::group_to_multiset_ensures;

            assert(instants(heap.times@).len() == 0);
            vstd::multiset::lemma_multiset_empty_len(heap@);
        }
        heap
    }

    pub fn len(&self) -> (n: usize)
        ensures
            n == self@.len(),
    {
        proof {
            broadcast use vstd::seq_lib::group_to_multiset_ensures;

        }
        self.times.len()
    }

    proof fn lemma_last_is_least(&self)
        requires
            self.wf(),
            self.times@.len() > 0,
        ensures
            is_least(self@, self.times@.last() as int),
    {
        broadcast use vstd::seq_lib::group_to_multiset_ensures;

        let s = instants(self.times@);
        let t = self.times@.last() as int;
        assert(s[s.len() - 1] == t);
        assert(s.contains(t));
        assert forall|u: int| self@.contains(u) implies t <= u by {
            assert(s.contains(u));
            let i = choose|i: int| 0 <= i < s.len() && s[i] == u;
            assert(self.times@[i] >= self.times@[s.len() - 1]);
        }
    }

    /// The earliest instant, if there is any.
    pub fn peek(&self) -> (earliest: Option<i64>)
        requires
            self.wf(),
        ensures
            match earliest {
                None => self@.len() == 0,
                Some(t) => is_least(self@, t as int),
            },
    {
        let n = self.times.len();
        if n == 0 {
            proof {
                broadcast use vstd::seq_lib::group_to_multiset_ensures;

            }
            None
        } else {
            proof {
                self.lemma_last_is_least();
            }
            Some(self.times[n - 1])
        }
    }

    /// Takes the earliest instant out, if there is any.
    pub fn pop(&mut self) -> (earliest: Option<i64>)
        requires
            old(self).wf(),
        ensures
            final(self).wf(),
            match earliest {
                None => old(self)@.len() == 0 && final(self)@ == old(self)@,
                Some(t) => is_least(old(self)@, t as int) && final(self)@ == old(self)@.remove(
                    t as int,
                ),
            },
    {
        let n = self.times.len();
        if n == 0 {
            proof {
                broadcast use vstd::seq_lib::group_to_multiset_ensures;

            }
            return None;
        }
        proof {
            self.lemma_last_is_least();
        }
        let ghost before = instants(self.times@);
        let popped = self.times.pop();
        proof {
            broadcast use vstd::seq_lib::group_to_multiset_ensures;

            assert(instants(self.times@) =~= before.remove(n - 1));
        }
        popped
    }

    /// A copy of the instants held, the latest first.
    pub fn to_vec(&self) -> (times: Vec<i64>)
        ensures
            instants(times@).to_multiset() == self@,
    {
        let n = self.times.len();
        let mut times: Vec<i64> = Vec::new();
        let mut i: usize = 0;
        while i < n
            invariant
                n == self.times@.len(),
                i <= n,
                times@ =~= self.times@.subrange(0, i as int),
            decreases n - i,
        {
            times.push(self.times[i]);
            i += 1;
        }
        assert(times@ =~= self.times@);
        times
    }

    /// The heap of the instants that `times` lists.
    pub fn from_vec(times: &Vec<i64>) -> (heap: Self)
        ensures
            heap.wf(),
            heap@ == instants(times@).to_multiset(),
    {
        let n = times.len();
        let mut heap = TimeHeap::new();
        let mut i: usize = 0;
        proof {
            broadcast use vstd::seq_lib::group_to_multiset_ensures;

            let none = instants(times@.subrange(0, 0));
            assert(none.len() == 0);
            vstd::multiset::lemma_multiset_empty_len(none.to_multiset());
        }
        while i < n
            invariant
                n == times@.len(),
                i <= n,
                heap.wf(),
                heap@ == instants(times@.subrange(0, i as int)).to_multiset(),
            decreases n - i,
        {
            proof {
                broadcast use vstd::seq_lib::group_to_multiset_ensures;

                assert(instants(times@.subrange(0, i + 1)) =~= instants(
                    times@.subrange(0, i as int),
                ).push(times@[i as int] as int));
            }
            heap.push(times[i]);
            i += 1;
        }
        assert(times@.subrange(0, n as int) =~= times@);
        heap
    }

    /// Puts one more instant in.
    pub fn push(&mut self, t: i64)
        requires
            old(self).wf(),
        ensures
            final(self).wf(),
            final(self)@ == old(self)@.insert(t as int),
    {
        let n = self.times.len();
        let mut at: usize = 0;
        while at < n && self.times[at] > t
            invariant
                n == self.times@.len(),
                at <= n,
                self.times@ == old(self).times@,
                forall|i: int| 0 <= i < at ==> self.times@[i] > t,
            decreases n - at,
        {
            at += 1;
        }
        let ghost before = instants(self.times@);
        self.times.insert(at, t);
        proof {
            assert(instants(self.times@) =~= before.insert(at as int, t as int));
            lemma_insert_multiset(before, at as int, t as int);
        }
    }
}

} // verus!
