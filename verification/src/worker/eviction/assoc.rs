//! Lists of key-value pairs and the finite maps they stand for.
use vstd::prelude::*;

verus! {

/// No key stands twice in the list.
pub open spec fn keys_distinct<K, V>(s: Seq<(K, V)>) -> bool {
    forall|i: int, j: int| 0 <= i < j < s.len() ==> s[i].0 != s[j].0
}

pub open spec fn has_key<K, V>(s: Seq<(K, V)>, k: K) -> bool {
    exists|i: int| 0 <= i < s.len() && s[i].0 == k
}

pub open spec fn index_of<K, V>(s: Seq<(K, V)>, k: K) -> int {
    choose|i: int| 0 <= i < s.len() && s[i].0 == k
}

/// The finite map that a list of key-value pairs stands for.
pub open spec fn assoc<K, V>(s: Seq<(K, V)>) -> Map<K, V> {
    Map::new(|k: K| has_key(s, k), |k: K| s[index_of(s, k)].1)
}

pub proof fn lemma_assoc_at<K, V>(s: Seq<(K, V)>, i: int)
    requires
        keys_distinct(s),
        0 <= i < s.len(),
    ensures
        assoc(s).contains_key(s[i].0),
        assoc(s)[s[i].0] == s[i].1,
{
    let k = s[i].0;
    assert(has_key(s, k));
    let j = index_of(s, k);
    assert(0 <= j < s.len() && s[j].0 == k);
    if j < i {
        assert(s[j].0 != s[i].0);
    } else if i < j {
        assert(s[i].0 != s[j].0);
    }
}

pub proof fn lemma_assoc_empty<K, V>(s: Seq<(K, V)>)
    requires
        s.len() == 0,
    ensures
        keys_distinct(s),
        assoc(s) =~= Map::<K, V>::empty(),
{
}

pub proof fn lemma_assoc_push<K, V>(s: Seq<(K, V)>, k: K, v: V)
    requires
        keys_distinct(s),
        !assoc(s).contains_key(k),
    ensures
        keys_distinct(s.push((k, v))),
        assoc(s.push((k, v))) =~= assoc(s).insert(k, v),
{
    let t = s.push((k, v));
    assert forall|i: int, j: int| 0 <= i < j < t.len() implies t[i].0 != t[j].0 by {
        if j == s.len() {
            assert(s[i].0 == t[i].0);
            if t[i].0 == k {
                assert(has_key(s, k));
            }
        } else {
            assert(s[i].0 != s[j].0);
        }
    }
    assert forall|q: K| assoc(t).contains_key(q) <==> assoc(s).insert(k, v).contains_key(q) by {
        if has_key(t, q) {
            let i = index_of(t, q);
            if i < s.len() {
                assert(s[i].0 == q);
                assert(has_key(s, q));
            }
        }
        if has_key(s, q) {
            let i = index_of(s, q);
            assert(t[i].0 == q);
            assert(has_key(t, q));
        }
        if q == k {
            assert(t[s.len() as int].0 == q);
            assert(has_key(t, q));
        }
    }
    assert forall|q: K| assoc(t).contains_key(q) implies assoc(t)[q] == assoc(s).insert(k, v)[q] by {
        let i = index_of(t, q);
        lemma_assoc_at(t, i);
        if i < s.len() {
            assert(s[i] == t[i]);
            lemma_assoc_at(s, i);
        }
    }
}

pub proof fn lemma_assoc_remove<K, V>(s: Seq<(K, V)>, at: int)
    requires
        keys_distinct(s),
        0 <= at < s.len(),
    ensures
        keys_distinct(s.remove(at)),
        assoc(s.remove(at)) =~= assoc(s).remove(s[at].0),
{
    let t = s.remove(at);
    let k = s[at].0;
    assert forall|i: int, j: int| 0 <= i < j < t.len() implies t[i].0 != t[j].0 by {
        let si = if i < at { i } else { i + 1 };
        let sj = if j < at { j } else { j + 1 };
        assert(t[i] == s[si] && t[j] == s[sj]);
        assert(s[si].0 != s[sj].0);
    }
    assert forall|q: K| assoc(t).contains_key(q) <==> assoc(s).remove(k).contains_key(q) by {
        if has_key(t, q) {
            let i = index_of(t, q);
            let si = if i < at { i } else { i + 1 };
            assert(s[si] == t[i]);
            assert(has_key(s, q));
            if si < at {
                assert(s[si].0 != s[at].0);
            } else {
                assert(s[at].0 != s[si].0);
            }
        }
        if has_key(s, q) && q != k {
            let i = index_of(s, q);
            let ti = if i < at { i } else { i - 1 };
            assert(t[ti] == s[i]);
            assert(has_key(t, q));
        }
    }
    assert forall|q: K| assoc(t).contains_key(q) implies assoc(t)[q] == assoc(s).remove(k)[q] by {
        let i = index_of(t, q);
        let si = if i < at { i } else { i + 1 };
        lemma_assoc_at(t, i);
        assert(s[si] == t[i]);
        lemma_assoc_at(s, si);
    }
}

/// A list without repeated keys has as many pairs as its map has keys.
pub proof fn lemma_assoc_len<K, V>(s: Seq<(K, V)>)
    requires
        keys_distinct(s),
    ensures
        assoc(s).dom().finite(),
        assoc(s).dom().len() == s.len(),
    decreases s.len(),
{
    if s.len() == 0 {
        assert(assoc(s).dom() =~= Set::<K>::empty());
    } else {
        let last = s.len() - 1;
        let init = s.remove(last);
        lemma_assoc_remove(s, last);
        lemma_assoc_len(init);
        lemma_assoc_at(s, last);
        assert(assoc(s).dom() =~= assoc(init).dom().insert(s[last].0));
    }
}

/// The map that a list of pairs builds when each pair in turn is put into
/// it, a later pair taking the place of an earlier one with the same key.
pub open spec fn assoc_fold<K, V>(s: Seq<(K, V)>) -> Map<K, V>
    decreases s.len(),
{
    if s.len() == 0 {
        Map::empty()
    } else {
        assoc_fold(s.drop_last()).insert(s.last().0, s.last().1)
    }
}

pub proof fn lemma_assoc_fold_push<K, V>(s: Seq<(K, V)>, k: K, v: V)
    ensures
        assoc_fold(s.push((k, v))) == assoc_fold(s).insert(k, v),
{
    assert(s.push((k, v)).drop_last() =~= s);
}

/// Where no key stands twice, putting the pairs in one by one gives the map
/// that the list stands for.
pub proof fn lemma_assoc_fold<K, V>(s: Seq<(K, V)>)
    requires
        keys_distinct(s),
    ensures
        assoc_fold(s) == assoc(s),
    decreases s.len(),
{
    if s.len() == 0 {
        lemma_assoc_empty(s);
    } else {
        let init = s.drop_last();
        let last = s.last();
        assert(s =~= init.push(last));
        assert forall|i: int, j: int| 0 <= i < j < init.len() implies init[i].0 != init[j].0 by {
            assert(s[i].0 != s[j].0);
        }
        if has_key(init, last.0) {
            let i = index_of(init, last.0);
            assert(s[i].0 != s[s.len() - 1].0);
        }
        lemma_assoc_fold(init);
        lemma_assoc_push(init, last.0, last.1);
    }
}

} // verus!
