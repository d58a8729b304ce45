//! Runs of bytes.
use vstd::prelude::*;

verus! {

/// Whether `s[start..end]` is `other`.
pub fn same_bytes(s: &[u8], start: usize, end: usize, other: &[u8]) -> (same: bool)
    requires
        start <= end <= s@.len(),
    ensures
        same == (s@.subrange(start as int, end as int) == other@),
{
    let n = other.len();
    if end - start != n {
        return false;
    }
    let mut i: usize = 0;
    while i < n
        invariant
            start <= end <= s@.len(),
            n == other@.len(),
            end - start == n,
            i <= n,
            forall|j: int| 0 <= j < i ==> s@[start + j] == other@[j],
        decreases n - i,
    {
        if s[start + i] != other[i] {
            proof {
                let part = s@.subrange(start as int, end as int);
                assert(part[i as int] != other@[i as int]);
            }
            return false;
        }
        i += 1;
    }
    assert(s@.subrange(start as int, end as int) =~= other@);
    true
}

/// The bytes of `s[start..end]`.
pub fn copy_bytes(s: &[u8], start: usize, end: usize) -> (copy: Vec<u8>)
    requires
        start <= end <= s@.len(),
    ensures
        copy@ == s@.subrange(start as int, end as int),
{
    let mut copy: Vec<u8> = Vec::new();
    let mut at = start;
    while at < end
        invariant
            start <= at <= end <= s@.len(),
            copy@ == s@.subrange(start as int, at as int),
        decreases end - at,
    {
        copy.push(s[at]);
        assert(copy@ =~= s@.subrange(start as int, at + 1));
        at += 1;
    }
    copy
}

} // verus!
