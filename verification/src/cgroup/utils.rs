//! Where the process stands in the unified hierarchy.
use vstd::prelude::*;
use vstd::string::StringSliceAdditionalSpecFns;
use crate::cgroup::cpuset::{find, first_index, COLON, NEWLINE, ZERO};
use crate::shared::bytes::copy_bytes;

verus! {

pub const SLASH: u8 = 47;

/// What begins the line of the unified hierarchy in the list of a process's
/// cgroups: hierarchy zero, no controllers.
pub open spec fn unified_prefix() -> Seq<u8> {
    seq![ZERO, COLON, COLON]
}

pub open spec fn starts_with(s: Seq<u8>, prefix: Seq<u8>) -> bool {
    s.len() >= prefix.len() && s.subrange(0, prefix.len() as int) == prefix
}

/// `s` without the slashes at its beginning.
pub open spec fn without_leading_slashes(s: Seq<u8>) -> Seq<u8>
    decreases s.len(),
{
    if s.len() > 0 && s[0] == SLASH {
        without_leading_slashes(s.drop_first())
    } else {
        s
    }
}

/// The path of the process's cgroup in the unified hierarchy, counted from
/// the root of the hierarchy: what follows the prefix in the first line of
/// the list of its cgroups that begins with it, without the slashes at its
/// beginning.
pub open spec fn self_cgroup_of(content: Seq<u8>) -> Option<Seq<u8>>
    decreases content.len(),
{
    if content.len() == 0 {
        None
    } else {
        let end = first_index(content, NEWLINE);
        let line = content.subrange(0, end);
        if starts_with(line, unified_prefix()) {
            Some(without_leading_slashes(line.subrange(3, line.len() as int)))
        } else if 0 <= end < content.len() {
            self_cgroup_of(content.subrange(end + 1, content.len() as int))
        } else {
            None
        }
    }
}

proof fn lemma_without_leading_slashes(s: Seq<u8>, k: int)
    requires
        0 <= k <= s.len(),
        forall|i: int| 0 <= i < k ==> s[i] == SLASH,
        k < s.len() ==> s[k] != SLASH,
    ensures
        without_leading_slashes(s) == s.subrange(k, s.len() as int),
    decreases k,
{
    if k == 0 {
        assert(s.subrange(0, s.len() as int) =~= s);
    } else {
        let rest = s.drop_first();
        assert forall|i: int| 0 <= i < k - 1 implies rest[i] == SLASH by {
            assert(rest[i] == s[i + 1]);
        }
        lemma_without_leading_slashes(rest, k - 1);
        assert(rest.subrange(k - 1, rest.len() as int) =~= s.subrange(k, s.len() as int));
    }
}

/// The path of the process's cgroup in the unified hierarchy, counted from
/// the root of the hierarchy and read from the list of the process's
/// cgroups; none where the list has no line for that hierarchy.
pub fn check_and_get_self_cgroup(content: &str) -> (path: Option<Vec<u8>>)
    ensures
        match self_cgroup_of(content.spec_bytes()) {
            Some(found) => path.is_some() && path.unwrap()@ == found,
            None => path.is_none(),
        },
{
    let s = content.as_bytes();
    let n = s.len();
    let mut start: usize = 0;
    assert(s@.subrange(0, n as int) =~= s@);
    while start < n
        invariant
            start <= n == s@.len(),
            s@ == content.spec_bytes(),
            self_cgroup_of(s@) == self_cgroup_of(s@.subrange(start as int, n as int)),
        decreases n - start,
    {
        let ghost tail = s@.subrange(start as int, n as int);
        let end = find(s, start, n, NEWLINE);
        proof {
            assert(tail.subrange(0, end - start) =~= s@.subrange(start as int, end as int));
            if end < n {
                assert(tail.subrange(end - start + 1, tail.len() as int) =~= s@.subrange(
                    end + 1,
                    n as int,
                ));
            }
        }
        let ghost line = s@.subrange(start as int, end as int);
        if end - start >= 3 && s[start] == ZERO && s[start + 1] == COLON && s[start + 2] == COLON {
            proof {
                assert(line.subrange(0, 3) =~= unified_prefix());
                assert(line.subrange(3, line.len() as int) =~= s@.subrange(start + 3, end as int));
            }
            let mut from = start + 3;
            while from < end && s[from] == SLASH
                invariant
                    start + 3 <= from <= end <= s@.len(),
                    forall|i: int| start + 3 <= i < from ==> s@[i] == SLASH,
                decreases end - from,
            {
                from += 1;
            }
            proof {
                let path = s@.subrange(start + 3, end as int);
                lemma_without_leading_slashes(path, from - start - 3);
                assert(path.subrange(from - start - 3, path.len() as int) =~= s@.subrange(
                    from as int,
                    end as int,
                ));
            }
            return Some(copy_bytes(s, from, end));
        }
        proof {
            if line.len() >= 3 {
                let head = line.subrange(0, 3);
                assert(head[0] == s@[start as int]);
                assert(head[1] == s@[start + 1]);
                assert(head[2] == s@[start + 2]);
                assert(unified_prefix()[0] == ZERO && unified_prefix()[1] == COLON
                    && unified_prefix()[2] == COLON);
            }
            assert(!starts_with(line, unified_prefix()));
        }
        if end == n {
            return None;
        }
        start = end + 1;
    }
    proof {
        assert(s@.subrange(n as int, n as int).len() == 0);
    }
    None
}

} // verus!
