//! The ranges of subordinate ids that the host gives to a user or group.
use vstd::prelude::*;
use vstd::string::StringSliceAdditionalSpecFns;
use crate::cgroup::cpuset::{find, first_index, number, parse_number, trim, trimmed, COLON, NEWLINE};
use crate::conf::IdRange;
use crate::shared::bytes::same_bytes;

verus! {

/// The range that one record of subordinate ids gives to `owner`: the
/// record names its owner, the first id and the number of ids, with colons
/// between them.
pub open spec fn id_range_of_record(record: Seq<u8>, owner: Seq<u8>) -> Option<IdRange> {
    let first = first_index(record, COLON);
    if first >= record.len() {
        None
    } else {
        let rest = record.subrange(first + 1, record.len() as int);
        let second = first_index(rest, COLON);
        if second >= rest.len() {
            None
        } else {
            match (
                number(rest.subrange(0, second)),
                number(rest.subrange(second + 1, rest.len() as int)),
            ) {
                (Some(begin), Some(count)) => if record.subrange(0, first) == owner {
                    Some(IdRange { begin, count })
                } else {
                    None
                },
                _ => None,
            }
        }
    }
}

/// The range that the first record for `owner` gives, the records standing
/// one in each line, white space around them aside.
pub open spec fn id_range_of(content: Seq<u8>, owner: Seq<u8>) -> Option<IdRange>
    decreases content.len(),
{
    if content.len() == 0 {
        None
    } else {
        let end = first_index(content, NEWLINE);
        match id_range_of_record(trimmed(content.subrange(0, end)), owner) {
            Some(range) => Some(range),
            None => if 0 <= end < content.len() {
                id_range_of(content.subrange(end + 1, content.len() as int), owner)
            } else {
                None
            },
        }
    }
}

fn parse_record(s: &[u8], start: usize, end: usize, owner: &[u8]) -> (range: Option<IdRange>)
    requires
        start <= end <= s@.len(),
    ensures
        range == id_range_of_record(s@.subrange(start as int, end as int), owner@),
{
    let ghost record = s@.subrange(start as int, end as int);
    let first = find(s, start, end, COLON);
    if first == end {
        return None;
    }
    let ghost rest = record.subrange(first - start + 1, record.len() as int);
    assert(rest =~= s@.subrange(first + 1, end as int));
    let second = find(s, first + 1, end, COLON);
    if second == end {
        return None;
    }
    proof {
        assert(rest.subrange(0, second - first - 1) =~= s@.subrange(first + 1, second as int));
        assert(rest.subrange(second - first, rest.len() as int) =~= s@.subrange(
            second + 1,
            end as int,
        ));
        assert(record.subrange(0, first - start) =~= s@.subrange(start as int, first as int));
    }
    let begin = parse_number(s, first + 1, second);
    let count = parse_number(s, second + 1, end);
    match (begin, count) {
        (Some(begin), Some(count)) => {
            if same_bytes(s, start, first, owner) {
                Some(IdRange { begin, count })
            } else {
                None
            }
        },
        _ => None,
    }
}

/// The range of subordinate ids that `content`, the text of a file of such
/// records, gives to `owner`: that of the first record for the owner that
/// can be read.
pub fn find_id_range(content: &str, owner: &str) -> (range: Option<IdRange>)
    ensures
        range == id_range_of(content.spec_bytes(), owner.spec_bytes()),
{
    let s = content.as_bytes();
    let who = owner.as_bytes();
    let n = s.len();
    let mut start: usize = 0;
    assert(s@.subrange(0, n as int) =~= s@);
    while start < n
        invariant
            start <= n == s@.len(),
            s@ == content.spec_bytes(),
            who@ == owner.spec_bytes(),
            id_range_of(s@, who@) == id_range_of(s@.subrange(start as int, n as int), who@),
        decreases n - start,
    {
        let ghost tail = s@.subrange(start as int, n as int);
        let end = find(s, start, n, NEWLINE);
        proof {
            assert(tail.subrange(0, end - start) =~= s@.subrange(start as int, end as int));
            if end < n {
                assert(tail.subrange(end - start + 1, tail.len() as int) =~= s@.subrange(
                    end + 1,
                    n as int,
                ));
            }
        }
        let (lo, hi) = trim(s, start, end);
        match parse_record(s, lo, hi, who) {
            Some(range) => {
                return Some(range);
            },
            None => {},
        }
        if end == n {
            return None;
        }
        start = end + 1;
    }
    proof {
        assert(s@.subrange(n as int, n as int).len() == 0);
    }
    None
}

/// The range of subordinate ids of `owner`: what the records give, and the
/// empty range where they give nothing.
pub fn subordinate_ids(content: &str, owner: &str) -> (range: IdRange)
    ensures
        range == match id_range_of(content.spec_bytes(), owner.spec_bytes()) {
            Some(found) => found,
            None => IdRange { begin: 0, count: 0 },
        },
{
    match find_id_range(content, owner) {
        Some(found) => found,
        None => IdRange { begin: 0, count: 0 },
    }
}

} // verus!
