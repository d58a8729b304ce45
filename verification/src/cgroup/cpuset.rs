//! The texts of a scope's effective cpuset and of its thread list, and how
//! they are read.
use vstd::prelude::*;
use vstd::string::StringSliceAdditionalSpecFns;

verus! {

pub const COMMA: u8 = 44;

pub const DASH: u8 = 45;

pub const PLUS: u8 = 43;

pub const NEWLINE: u8 = 10;

pub const ZERO: u8 = 48;

pub const COLON: u8 = 58;

/// Why a list of processors or of threads cannot be read.
#[derive(Debug, Clone, Copy, PartialEq, Eq, Structural)]
pub enum ListError {
    /// Where a number should stand there is none, or one that does not fit
    /// in 32 bits.
    InvalidNumber,
    /// An item of the list has more than one dash.
    UnexpectedItem,
    /// The list names nothing.
    Empty,
}

/// An ASCII white-space byte: a blank, or one of tab, line feed, vertical
/// tab, form feed and carriage return.
pub open spec fn is_space(b: u8) -> bool {
    b == 32 || (9 <= b <= 13)
}

pub open spec fn is_digit(b: u8) -> bool {
    48 <= b <= 57
}

pub open spec fn trim_start(s: Seq<u8>) -> Seq<u8>
    decreases s.len(),
{
    if s.len() > 0 && is_space(s[0]) {
        trim_start(s.drop_first())
    } else {
        s
    }
}

pub open spec fn trim_end(s: Seq<u8>) -> Seq<u8>
    decreases s.len(),
{
    if s.len() > 0 && is_space(s.last()) {
        trim_end(s.drop_last())
    } else {
        s
    }
}

/// `s` without the white space at its ends.
pub open spec fn trimmed(s: Seq<u8>) -> Seq<u8> {
    trim_end(trim_start(s))
}

/// Where `sep` first stands in `s`; the length of `s` where it stands
/// nowhere.
pub open spec fn first_index(s: Seq<u8>, sep: u8) -> int
    decreases s.len(),
{
    if s.len() == 0 || s[0] == sep {
        0
    } else {
        1 + first_index(s.drop_first(), sep)
    }
}

pub open spec fn all_digits(s: Seq<u8>) -> bool {
    forall|i: int| 0 <= i < s.len() ==> is_digit(#[trigger] s[i])
}

/// The number that a run of decimal digits writes.
pub open spec fn decimal_value(s: Seq<u8>) -> nat
    decreases s.len(),
{
    if s.len() == 0 {
        0
    } else {
        decimal_value(s.drop_last()) * 10 + (s.last() - ZERO) as nat
    }
}

/// The digits of a number: the text, without one plus sign in front.
pub open spec fn unsigned_part(s: Seq<u8>) -> Seq<u8> {
    if s.len() > 0 && s[0] == PLUS {
        s.drop_first()
    } else {
        s
    }
}

/// The number that `s` writes: decimal digits, at least one, after at most
/// one plus sign, with a value that fits in 32 bits.
pub open spec fn number(s: Seq<u8>) -> Option<u32> {
    let digits = unsigned_part(s);
    if digits.len() > 0 && all_digits(digits) && decimal_value(digits) <= u32::MAX {
        Some(decimal_value(digits) as u32)
    } else {
        None
    }
}

/// The numbers from `from` to `to`, both included, in ascending order; none
/// where `from` is the greater.
pub open spec fn range(from: u32, to: u32) -> Seq<u32> {
    if from > to {
        Seq::empty()
    } else {
        Seq::new((to - from + 1) as nat, |i: int| (from + i) as u32)
    }
}

/// The processors that one item names: `X` stands for the one processor,
/// `X-Y` for those from `X` to `Y`.
pub open spec fn cpus_of_item(item: Seq<u8>) -> Result<Seq<u32>, ListError> {
    let dash = first_index(item, DASH);
    if dash >= item.len() {
        match number(item) {
            Some(cpu) => Ok(seq![cpu]),
            None => Err(ListError::InvalidNumber),
        }
    } else {
        let rest = item.subrange(dash + 1, item.len() as int);
        if first_index(rest, DASH) < rest.len() {
            Err(ListError::UnexpectedItem)
        } else {
            match number(item.subrange(0, dash)) {
                None => Err(ListError::InvalidNumber),
                Some(from) => match number(rest) {
                    None => Err(ListError::InvalidNumber),
                    Some(to) => Ok(range(from, to)),
                },
            }
        }
    }
}

/// `front` before what `back` gives, where it gives anything.
pub open spec fn prepend(front: Seq<u32>, back: Result<Seq<u32>, ListError>) -> Result<
    Seq<u32>,
    ListError,
> {
    match back {
        Ok(cpus) => Ok(front + cpus),
        Err(e) => Err(e),
    }
}

/// The processors that a list of items names, the items standing between
/// commas. The first item that cannot be read decides the error.
pub open spec fn cpus_of_list(s: Seq<u8>) -> Result<Seq<u32>, ListError>
    decreases s.len(),
{
    let comma = first_index(s, COMMA);
    match cpus_of_item(s.subrange(0, comma)) {
        Err(e) => Err(e),
        Ok(cpus) => if 0 <= comma < s.len() {
            prepend(cpus, cpus_of_list(s.subrange(comma + 1, s.len() as int)))
        } else {
            Ok(cpus)
        },
    }
}

/// The ascending list `s` with `x` put in at its place, unless it is there.
pub open spec fn inserted(s: Seq<u32>, x: u32) -> Seq<u32>
    decreases s.len(),
{
    if s.len() == 0 || s.last() < x {
        s.push(x)
    } else if s.last() == x {
        s
    } else {
        inserted(s.drop_last(), x).push(s.last())
    }
}

/// The numbers of `s` in ascending order, each once.
pub open spec fn sorted_of(s: Seq<u32>) -> Seq<u32>
    decreases s.len(),
{
    if s.len() == 0 {
        Seq::empty()
    } else {
        inserted(sorted_of(s.drop_last()), s.last())
    }
}

/// Every number of the list is greater than the one before it.
pub open spec fn strictly_increasing(cpus: Seq<u32>) -> bool {
    forall|i: int, j: int| 0 <= i < j < cpus.len() ==> cpus[i] < cpus[j]
}

/// The processors that the text of a cpuset file names, in ascending order
/// and each once.
pub open spec fn cpuset_of(content: Seq<u8>) -> Result<Seq<u32>, ListError> {
    match cpus_of_list(trimmed(content)) {
        Err(e) => Err(e),
        Ok(cpus) => if cpus.len() == 0 {
            Err(ListError::Empty)
        } else {
            Ok(sorted_of(cpus))
        },
    }
}

/// The thread ids that the lines of `s` write, one number in each line,
/// white space around it aside.
pub open spec fn ids_of_lines(s: Seq<u8>) -> Result<Seq<u32>, ListError>
    decreases s.len(),
{
    if s.len() == 0 {
        Ok(Seq::empty())
    } else {
        let end = first_index(s, NEWLINE);
        match number(trimmed(s.subrange(0, end))) {
            None => Err(ListError::InvalidNumber),
            Some(id) => if 0 <= end < s.len() {
                prepend(seq![id], ids_of_lines(s.subrange(end + 1, s.len() as int)))
            } else {
                Ok(seq![id])
            },
        }
    }
}

/// The thread ids that the text of a thread list names, in its order.
pub open spec fn thread_ids_of(content: Seq<u8>) -> Result<Seq<u32>, ListError> {
    match ids_of_lines(content) {
        Err(e) => Err(e),
        Ok(ids) => if ids.len() == 0 {
            Err(ListError::Empty)
        } else {
            Ok(ids)
        },
    }
}

proof fn lemma_prepend_nothing(front: Seq<u32>, back: Result<Seq<u32>, ListError>)
    requires
        front.len() == 0,
    ensures
        prepend(front, back) == back,
{
    if let Ok(cpus) = back {
        assert(front + cpus =~= cpus);
    }
}

pub proof fn lemma_first_index_bounds(s: Seq<u8>, sep: u8)
    ensures
        0 <= first_index(s, sep) <= s.len(),
        first_index(s, sep) < s.len() ==> s[first_index(s, sep)] == sep,
        forall|i: int| 0 <= i < first_index(s, sep) ==> s[i] != sep,
    decreases s.len(),
{
    if s.len() == 0 || s[0] == sep {
    } else {
        let rest = s.drop_first();
        lemma_first_index_bounds(rest, sep);
        assert forall|i: int| 0 <= i < first_index(s, sep) implies s[i] != sep by {
            if i > 0 {
                assert(rest[i - 1] == s[i]);
            }
        }
    }
}

/// The first separator is where one stands with none before it.
pub proof fn lemma_first_index_is(s: Seq<u8>, sep: u8, k: int)
    requires
        0 <= k <= s.len(),
        forall|i: int| 0 <= i < k ==> s[i] != sep,
        k < s.len() ==> s[k] == sep,
    ensures
        first_index(s, sep) == k,
{
    lemma_first_index_bounds(s, sep);
    let f = first_index(s, sep);
    if f < k {
        assert(s[f] != sep);
    } else if k < f {
        assert(s[k] != sep);
    }
}

proof fn lemma_trim_start_is(s: Seq<u8>, k: int)
    requires
        0 <= k <= s.len(),
        forall|i: int| 0 <= i < k ==> is_space(s[i]),
        k < s.len() ==> !is_space(s[k]),
    ensures
        trim_start(s) == s.subrange(k, s.len() as int),
    decreases k,
{
    if k == 0 {
        assert(s.subrange(0, s.len() as int) =~= s);
    } else {
        let rest = s.drop_first();
        assert forall|i: int| 0 <= i < k - 1 implies is_space(rest[i]) by {
            assert(rest[i] == s[i + 1]);
        }
        lemma_trim_start_is(rest, k - 1);
        assert(rest.subrange(k - 1, rest.len() as int) =~= s.subrange(k, s.len() as int));
    }
}

proof fn lemma_trim_end_is(s: Seq<u8>, k: int)
    requires
        0 <= k <= s.len(),
        forall|i: int| k <= i < s.len() ==> is_space(s[i]),
        k > 0 ==> !is_space(s[k - 1]),
    ensures
        trim_end(s) == s.subrange(0, k),
    decreases s.len() - k,
{
    if k == s.len() {
        assert(s.subrange(0, k) =~= s);
    } else {
        let rest = s.drop_last();
        lemma_trim_end_is(rest, k);
        assert(rest.subrange(0, k) =~= s.subrange(0, k));
    }
}

fn is_space_byte(b: u8) -> (space: bool)
    ensures
        space == is_space(b),
{
    b == 32 || (9 <= b && b <= 13)
}

/// The bounds of `s[start..end]` without the white space at its ends.
pub(crate) fn trim(s: &[u8], start: usize, end: usize) -> (bounds: (usize, usize))
    requires
        start <= end <= s@.len(),
    ensures
        start <= bounds.0 <= bounds.1 <= end,
        s@.subrange(bounds.0 as int, bounds.1 as int) == trimmed(
            s@.subrange(start as int, end as int),
        ),
{
    let ghost whole = s@.subrange(start as int, end as int);
    let mut lo = start;
    while lo < end && is_space_byte(s[lo])
        invariant
            start <= lo <= end <= s@.len(),
            forall|i: int| start <= i < lo ==> is_space(s@[i]),
        decreases end - lo,
    {
        lo += 1;
    }
    let mut hi = end;
    while hi > lo && is_space_byte(s[hi - 1])
        invariant
            lo <= hi <= end <= s@.len(),
            forall|i: int| hi <= i < end ==> is_space(s@[i]),
        decreases hi,
    {
        hi -= 1;
    }
    proof {
        lemma_trim_start_is(whole, lo - start);
        let front = s@.subrange(lo as int, end as int);
        assert(whole.subrange(lo - start, whole.len() as int) =~= front);
        lemma_trim_end_is(front, hi - lo);
        assert(front.subrange(0, hi - lo) =~= s@.subrange(lo as int, hi as int));
    }
    (lo, hi)
}

/// Where `sep` first stands in `s[start..end]`, or `end`.
pub(crate) fn find(s: &[u8], start: usize, end: usize, sep: u8) -> (at: usize)
    requires
        start <= end <= s@.len(),
    ensures
        start <= at <= end,
        at - start == first_index(s@.subrange(start as int, end as int), sep),
{
    let mut at = start;
    while at < end && s[at] != sep
        invariant
            start <= at <= end <= s@.len(),
            forall|i: int| start <= i < at ==> s@[i] != sep,
        decreases end - at,
    {
        at += 1;
    }
    proof {
        lemma_first_index_is(s@.subrange(start as int, end as int), sep, at - start);
    }
    at
}

proof fn lemma_decimal_value_grows(s: Seq<u8>, k: int)
    requires
        0 <= k <= s.len(),
    ensures
        decimal_value(s.subrange(0, k)) <= decimal_value(s),
    decreases s.len() - k,
{
    if k == s.len() {
        assert(s.subrange(0, k) =~= s);
    } else {
        lemma_decimal_value_grows(s.drop_last(), k);
        assert(s.drop_last().subrange(0, k) =~= s.subrange(0, k));
    }
}

/// The number that `s[start..end]` writes.
pub(crate) fn parse_number(s: &[u8], start: usize, end: usize) -> (parsed: Option<u32>)
    requires
        start <= end <= s@.len(),
    ensures
        parsed == number(s@.subrange(start as int, end as int)),
{
    let ghost text = s@.subrange(start as int, end as int);
    let first = if start < end && s[start] == PLUS {
        start + 1
    } else {
        start
    };
    let ghost digits = s@.subrange(first as int, end as int);
    proof {
        if first > start {
            assert(text[0] == PLUS);
            assert(text.drop_first() =~= digits);
        } else {
            if text.len() > 0 {
                assert(text[0] == s@[start as int]);
            }
            assert(text =~= digits);
        }
        assert(unsigned_part(text) == digits);
    }
    if first == end {
        return None;
    }
    let mut value: u64 = 0;
    let mut at = first;
    while at < end
        invariant
            first <= at <= end <= s@.len(),
            first < end,
            text == s@.subrange(start as int, end as int),
            unsigned_part(text) == digits,
            digits == s@.subrange(first as int, end as int),
            all_digits(digits.subrange(0, at - first)),
            value == decimal_value(digits.subrange(0, at - first)),
            value <= u32::MAX,
        decreases end - at,
    {
        let b = s[at];
        let ghost done = digits.subrange(0, at - first);
        let ghost next = digits.subrange(0, at + 1 - first);
        proof {
            assert(next.drop_last() =~= done);
            assert(next.last() == b);
        }
        if !(ZERO <= b && b <= 57) {
            proof {
                assert(digits[at - first] == b);
                assert(!all_digits(digits));
            }
            return None;
        }
        assert(all_digits(next)) by {
            assert forall|i: int| 0 <= i < next.len() implies is_digit(#[trigger] next[i]) by {
                if i < done.len() {
                    assert(done[i] == next[i]);
                }
            }
        }
        let grown: u64 = value * 10 + (b - ZERO) as u64;
        assert(grown == decimal_value(next));
        if grown > u32::MAX as u64 {
            proof {
                lemma_decimal_value_grows(digits, at + 1 - first);
            }
            return None;
        }
        value = grown;
        at += 1;
    }
    proof {
        assert(digits.subrange(0, end - first) =~= digits);
    }
    Some(value as u32)
}

/// Puts the numbers from `from` to `to` at the end of `cpus`.
fn push_range(cpus: &mut Vec<u32>, from: u32, to: u32)
    ensures
        final(cpus)@ == old(cpus)@ + range(from, to),
{
    if from > to {
        assert(cpus@ =~= cpus@ + range(from, to));
        return ;
    }
    let ghost before = cpus@;
    let mut cpu = from;
    while cpu < to
        invariant
            from <= cpu <= to,
            cpus@ == before + range(from, cpu).drop_last(),
        decreases to - cpu,
    {
        cpus.push(cpu);
        cpu += 1;
        assert(cpus@ =~= before + range(from, cpu).drop_last());
    }
    cpus.push(to);
    assert(cpus@ =~= before + range(from, to));
}

/// Puts the processors that the item `s[start..end]` names at the end of
/// `cpus`.
fn parse_item(s: &[u8], start: usize, end: usize, cpus: &mut Vec<u32>) -> (parsed: Result<
    (),
    ListError,
>)
    requires
        start <= end <= s@.len(),
    ensures
        match cpus_of_item(s@.subrange(start as int, end as int)) {
            Ok(named) => parsed.is_ok() && final(cpus)@ == old(cpus)@ + named,
            Err(e) => parsed == Err::<(), ListError>(e),
        },
{
    let ghost item = s@.subrange(start as int, end as int);
    let dash = find(s, start, end, DASH);
    if dash == end {
        return match parse_number(s, start, end) {
            Some(cpu) => {
                let ghost before = cpus@;
                cpus.push(cpu);
                assert(cpus@ =~= before + seq![cpu]);
                Ok(())
            },
            None => Err(ListError::InvalidNumber),
        };
    }
    let ghost rest = item.subrange(dash - start + 1, item.len() as int);
    assert(rest =~= s@.subrange(dash + 1, end as int));
    assert(item.subrange(0, dash - start) =~= s@.subrange(start as int, dash as int));
    let second = find(s, dash + 1, end, DASH);
    if second < end {
        return Err(ListError::UnexpectedItem);
    }
    let from = match parse_number(s, start, dash) {
        Some(from) => from,
        None => {
            return Err(ListError::InvalidNumber);
        },
    };
    let to = match parse_number(s, dash + 1, end) {
        Some(to) => to,
        None => {
            return Err(ListError::InvalidNumber);
        },
    };
    push_range(cpus, from, to);
    Ok(())
}

/// Where all from place `at` on is greater than `x` and what stands before
/// is not, `x` belongs at place `at`, unless it stands before it.
proof fn lemma_inserted_at(s: Seq<u32>, x: u32, at: int)
    requires
        0 <= at <= s.len(),
        forall|j: int| at <= j < s.len() ==> s[j] > x,
        at > 0 ==> s[at - 1] <= x,
    ensures
        inserted(s, x) == if at > 0 && s[at - 1] == x {
            s
        } else {
            s.insert(at, x)
        },
    decreases s.len() - at,
{
    if at == s.len() {
        assert(s.insert(at, x) =~= s.push(x));
    } else {
        let init = s.drop_last();
        lemma_inserted_at(init, x, at);
        if at > 0 && s[at - 1] == x {
            assert(init.push(s.last()) =~= s);
        } else {
            assert(init.insert(at, x).push(s.last()) =~= s.insert(at, x));
        }
    }
}

/// Puts `x` into the ascending list `cpus` at its place, unless it is
/// there.
fn insert_cpu(cpus: &mut Vec<u32>, x: u32)
    ensures
        final(cpus)@ == inserted(old(cpus)@, x),
{
    let mut at = cpus.len();
    while at > 0 && cpus[at - 1] > x
        invariant
            at <= cpus@.len(),
            cpus@ == old(cpus)@,
            forall|j: int| at <= j < cpus@.len() ==> cpus@[j] > x,
        decreases at,
    {
        at -= 1;
    }
    proof {
        lemma_inserted_at(cpus@, x, at as int);
    }
    if at > 0 && cpus[at - 1] == x {
        return ;
    }
    cpus.insert(at, x);
}

/// The numbers of `cpus` in ascending order, each once.
pub fn sort_cpus(cpus: &Vec<u32>) -> (sorted: Vec<u32>)
    ensures
        sorted@ == sorted_of(cpus@),
{
    let n = cpus.len();
    let mut sorted: Vec<u32> = Vec::new();
    let mut i: usize = 0;
    assert(cpus@.subrange(0, 0) =~= Seq::<u32>::empty());
    while i < n
        invariant
            n == cpus@.len(),
            i <= n,
            sorted@ == sorted_of(cpus@.subrange(0, i as int)),
        decreases n - i,
    {
        proof {
            let next = cpus@.subrange(0, i + 1);
            assert(next.drop_last() =~= cpus@.subrange(0, i as int));
            assert(next.last() == cpus@[i as int]);
        }
        insert_cpu(&mut sorted, cpus[i]);
        i += 1;
    }
    assert(cpus@.subrange(0, n as int) =~= cpus@);
    sorted
}

/// The processors that the text of a cpuset file names, in ascending order
/// and each once: the text is a list of items between commas, each item one
/// number or two with a dash between them, white space around the list
/// aside.
pub fn parse_cpuset(content: &str) -> (parsed: Result<Vec<u32>, ListError>)
    ensures
        match cpuset_of(content.spec_bytes()) {
            Ok(cpus) => parsed.is_ok() && parsed.unwrap()@ == cpus,
            Err(e) => parsed == Err::<Vec<u32>, ListError>(e),
        },
{
    let s = content.as_bytes();
    let (lo, end) = trim(s, 0, s.len());
    assert(s@.subrange(0, s@.len() as int) =~= s@);
    let ghost list = s@.subrange(lo as int, end as int);
    let mut cpus: Vec<u32> = Vec::new();
    let mut start = lo;
    proof {
        lemma_prepend_nothing(cpus@, cpus_of_list(list));
    }
    loop
        invariant_except_break
            lo <= start <= end <= s@.len(),
            list == s@.subrange(lo as int, end as int),
            list == trimmed(content.spec_bytes()),
            cpus_of_list(list) == prepend(cpus@, cpus_of_list(s@.subrange(start as int, end as int))),
        ensures
            cpus_of_list(list) == Ok::<Seq<u32>, ListError>(cpus@),
        decreases end - start,
    {
        let ghost tail = s@.subrange(start as int, end as int);
        let ghost before = cpus@;
        let comma = find(s, start, end, COMMA);
        proof {
            assert(tail.subrange(0, comma - start) =~= s@.subrange(start as int, comma as int));
            if comma < end {
                assert(tail.subrange(comma - start + 1, tail.len() as int) =~= s@.subrange(
                    comma + 1,
                    end as int,
                ));
            }
        }
        match parse_item(s, start, comma, &mut cpus) {
            Err(e) => {
                assert(cpus_of_list(tail) == Err::<Seq<u32>, ListError>(e));
                return Err(e);
            },
            Ok(()) => {},
        }
        let ghost named = cpus_of_item(s@.subrange(start as int, comma as int)).unwrap();
        if comma == end {
            proof {
                assert(cpus_of_list(tail) == Ok::<Seq<u32>, ListError>(named));
            }
            break ;
        }
        proof {
            let next = cpus_of_list(s@.subrange(comma + 1, end as int));
            assert(cpus_of_list(tail) == prepend(named, next));
            if let Ok(later) = next {
                assert(before + (named + later) =~= (before + named) + later);
            }
        }
        start = comma + 1;
    }
    if cpus.len() == 0 {
        return Err(ListError::Empty);
    }
    Ok(sort_cpus(&cpus))
}

/// The thread ids that the text of a thread list names, in its order: one
/// number in each line, white space around it aside.
pub fn parse_thread_ids(content: &str) -> (parsed: Result<Vec<u32>, ListError>)
    ensures
        match thread_ids_of(content.spec_bytes()) {
            Ok(ids) => parsed.is_ok() && parsed.unwrap()@ == ids,
            Err(e) => parsed == Err::<Vec<u32>, ListError>(e),
        },
{
    let s = content.as_bytes();
    let end = s.len();
    let mut ids: Vec<u32> = Vec::new();
    let mut start: usize = 0;
    assert(s@.subrange(0, end as int) =~= s@);
    proof {
        lemma_prepend_nothing(ids@, ids_of_lines(s@));
    }
    while start < end
        invariant
            start <= end == s@.len(),
            s@ == content.spec_bytes(),
            ids_of_lines(s@) == prepend(ids@, ids_of_lines(s@.subrange(start as int, end as int))),
        decreases end - start,
    {
        let ghost tail = s@.subrange(start as int, end as int);
        let ghost before = ids@;
        let newline = find(s, start, end, NEWLINE);
        proof {
            assert(tail.subrange(0, newline - start) =~= s@.subrange(start as int, newline as int));
            if newline < end {
                assert(tail.subrange(newline - start + 1, tail.len() as int) =~= s@.subrange(
                    newline + 1,
                    end as int,
                ));
            }
        }
        let (lo, hi) = trim(s, start, newline);
        let id = match parse_number(s, lo, hi) {
            Some(id) => id,
            None => {
                assert(ids_of_lines(tail) == Err::<Seq<u32>, ListError>(ListError::InvalidNumber));
                return Err(ListError::InvalidNumber);
            },
        };
        ids.push(id);
        if newline == end {
            proof {
                assert(ids_of_lines(tail) == Ok::<Seq<u32>, ListError>(seq![id]));
                assert(ids@ =~= before + seq![id]);
                assert(s@.subrange(end as int, end as int).len() == 0);
                assert(ids@ + Seq::<u32>::empty() =~= ids@);
            }
            start = end;
        } else {
            proof {
                let next = ids_of_lines(s@.subrange(newline + 1, end as int));
                assert(ids_of_lines(tail) == prepend(seq![id], next));
                if let Ok(later) = next {
                    assert(before + (seq![id] + later) =~= ids@ + later);
                }
            }
            start = newline + 1;
        }
    }
    proof {
        assert(s@.subrange(end as int, end as int).len() == 0);
        assert(ids@ + Seq::<u32>::empty() =~= ids@);
    }
    if ids.len() == 0 {
        return Err(ListError::Empty);
    }
    Ok(ids)
}

} // verus!
