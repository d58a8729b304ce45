//! What holds of reading a cpuset: the compact form of a list of ranges
//! reads back as the processors of the ranges, in ascending order.
use vstd::prelude::*;
use crate::cgroup::cpuset::{
    all_digits, cpus_of_item, cpus_of_list, cpuset_of, decimal_value, inserted, is_digit,
    is_space, lemma_first_index_is, number, prepend, range, sorted_of, strictly_increasing,
    trim_end, trim_start, trimmed, unsigned_part, ListError, COMMA, DASH, ZERO,
};
use crate::cgroup::binding_plan;
use crate::shared::text::decimal_digits;

verus! {

/// `n` written in decimal, as bytes.
pub open spec fn decimal_bytes(n: nat) -> Seq<u8> {
    decimal_digits(n).map_values(|d: nat| (ZERO + d) as u8)
}

/// How one range of processors is written: the one number where the range
/// holds one processor, else its two ends with a dash between them.
pub open spec fn item_form(r: (u32, u32)) -> Seq<u8> {
    if r.0 == r.1 {
        decimal_bytes(r.0 as nat)
    } else {
        decimal_bytes(r.0 as nat) + seq![DASH] + decimal_bytes(r.1 as nat)
    }
}

/// The compact form of a list of ranges: the ranges in their order, with
/// commas between them.
pub open spec fn compact_form(ranges: Seq<(u32, u32)>) -> Seq<u8>
    decreases ranges.len(),
{
    if ranges.len() == 0 {
        Seq::empty()
    } else if ranges.len() == 1 {
        item_form(ranges[0])
    } else {
        item_form(ranges[0]) + seq![COMMA] + compact_form(ranges.drop_first())
    }
}

/// The processors of a list of ranges, one by one.
pub open spec fn flattened(ranges: Seq<(u32, u32)>) -> Seq<u32>
    decreases ranges.len(),
{
    if ranges.len() == 0 {
        Seq::empty()
    } else {
        range(ranges[0].0, ranges[0].1) + flattened(ranges.drop_first())
    }
}

/// Every range has its ends in order.
pub open spec fn well_formed(ranges: Seq<(u32, u32)>) -> bool {
    forall|i: int| 0 <= i < ranges.len() ==> (#[trigger] ranges[i]).0 <= ranges[i].1
}

/// The ranges stand in ascending order and none touches the next.
pub open spec fn ascending(ranges: Seq<(u32, u32)>) -> bool {
    forall|i: int| 0 <= i < ranges.len() - 1 ==> (#[trigger] ranges[i]).1 < ranges[i + 1].0
}

/// The text begins and ends with a digit.
pub open spec fn digit_ended(s: Seq<u8>) -> bool {
    s.len() > 0 && is_digit(s[0]) && is_digit(s.last())
}

/// Only digits and dashes stand in the text.
pub open spec fn comma_free(s: Seq<u8>) -> bool {
    forall|i: int| 0 <= i < s.len() ==> #[trigger] s[i] != COMMA
}

proof fn lemma_decimal_bytes(n: nat)
    ensures
        decimal_bytes(n).len() > 0,
        all_digits(decimal_bytes(n)),
        decimal_value(decimal_bytes(n)) == n,
    decreases n,
{
    if n < 10 {
        let s = decimal_bytes(n);
        assert(s =~= seq![(ZERO + n) as u8]);
        assert(s.drop_last() =~= Seq::<u8>::empty());
        assert(decimal_value(s.drop_last()) == 0);
    } else {
        lemma_decimal_bytes(n / 10);
        let init = decimal_bytes(n / 10);
        let s = decimal_bytes(n);
        assert(s =~= init.push((ZERO + n % 10) as u8));
        assert(s.drop_last() =~= init);
        assert forall|i: int| 0 <= i < s.len() implies is_digit(#[trigger] s[i]) by {
            if i < init.len() {
                assert(s[i] == init[i]);
            }
        }
    }
}

/// Reading a number written in decimal gives the number.
pub proof fn lemma_number_of_decimal(n: u32)
    ensures
        number(decimal_bytes(n as nat)) == Some(n),
        digit_ended(decimal_bytes(n as nat)),
{
    lemma_decimal_bytes(n as nat);
    let s = decimal_bytes(n as nat);
    assert(is_digit(s[0]));
    assert(is_digit(s[s.len() - 1]));
    assert(unsigned_part(s) == s);
}

proof fn lemma_item_form(r: (u32, u32))
    requires
        r.0 <= r.1,
    ensures
        cpus_of_item(item_form(r)) == Ok::<Seq<u32>, ListError>(range(r.0, r.1)),
        digit_ended(item_form(r)),
        comma_free(item_form(r)),
{
    let low = decimal_bytes(r.0 as nat);
    let high = decimal_bytes(r.1 as nat);
    lemma_decimal_bytes(r.0 as nat);
    lemma_decimal_bytes(r.1 as nat);
    lemma_number_of_decimal(r.0);
    lemma_number_of_decimal(r.1);
    let item = item_form(r);
    if r.0 == r.1 {
        assert forall|i: int| 0 <= i < item.len() implies item[i] != DASH by {
            assert(is_digit(item[i]));
        }
        lemma_first_index_is(item, DASH, item.len() as int);
        assert(range(r.0, r.1) =~= seq![r.0]);
        assert forall|i: int| 0 <= i < item.len() implies #[trigger] item[i] != COMMA by {
            assert(is_digit(item[i]));
        }
    } else {
        let dash = low.len() as int;
        assert forall|i: int| 0 <= i < dash implies item[i] != DASH by {
            assert(item[i] == low[i]);
            assert(is_digit(low[i]));
        }
        assert(item[dash] == DASH);
        lemma_first_index_is(item, DASH, dash);
        let rest = item.subrange(dash + 1, item.len() as int);
        assert(rest =~= high);
        assert(item.subrange(0, dash) =~= low);
        assert forall|i: int| 0 <= i < high.len() implies high[i] != DASH by {
            assert(is_digit(high[i]));
        }
        lemma_first_index_is(high, DASH, high.len() as int);
        assert(item[0] == low[0]);
        assert(item.last() == high.last());
        assert forall|i: int| 0 <= i < item.len() implies #[trigger] item[i] != COMMA by {
            if i < dash {
                assert(item[i] == low[i]);
                assert(is_digit(low[i]));
            } else if i > dash {
                assert(item[i] == high[i - dash - 1]);
                assert(is_digit(high[i - dash - 1]));
            }
        }
    }
}

proof fn lemma_compact_form(ranges: Seq<(u32, u32)>)
    requires
        ranges.len() > 0,
        well_formed(ranges),
    ensures
        cpus_of_list(compact_form(ranges)) == Ok::<Seq<u32>, ListError>(flattened(ranges)),
        digit_ended(compact_form(ranges)),
        flattened(ranges).len() > 0,
    decreases ranges.len(),
{
    let first = ranges[0];
    let item = item_form(first);
    let form = compact_form(ranges);
    lemma_item_form(first);
    assert(range(first.0, first.1).len() > 0);
    if ranges.len() == 1 {
        lemma_first_index_is(form, COMMA, form.len() as int);
        assert(form.subrange(0, form.len() as int) =~= form);
        assert(flattened(ranges.drop_first()) =~= Seq::<u32>::empty());
        assert(flattened(ranges) =~= range(first.0, first.1));
    } else {
        let others = ranges.drop_first();
        assert forall|i: int| 0 <= i < others.len() implies (#[trigger] others[i]).0
            <= others[i].1 by {
            assert(others[i] == ranges[i + 1]);
        }
        lemma_compact_form(others);
        let later = compact_form(others);
        let comma = item.len() as int;
        assert forall|i: int| 0 <= i < comma implies form[i] != COMMA by {
            assert(form[i] == item[i]);
        }
        assert(form[comma] == COMMA);
        lemma_first_index_is(form, COMMA, comma);
        assert(form.subrange(0, comma) =~= item);
        assert(form.subrange(comma + 1, form.len() as int) =~= later);
        assert(form[0] == item[0]);
        assert(form.last() == later.last());
        assert(cpus_of_list(form) == prepend(range(first.0, first.1), cpus_of_list(later)));
    }
}

proof fn lemma_flattened_bounds(ranges: Seq<(u32, u32)>)
    requires
        ranges.len() > 0,
        well_formed(ranges),
        ascending(ranges),
    ensures
        forall|i: int|
            0 <= i < flattened(ranges).len() ==> ranges[0].0 <= #[trigger] flattened(ranges)[i],
        strictly_increasing(flattened(ranges)),
    decreases ranges.len(),
{
    let first = ranges[0];
    let head = range(first.0, first.1);
    let others = ranges.drop_first();
    let all = flattened(ranges);
    if others.len() == 0 {
        assert(flattened(others) =~= Seq::<u32>::empty());
        assert(all =~= head);
    } else {
        assert forall|i: int| 0 <= i < others.len() implies (#[trigger] others[i]).0
            <= others[i].1 by {
            assert(others[i] == ranges[i + 1]);
        }
        assert forall|i: int| 0 <= i < others.len() - 1 implies (#[trigger] others[i]).1 < others[i
            + 1].0 by {
            assert(others[i] == ranges[i + 1]);
            assert(others[i + 1] == ranges[i + 2]);
        }
        lemma_flattened_bounds(others);
        let tail = flattened(others);
        assert(others[0] == ranges[1]);
        assert(ranges[0].1 < ranges[1].0);
        assert forall|i: int, j: int| 0 <= i < j < all.len() implies all[i] < all[j] by {
            if j < head.len() {
            } else if i < head.len() {
                assert(all[j] == tail[j - head.len()]);
                assert(others[0].0 <= tail[j - head.len()]);
            } else {
                assert(all[i] == tail[i - head.len()]);
                assert(all[j] == tail[j - head.len()]);
            }
        }
        assert forall|i: int| 0 <= i < all.len() implies ranges[0].0 <= #[trigger] all[i] by {
            if i >= head.len() {
                assert(all[i] == tail[i - head.len()]);
                assert(others[0].0 <= tail[i - head.len()]);
            }
        }
    }
}

proof fn lemma_trimmed_digit_ended(s: Seq<u8>)
    requires
        digit_ended(s),
    ensures
        trimmed(s) == s,
{
    assert(!is_space(s[0]));
    assert(trim_start(s) == s);
    assert(!is_space(s.last()));
    assert(trim_end(s) == s);
}

/// `y` stands in `s`.
pub open spec fn holds(s: Seq<u32>, y: u32) -> bool {
    exists|i: int| 0 <= i < s.len() && s[i] == y
}

/// Putting a number into an ascending list keeps the list ascending and
/// adds the number and nothing else.
pub proof fn lemma_inserted(s: Seq<u32>, x: u32)
    requires
        strictly_increasing(s),
    ensures
        strictly_increasing(inserted(s, x)),
        s.len() <= inserted(s, x).len() <= s.len() + 1,
        forall|y: u32| #[trigger] holds(inserted(s, x), y) <==> holds(s, y) || y == x,
    decreases s.len(),
{
    let made = inserted(s, x);
    if s.len() == 0 || s.last() < x {
        assert forall|i: int, j: int| 0 <= i < j < made.len() implies made[i] < made[j] by {
            if j == s.len() {
                if i < s.len() - 1 {
                    assert(s[i] < s[s.len() - 1]);
                }
            }
        }
        assert forall|y: u32| #[trigger] holds(made, y) <==> holds(s, y) || y == x by {
            if holds(made, y) {
                let i = choose|i: int| 0 <= i < made.len() && made[i] == y;
                if i < s.len() {
                    assert(s[i] == y);
                }
            }
            if holds(s, y) {
                let i = choose|i: int| 0 <= i < s.len() && s[i] == y;
                assert(made[i] == y);
            }
            if y == x {
                assert(made[s.len() as int] == y);
            }
        }
    } else if s.last() == x {
        assert forall|y: u32| #[trigger] holds(made, y) <==> holds(s, y) || y == x by {
            if y == x {
                assert(s[s.len() - 1] == y);
            }
        }
    } else {
        let init = s.drop_last();
        let last = s.last();
        assert forall|i: int, j: int| 0 <= i < j < init.len() implies init[i] < init[j] by {
            assert(s[i] < s[j]);
        }
        lemma_inserted(init, x);
        let middle = inserted(init, x);
        assert forall|i: int| 0 <= i < middle.len() implies middle[i] < last by {
            assert(holds(middle, middle[i]));
            if middle[i] != x {
                assert(holds(init, middle[i]));
                let k = choose|k: int| 0 <= k < init.len() && init[k] == middle[i];
                assert(s[k] < s[s.len() - 1]);
            }
        }
        assert forall|i: int, j: int| 0 <= i < j < made.len() implies made[i] < made[j] by {
            if j < middle.len() {
                assert(middle[i] < middle[j]);
            }
        }
        assert forall|y: u32| #[trigger] holds(made, y) <==> holds(s, y) || y == x by {
            if holds(made, y) {
                let i = choose|i: int| 0 <= i < made.len() && made[i] == y;
                if i < middle.len() {
                    assert(middle[i] == y);
                    assert(holds(middle, y));
                    if holds(init, y) {
                        let k = choose|k: int| 0 <= k < init.len() && init[k] == y;
                        assert(s[k] == y);
                    }
                } else {
                    assert(s[s.len() - 1] == y);
                }
            }
            if holds(s, y) {
                let i = choose|i: int| 0 <= i < s.len() && s[i] == y;
                if i < init.len() {
                    assert(init[i] == y);
                    assert(holds(init, y));
                    assert(holds(middle, y) <==> holds(init, y) || y == x);
                    let k = choose|k: int| 0 <= k < middle.len() && middle[k] == y;
                    assert(made[k] == y);
                } else {
                    assert(made[middle.len() as int] == y);
                }
            }
            if y == x {
                assert(holds(middle, y));
                let k = choose|k: int| 0 <= k < middle.len() && middle[k] == y;
                assert(made[k] == y);
            }
        }
    }
}

/// Sorting gives an ascending list that holds every number of the list that
/// was sorted once, and no other.
pub proof fn lemma_sorted_of(s: Seq<u32>)
    ensures
        strictly_increasing(sorted_of(s)),
        sorted_of(s).len() <= s.len(),
        s.len() > 0 ==> sorted_of(s).len() > 0,
        forall|y: u32| #[trigger] holds(sorted_of(s), y) <==> holds(s, y),
    decreases s.len(),
{
    if s.len() > 0 {
        let init = s.drop_last();
        lemma_sorted_of(init);
        lemma_inserted(sorted_of(init), s.last());
        assert forall|y: u32| #[trigger] holds(sorted_of(s), y) <==> holds(s, y) by {
            if holds(init, y) {
                let i = choose|i: int| 0 <= i < init.len() && init[i] == y;
                assert(s[i] == y);
            }
            if holds(s, y) {
                let i = choose|i: int| 0 <= i < s.len() && s[i] == y;
                if i < init.len() {
                    assert(init[i] == y);
                }
            }
            if y == s.last() {
                assert(s[s.len() - 1] == y);
            }
        }
    }
}

/// Sorting an ascending list changes nothing.
pub proof fn lemma_sorted_of_ascending(s: Seq<u32>)
    requires
        strictly_increasing(s),
    ensures
        sorted_of(s) == s,
    decreases s.len(),
{
    if s.len() > 0 {
        let init = s.drop_last();
        assert forall|i: int, j: int| 0 <= i < j < init.len() implies init[i] < init[j] by {
            assert(s[i] < s[j]);
        }
        lemma_sorted_of_ascending(init);
        if init.len() > 0 {
            assert(s[init.len() - 1] < s[s.len() - 1]);
        }
        assert(init.push(s.last()) =~= s);
    }
}

/// Reading the compact form of a list of ranges gives the set of the
/// processors of the ranges: every processor of the ranges once, no other,
/// in ascending order.
pub proof fn lemma_compact_form_round_trip(ranges: Seq<(u32, u32)>)
    requires
        ranges.len() > 0,
        well_formed(ranges),
    ensures
        cpuset_of(compact_form(ranges)) == Ok::<Seq<u32>, ListError>(
            sorted_of(flattened(ranges)),
        ),
        strictly_increasing(sorted_of(flattened(ranges))),
        forall|cpu: u32|
            #[trigger] holds(sorted_of(flattened(ranges)), cpu) <==> holds(
                flattened(ranges),
                cpu,
            ),
{
    lemma_compact_form(ranges);
    lemma_trimmed_digit_ended(compact_form(ranges));
    lemma_sorted_of(flattened(ranges));
}

/// Reading the compact form of ranges that stand in ascending order, none
/// touching the next, gives every processor of the ranges once, in
/// ascending order.
pub proof fn lemma_compact_form_sorted(ranges: Seq<(u32, u32)>)
    requires
        ranges.len() > 0,
        well_formed(ranges),
        ascending(ranges),
    ensures
        cpuset_of(compact_form(ranges)) == Ok::<Seq<u32>, ListError>(flattened(ranges)),
        strictly_increasing(flattened(ranges)),
{
    lemma_compact_form_round_trip(ranges);
    lemma_flattened_bounds(ranges);
    lemma_sorted_of_ascending(flattened(ranges));
}

/// Where the threads can be pinned, each gets a processor of its own: the
/// first thread the lowest processor, the next thread the next higher one,
/// and so on.
pub proof fn lemma_binding_plan_distinct(cpuset: Seq<u8>, threads: Seq<u8>)
    ensures
        match binding_plan(cpuset, threads) {
            Ok(bindings) => forall|i: int, j: int|
                0 <= i < j < bindings.len() ==> bindings[i].cpu < bindings[j].cpu,
            Err(_) => true,
        },
{
    if let Ok(list) = cpus_of_list(trimmed(cpuset)) {
        lemma_sorted_of(list);
    }
}

} // verus!
