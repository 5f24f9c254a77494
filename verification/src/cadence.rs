//! What arrival statistics and feed health promise, stated of the arrivals
//! themselves.

use vstd::prelude::*;

use crate::model::{
    CadenceSource, FeedHealthStatus, HealthSeverity, ObjectView, Ratio, SizeStatus,
};
use crate::statistics;
use crate::statistics::{
    ascending, doubled_distances, doubled_median, health_of, interval_millis, nearest_rank,
    newest_arrival, size_status_of, sizes_of, statistics_of, total,
};
use crate::time;

verus! {

/// How many numbers are no greater than a bound.
pub open spec fn at_most(values: Seq<int>, bound: int) -> nat {
    values.filter(|value: int| value <= bound).len()
}

/// How many numbers are no less than a bound.
pub open spec fn at_least(values: Seq<int>, bound: int) -> nat {
    values.filter(|value: int| value >= bound).len()
}

/// Whether two of the numbers, or one taken twice, stand in the middle: no
/// number lies between them, and as many lie on one side as on the other.
pub open spec fn middle(values: Seq<int>, low: int, high: int) -> bool {
    &&& low <= high
    &&& values.contains(low)
    &&& values.contains(high)
    &&& forall|value: int| #[trigger] values.contains(value) ==> value <= low || high <= value
    &&& if low == high {
        2 * at_most(values, low) > values.len() && 2 * at_least(values, high) > values.len()
    } else {
        2 * at_most(values, low) == values.len() && 2 * at_least(values, high) == values.len()
    }
}

/// Whether a number is twice the median of others.
pub open spec fn halves(values: Seq<int>, doubled: int) -> bool {
    exists|low: int, high: int| #[trigger] middle(values, low, high) && doubled == low + high
}

/// Whether a fraction of a second is a number of milliseconds.
pub open spec fn is_millis(ratio: Ratio, millis: int) -> bool {
    ratio.denominator > 0 && 1_000 * ratio.numerator == millis * ratio.denominator
}

/// The whole milliseconds from each arrival to the next; none to one that is
/// not later.
pub open spec fn waits(objects: Seq<ObjectView>) -> Seq<int> {
    Seq::new(
        if objects.len() == 0 {
            0
        } else {
            (objects.len() - 1) as nat
        },
        |i: int| wait_between(objects[i].at, objects[i + 1].at),
    )
}

/// The whole milliseconds from one instant to a later one.
pub open spec fn wait_between(earlier: int, later: int) -> int {
    if later <= earlier {
        0
    } else {
        (later - earlier) / 1_000_000
    }
}

/// Whether the arrivals are such as a history can hold.
pub open spec fn observable(objects: Seq<ObjectView>, as_of: int) -> bool {
    &&& objects.len() <= usize::MAX
    &&& time::on_time_line(as_of)
    &&& forall|i: int| 0 <= i < objects.len() ==> time::on_time_line((#[trigger] objects[i]).at)
}

/// Numbers as integers.
pub open spec fn ints(values: Seq<u128>) -> Seq<int> {
    values.map_values(|value: u128| value as int)
}

/// Picking and mapping numbers does not depend on their order.
proof fn order_is_ignored<A, B>(
    a: Seq<A>,
    b: Seq<A>,
    wanted: spec_fn(A) -> bool,
    mapped: spec_fn(A) -> B,
)
    requires
        a.to_multiset() == b.to_multiset(),
    ensures
        a.filter(wanted).map_values(mapped).to_multiset() == b.filter(wanted).map_values(
            mapped,
        ).to_multiset(),
    decreases a.len(),
{
    broadcast use vstd::seq_lib::group_to_multiset_ensures;

    a.to_multiset_ensures();
    b.to_multiset_ensures();
    reveal(Seq::filter);
    if a.len() == 0 {
        assert(b.len() == 0);
        assert(a =~= b);
    } else {
        let x = a.last();
        assert(a.contains(x));
        assert(b.to_multiset().count(x) > 0);
        assert(b.contains(x));
        let j = choose|j: int| 0 <= j < b.len() && b[j] == x;
        let front = a.drop_last();
        let rest = b.remove(j);
        assert(front =~= a.remove(a.len() - 1));
        assert(front.to_multiset() == rest.to_multiset());
        order_is_ignored(front, rest, wanted, mapped);
        let left = b.take(j);
        let right = b.skip(j + 1);
        let one = seq![x];
        assert(rest =~= left + right);
        assert(b =~= (left + one) + right);
        Seq::filter_distributes_over_add(left, right, wanted);
        Seq::filter_distributes_over_add(left + one, right, wanted);
        Seq::filter_distributes_over_add(left, one, wanted);
        assert(one.drop_last() =~= Seq::empty());
        reveal_with_fuel(Seq::filter, 2);
        let picked = one.filter(wanted);
        assert(picked =~= if wanted(x) {
            one
        } else {
            Seq::empty()
        });
        let l = left.filter(wanted).map_values(mapped);
        let m = picked.map_values(mapped);
        let r = right.filter(wanted).map_values(mapped);
        assert(rest.filter(wanted).map_values(mapped) =~= l + r);
        assert(b.filter(wanted).map_values(mapped) =~= (l + m) + r);
        assert(a.filter(wanted).map_values(mapped) =~= front.filter(wanted).map_values(mapped) + m);
        vstd::seq_lib::lemma_multiset_commutative(l, r);
        vstd::seq_lib::lemma_multiset_commutative(l, m);
        vstd::seq_lib::lemma_multiset_commutative(l + m, r);
        vstd::seq_lib::lemma_multiset_commutative(front.filter(wanted).map_values(mapped), m);
        assert(a.filter(wanted).map_values(mapped).to_multiset() =~= b.filter(wanted).map_values(
            mapped,
        ).to_multiset());
    }
}

/// Counts and members do not depend on the order of numbers.
proof fn counts_ignore_order(a: Seq<int>, b: Seq<int>)
    requires
        a.to_multiset() == b.to_multiset(),
    ensures
        a.len() == b.len(),
        forall|value: int| #[trigger] a.contains(value) <==> b.contains(value),
        forall|bound: int| #[trigger] at_most(a, bound) == at_most(b, bound),
        forall|bound: int| #[trigger] at_least(a, bound) == at_least(b, bound),
        forall|doubled: int| halves(a, doubled) <==> halves(b, doubled),
{
    broadcast use vstd::seq_lib::group_to_multiset_ensures;

    a.to_multiset_ensures();
    b.to_multiset_ensures();
    let same = |value: int| value;
    assert forall|bound: int| #[trigger] at_most(a, bound) == at_most(b, bound) by {
        let wanted = |value: int| value <= bound;
        order_is_ignored(a, b, wanted, same);
        vstd::seq_lib::to_multiset_len(a.filter(wanted).map_values(same));
        vstd::seq_lib::to_multiset_len(b.filter(wanted).map_values(same));
    }
    assert forall|bound: int| #[trigger] at_least(a, bound) == at_least(b, bound) by {
        let wanted = |value: int| value >= bound;
        order_is_ignored(a, b, wanted, same);
        vstd::seq_lib::to_multiset_len(a.filter(wanted).map_values(same));
        vstd::seq_lib::to_multiset_len(b.filter(wanted).map_values(same));
    }
    assert forall|value: int| #[trigger] a.contains(value) <==> b.contains(value) by {
        vstd::seq_lib::to_multiset_contains(a, value);
        vstd::seq_lib::to_multiset_contains(b, value);
    }
    assert forall|low: int, high: int| #[trigger] middle(a, low, high) == middle(b, low, high) by {
        assert(at_most(a, low) == at_most(b, low));
        assert(at_least(a, high) == at_least(b, high));
        assert(a.contains(low) == b.contains(low) && a.contains(high) == b.contains(high));
        if middle(a, low, high) {
            assert forall|value: int| #[trigger] b.contains(value) implies value <= low || high
                <= value by {
                assert(a.contains(value));
            }
        }
    }
    assert forall|doubled: int| halves(a, doubled) implies halves(b, doubled) by {
        let (low, high) = choose|low: int, high: int| #[trigger]
            middle(a, low, high) && doubled == low + high;
        assert(middle(b, low, high));
    }
    assert forall|doubled: int| halves(b, doubled) implies halves(a, doubled) by {
        let (low, high) = choose|low: int, high: int| #[trigger]
            middle(b, low, high) && doubled == low + high;
        assert(middle(a, low, high));
    }
}

proof fn ascending_is_a_permutation(values: Seq<u128>)
    ensures
        ints(ascending(values)).to_multiset() == ints(values).to_multiset(),
        ascending(values).to_multiset() == values.to_multiset(),
        ascending(values).len() == values.len(),
        forall|i: int, j: int|
            0 <= i <= j < values.len() ==> ascending(values)[i] <= ascending(values)[j],
{
    let leq = |a: u128, b: u128| a <= b;
    assert(vstd::relations::total_ordering(leq));
    values.lemma_sort_by_ensures(leq);
    let sorted = ascending(values);
    vstd::seq_lib::to_multiset_len(sorted);
    vstd::seq_lib::to_multiset_len(values);
    assert forall|i: int, j: int| 0 <= i <= j < sorted.len() implies sorted[i] <= sorted[j] by {
        if i < j {
            assert(leq(sorted[i], sorted[j]));
        }
    }
    let every = |value: u128| true;
    let mapped = |value: u128| value as int;
    order_is_ignored(sorted, values, every, mapped);
    all_are_picked(sorted, every);
    all_are_picked(values, every);
}

proof fn all_are_picked<A>(values: Seq<A>, wanted: spec_fn(A) -> bool)
    requires
        forall|i: int| 0 <= i < values.len() ==> wanted(#[trigger] values[i]),
    ensures
        values.filter(wanted) == values,
    decreases values.len(),
{
    reveal(Seq::filter);
    if values.len() > 0 {
        let front = values.drop_last();
        assert forall|i: int| 0 <= i < front.len() implies wanted(#[trigger] front[i]) by {
            assert(front[i] == values[i]);
        }
        all_are_picked(front, wanted);
        assert(wanted(values[values.len() - 1]));
        assert(front.push(values.last()) =~= values);
    } else {
        assert(values.filter(wanted) =~= values);
    }
}

/// Of a sequence split in two, the part that is wanted bounds the count.
proof fn parts_bound_counts(values: Seq<int>, at: int, bound: int)
    requires
        0 <= at <= values.len(),
    ensures
        (forall|i: int| 0 <= i < at ==> #[trigger] values[i] <= bound) ==> at_most(values, bound)
            >= at,
        (forall|i: int| at <= i < values.len() ==> #[trigger] values[i] > bound) ==> at_most(
            values,
            bound,
        ) <= at,
        (forall|i: int| at <= i < values.len() ==> #[trigger] values[i] >= bound) ==> at_least(
            values,
            bound,
        ) >= values.len() - at,
        (forall|i: int| 0 <= i < at ==> #[trigger] values[i] < bound) ==> at_least(values, bound)
            <= values.len() - at,
    decreases values.len(),
{
    reveal(Seq::filter);
    if values.len() > 0 {
        let front = values.drop_last();
        let last = values.last();
        assert(values[values.len() - 1] == last);
        assert forall|i: int| 0 <= i < front.len() implies #[trigger] front[i] == values[i] by {}
        if at < values.len() {
            parts_bound_counts(front, at, bound);
            if forall|i: int| 0 <= i < at ==> #[trigger] values[i] <= bound {
                assert forall|i: int| 0 <= i < at implies #[trigger] front[i] <= bound by {
                    assert(values[i] <= bound);
                }
            }
            if forall|i: int| at <= i < values.len() ==> #[trigger] values[i] > bound {
                assert forall|i: int| at <= i < front.len() implies #[trigger] front[i] > bound by {
                    assert(values[i] > bound);
                }
            }
            if forall|i: int| at <= i < values.len() ==> #[trigger] values[i] >= bound {
                assert forall|i: int| at <= i < front.len() implies #[trigger] front[i] >= bound by {
                    assert(values[i] >= bound);
                }
            }
            if forall|i: int| 0 <= i < at ==> #[trigger] values[i] < bound {
                assert forall|i: int| 0 <= i < at implies #[trigger] front[i] < bound by {
                    assert(values[i] < bound);
                }
            }
        } else {
            parts_bound_counts(front, at - 1, bound);
            if forall|i: int| 0 <= i < at ==> #[trigger] values[i] <= bound {
                assert forall|i: int| 0 <= i < at - 1 implies #[trigger] front[i] <= bound by {
                    assert(values[i] <= bound);
                }
            }
            if forall|i: int| 0 <= i < at ==> #[trigger] values[i] < bound {
                assert forall|i: int| 0 <= i < at - 1 implies #[trigger] front[i] < bound by {
                    assert(values[i] < bound);
                }
            }
            values.lemma_filter_len(|value: int| value <= bound);
            front.lemma_filter_len(|value: int| value <= bound);
        }
    }
}

/// Every number is counted once: below a bound, or from it on.
proof fn counts_are_complete(values: Seq<int>, bound: int)
    ensures
        at_most(values, bound) + at_least(values, bound + 1) == values.len(),
    decreases values.len(),
{
    reveal(Seq::filter);
    if values.len() > 0 {
        counts_are_complete(values.drop_last(), bound);
    }
}

proof fn counts_grow(values: Seq<int>, low: int, high: int)
    requires
        low <= high,
    ensures
        at_most(values, low) <= at_most(values, high),
        at_least(values, low) >= at_least(values, high),
    decreases values.len(),
{
    reveal(Seq::filter);
    if values.len() > 0 {
        counts_grow(values.drop_last(), low, high);
    }
}

/// The sum of the middle two, or the middle one twice, is twice the median.
proof fn sorted_middle(values: Seq<u128>)
    requires
        values.len() > 0,
    ensures
        halves(ints(values), doubled_median(ascending(values))),
{
    let sorted = ascending(values);
    let s = ints(sorted);
    ascending_is_a_permutation(values);
    counts_ignore_order(s, ints(values));
    let n = s.len() as int;
    let half = n / 2;
    let (low, high) = if n % 2 == 1 {
        (s[half], s[half])
    } else {
        (s[half - 1], s[half])
    };
    assert forall|i: int, j: int| 0 <= i <= j < n implies s[i] <= s[j] by {
        assert(sorted[i] <= sorted[j]);
    }
    assert(s.contains(low) && s.contains(high)) by {
        assert(s[half] == high);
        assert(s.contains(s[half]));
        if n % 2 == 0 {
            assert(s.contains(s[half - 1]));
        }
    }
    assert forall|value: int| #[trigger] s.contains(value) implies value <= low || high
        <= value by {
        let k = choose|k: int| 0 <= k < n && s[k] == value;
        if k >= half {
            assert(s[half] <= s[k]);
        } else if n % 2 == 1 {
            assert(s[k] <= s[half]);
        } else {
            assert(s[k] <= s[half - 1]);
        }
    }
    if n % 2 == 1 {
        parts_bound_counts(s, half + 1, low);
        parts_bound_counts(s, half, high);
    } else {
        parts_bound_counts(s, half, low);
        parts_bound_counts(s, half, high);
        if low == high {
            parts_bound_counts(s, half + 1, low);
            parts_bound_counts(s, half - 1, high);
        }
    }
    assert(middle(s, low, high));
    assert(halves(s, low + high));
}

/// Numbers have one median.
pub proof fn median_is_unique(values: Seq<int>, one: int, other: int)
    requires
        halves(values, one),
        halves(values, other),
    ensures
        one == other,
{
    let (a, b) = choose|low: int, high: int| #[trigger]
        middle(values, low, high) && one == low + high;
    let (c, d) = choose|low: int, high: int| #[trigger]
        middle(values, low, high) && other == low + high;
    if one != other {
        middles_agree(values, a, b, c, d);
        middles_agree(values, c, d, a, b);
    }
}

proof fn middles_agree(values: Seq<int>, a: int, b: int, c: int, d: int)
    requires
        middle(values, a, b),
        middle(values, c, d),
    ensures
        a <= c,
        b <= d,
{
    assert(values.contains(a) && values.contains(b) && values.contains(c) && values.contains(d));
    if c < a {
        // Everything up to `c` lies below `a`.
        counts_are_complete(values, a - 1);
        counts_grow(values, c, a - 1);
        counts_grow(values, a, b);
        if a < b {
            counts_are_complete(values, a);
            counts_strictly_grow(values, c, a);
        }
    }
    if d < b {
        counts_are_complete(values, b - 1);
        counts_grow(values, d, b - 1);
        counts_grow(values, c, d);
        if a < b {
            counts_strictly_shrink(values, d, b);
        }
    }
}

proof fn counts_strictly_grow(values: Seq<int>, low: int, high: int)
    requires
        low < high,
        values.contains(high),
    ensures
        at_most(values, low) < at_most(values, high),
    decreases values.len(),
{
    reveal(Seq::filter);
    let i = choose|i: int| 0 <= i < values.len() && values[i] == high;
    let front = values.drop_last();
    if i < values.len() - 1 {
        assert(front[i] == high);
        assert(front.contains(high));
        counts_strictly_grow(front, low, high);
    } else {
        counts_grow(front, low, high);
    }
}

proof fn counts_strictly_shrink(values: Seq<int>, low: int, high: int)
    requires
        low < high,
        values.contains(low),
    ensures
        at_least(values, high) < at_least(values, low),
    decreases values.len(),
{
    reveal(Seq::filter);
    let i = choose|i: int| 0 <= i < values.len() && values[i] == low;
    let front = values.drop_last();
    if i < values.len() - 1 {
        assert(front[i] == low);
        assert(front.contains(low));
        counts_strictly_shrink(front, low, high);
    } else {
        counts_grow(front, low, high);
    }
}

/// The intervals that statistics are made of are the waits.
proof fn waits_are_measured(objects: Seq<ObjectView>, as_of: int)
    requires
        observable(objects, as_of),
    ensures
        ints(interval_millis(objects)) == waits(objects),
        forall|i: int|
            0 <= i < interval_millis(objects).len() ==> #[trigger] interval_millis(objects)[i]
                <= 20_000_000_000_000_000,
{
    let millis = interval_millis(objects);
    assert forall|i: int| 0 <= i < millis.len() implies #[trigger] millis[i]
        == wait_between(objects[i].at, objects[i + 1].at) && millis[i]
        <= 20_000_000_000_000_000 by {
        assert(time::on_time_line(objects[i].at) && time::on_time_line(objects[i + 1].at));
    }
    assert(ints(millis) =~= waits(objects));
}

proof fn total_is_the_sum(values: Seq<u128>)
    ensures
        total(values) == ints(values).fold_left(0, |sum: int, value: int| sum + value),
    decreases values.len(),
{
    let all = ints(values);
    if values.len() > 0 {
        total_is_the_sum(values.drop_last());
        assert(all.drop_last() =~= ints(values.drop_last()));
    }
}

proof fn total_is_bounded(values: Seq<u128>, bound: int)
    requires
        forall|i: int| 0 <= i < values.len() ==> #[trigger] values[i] <= bound,
        bound >= 0,
    ensures
        total(values) <= values.len() * bound,
    decreases values.len(),
{
    if values.len() > 0 {
        let front = values.drop_last();
        assert forall|i: int| 0 <= i < front.len() implies #[trigger] front[i] <= bound by {
            assert(front[i] == values[i]);
        }
        total_is_bounded(front, bound);
        assert(values.last() == values[values.len() - 1]);
        assert(values.len() * bound == front.len() * bound + bound) by (nonlinear_arith)
            requires
                values.len() == front.len() + 1,
        ;
    }
}

/// Statistics count the arrivals and date the first and the last.
pub proof fn statistics_count_the_arrivals(
    objects: Seq<ObjectView>,
    as_of: int,
    configured: Option<u64>,
)
    ensures
        ({
            let statistics = statistics_of(objects, as_of, configured);
            &&& statistics.as_of == as_of
            &&& statistics.object_count == objects.len()
            &&& statistics.interval_count == waits(objects).len()
            &&& statistics.first_arrival == if objects.len() > 0 {
                Some(objects[0].at)
            } else {
                None
            }
            &&& statistics.last_arrival == if objects.len() > 0 {
                Some(objects[objects.len() - 1].at)
            } else {
                None
            }
            &&& objects.len() < 2 ==> statistics.mean_interval_seconds is None
            &&& objects.len() < 2 ==> statistics.median_interval_seconds is None
            &&& objects.len() < 2 ==> statistics.p95_interval_seconds is None
            &&& objects.len() < 2 ==> statistics.largest_gap_seconds is None
        }),
{
}

/// The median interval is the one in the middle, or halfway between the two in
/// the middle: at least half of the intervals are no longer, and at least half
/// no shorter.
pub proof fn median_interval_is_in_the_middle(
    objects: Seq<ObjectView>,
    as_of: int,
    configured: Option<u64>,
    doubled: int,
)
    requires
        observable(objects, as_of),
        objects.len() >= 2,
        halves(waits(objects), doubled),
    ensures
        ({
            let median = statistics_of(objects, as_of, configured).median_interval_seconds;
            &&& median is Some
            &&& median->0.denominator > 0
            &&& 2_000 * median->0.numerator == doubled * median->0.denominator
            &&& 2 * at_most(waits(objects), doubled / 2) >= waits(objects).len()
            &&& 2 * at_least(waits(objects), (doubled + 1) / 2) >= waits(objects).len()
        }),
{
    median_of_waits(objects, as_of, doubled);
}

/// Every feed with two arrivals has a median interval.
pub proof fn every_feed_has_a_median(objects: Seq<ObjectView>, as_of: int)
    requires
        observable(objects, as_of),
        objects.len() >= 2,
    ensures
        exists|doubled: int| halves(waits(objects), doubled),
{
    waits_are_measured(objects, as_of);
    sorted_middle(interval_millis(objects));
}

proof fn median_of_waits(objects: Seq<ObjectView>, as_of: int, doubled: int)
    requires
        observable(objects, as_of),
        objects.len() >= 2,
        halves(waits(objects), doubled),
    ensures
        doubled_median(ascending(interval_millis(objects))) == doubled,
        0 <= doubled <= 40_000_000_000_000_000,
        2 * at_most(waits(objects), doubled / 2) >= waits(objects).len(),
        2 * at_least(waits(objects), (doubled + 1) / 2) >= waits(objects).len(),
{
    let values = interval_millis(objects);
    let all = waits(objects);
    waits_are_measured(objects, as_of);
    sorted_middle(values);
    median_is_unique(all, doubled, doubled_median(ascending(values)));
    let (low, high) = choose|low: int, high: int| #[trigger]
        middle(all, low, high) && doubled == low + high;
    let i = choose|i: int| 0 <= i < all.len() && all[i] == low;
    let j = choose|j: int| 0 <= j < all.len() && all[j] == high;
    assert(all[i] == values[i] as int && all[j] == values[j] as int);
    counts_grow(all, low, doubled / 2);
    counts_grow(all, (doubled + 1) / 2, high);
}

/// The 95th percentile is one of the intervals: at least 95 percent of them are
/// no longer, and fewer than 95 percent are shorter.
pub proof fn p95_interval_covers_its_share(
    objects: Seq<ObjectView>,
    as_of: int,
    configured: Option<u64>,
)
    requires
        observable(objects, as_of),
        objects.len() >= 2,
    ensures
        ({
            let p95 = statistics_of(objects, as_of, configured).p95_interval_seconds;
            let all = waits(objects);
            &&& p95 is Some
            &&& exists|wait: int|
                {
                    &&& #[trigger] all.contains(wait)
                    &&& is_millis(p95->0, wait)
                    &&& 100 * at_most(all, wait) >= 95 * all.len()
                    &&& 100 * (all.len() - at_least(all, wait)) < 95 * all.len()
                }
        }),
{
    let values = interval_millis(objects);
    let sorted = ascending(values);
    let s = ints(sorted);
    let all = waits(objects);
    waits_are_measured(objects, as_of);
    ascending_is_a_permutation(values);
    counts_ignore_order(s, all);
    let count = all.len();
    let rank = nearest_rank(count, 95);
    statistics::nearest_rank_is_least(count, 95);
    let wait = s[rank];
    assert(s.contains(wait));
    assert forall|i: int, j: int| 0 <= i <= j < s.len() implies s[i] <= s[j] by {
        assert(sorted[i] <= sorted[j]);
    }
    parts_bound_counts(s, rank + 1, wait);
    parts_bound_counts(s, rank, wait);
    let j = choose|j: int| 0 <= j < all.len() && all[j] == wait;
    assert(all.contains(wait));
    assert(is_millis(statistics_of(objects, as_of, configured).p95_interval_seconds->0, wait));
}

/// The largest gap is the longest of the intervals.
pub proof fn largest_gap_is_the_longest(
    objects: Seq<ObjectView>,
    as_of: int,
    configured: Option<u64>,
)
    requires
        observable(objects, as_of),
        objects.len() >= 2,
    ensures
        ({
            let largest = statistics_of(objects, as_of, configured).largest_gap_seconds;
            let all = waits(objects);
            &&& largest is Some
            &&& exists|wait: int|
                {
                    &&& #[trigger] all.contains(wait)
                    &&& is_millis(largest->0, wait)
                    &&& forall|i: int| 0 <= i < all.len() ==> #[trigger] all[i] <= wait
                }
        }),
{
    let values = interval_millis(objects);
    let sorted = ascending(values);
    let s = ints(sorted);
    let all = waits(objects);
    waits_are_measured(objects, as_of);
    ascending_is_a_permutation(values);
    counts_ignore_order(s, all);
    let wait = s[s.len() - 1];
    assert(s.contains(wait));
    assert(all.contains(wait));
    assert forall|i: int| 0 <= i < all.len() implies #[trigger] all[i] <= wait by {
        assert(all.contains(all[i]));
        assert(s.contains(all[i]));
        let k = choose|k: int| 0 <= k < s.len() && s[k] == all[i];
        assert(sorted[k] <= sorted[s.len() - 1]);
    }
    let j = choose|j: int| 0 <= j < all.len() && all[j] == wait;
    assert(is_millis(statistics_of(objects, as_of, configured).largest_gap_seconds->0, wait));
}

/// The mean interval, as often as there are intervals, is their sum.
pub proof fn mean_interval_makes_up_the_sum(
    objects: Seq<ObjectView>,
    as_of: int,
    configured: Option<u64>,
)
    requires
        observable(objects, as_of),
        objects.len() >= 2,
    ensures
        ({
            let mean = statistics_of(objects, as_of, configured).mean_interval_seconds;
            let all = waits(objects);
            let sum = all.fold_left(0, |sum: int, wait: int| sum + wait);
            &&& mean is Some
            &&& mean->0.denominator > 0
            &&& 1_000 * mean->0.numerator * all.len() == sum * mean->0.denominator
        }),
{
    let values = interval_millis(objects);
    waits_are_measured(objects, as_of);
    total_is_the_sum(values);
    total_is_bounded(values, 20_000_000_000_000_000);
    let sum = total(values) as int;
    let count = values.len() as int;
    assert(count * 20_000_000_000_000_000 <= 0xffff_ffff_ffff_ffff * 20_000_000_000_000_000)
        by (nonlinear_arith)
        requires
            0 <= count <= 0xffff_ffff_ffff_ffff,
    ;
    assert(1_000 * sum * count == sum * (1_000 * count)) by (nonlinear_arith);
}

/// The rates, over the time from the first arrival to the last, make up the
/// number of intervals. There are rates where there is such a time.
pub proof fn rates_make_up_the_arrivals(
    objects: Seq<ObjectView>,
    as_of: int,
    configured: Option<u64>,
)
    requires
        observable(objects, as_of),
    ensures
        ({
            let statistics = statistics_of(objects, as_of, configured);
            let span = wait_between(objects[0].at, objects[objects.len() - 1].at);
            let hourly = statistics.files_per_hour;
            let daily = statistics.files_per_day;
            &&& hourly is Some <==> objects.len() > 0 && span > 0
            &&& daily is Some <==> hourly is Some
            &&& hourly matches Some(rate) ==> {
                &&& rate.denominator > 0
                &&& rate.numerator * span == 3_600_000 * waits(objects).len() * rate.denominator
                &&& (daily->0).denominator > 0
                &&& (daily->0).numerator * rate.denominator == 24 * rate.numerator
                    * (daily->0).denominator
            }
        }),
{
    if objects.len() > 0 {
        let last = objects.len() - 1;
        let span = wait_between(objects[0].at, objects[last].at);
        assert(time::on_time_line(objects[0].at) && time::on_time_line(objects[last].at));
        let count = waits(objects).len() as int;
        assert(count * 3_600_000 * span == 3_600_000 * count * span) by (nonlinear_arith);
        assert((count * 86_400_000) * span == 24 * (count * 3_600_000) * span) by (nonlinear_arith);
    }
}

/// A configured cadence is the one that a feed is held to, whatever has
/// arrived; a configured zero counts as none.
pub proof fn configured_cadence_prevails(objects: Seq<ObjectView>, as_of: int, seconds: u64)
    ensures
        ({
            let health = health_of(objects, as_of, Some(seconds));
            if seconds > 0 {
                &&& health.cadence_source == Some(CadenceSource::Configured)
                &&& health.expected_interval_seconds is Some
                &&& is_millis(health.expected_interval_seconds->0, 1_000 * seconds)
            } else {
                health == health_of(objects, as_of, None)
            }
        }),
{
}

/// Without a configured cadence a feed is held to its median interval, from two
/// intervals on and where the median is not zero. So an outage among regular
/// arrivals does not change when the feed counts as late.
pub proof fn learned_cadence_is_the_median(objects: Seq<ObjectView>, as_of: int)
    requires
        observable(objects, as_of),
    ensures
        ({
            let health = health_of(objects, as_of, None);
            let learned = health.cadence_source == Some(CadenceSource::Learned);
            &&& health.cadence_source != Some(CadenceSource::Configured)
            &&& health.expected_interval_seconds is Some <==> learned
            &&& learned ==> health.expected_interval_seconds == statistics_of(
                objects,
                as_of,
                None,
            ).median_interval_seconds
            &&& learned <==> objects.len() >= 3 && exists|doubled: int|
                halves(waits(objects), doubled) && doubled > 0
            &&& forall|doubled: int| #[trigger]
                halves(waits(objects), doubled) && learned ==> {
                    &&& (health.expected_interval_seconds->0).denominator > 0
                    &&& 2_000 * (health.expected_interval_seconds->0).numerator == doubled
                        * (health.expected_interval_seconds->0).denominator
                }
        }),
{
    ascending_is_a_permutation(interval_millis(objects));
    if objects.len() >= 3 {
        every_feed_has_a_median(objects, as_of);
        let some = choose|doubled: int| halves(waits(objects), doubled);
        median_of_waits(objects, as_of, some);
        assert forall|doubled: int| #[trigger] halves(waits(objects), doubled) implies doubled
            == some by {
            median_is_unique(waits(objects), doubled, some);
        }
        let held = exists|doubled: int| halves(waits(objects), doubled) && doubled > 0;
        assert(held == (some > 0)) by {
            assert(halves(waits(objects), some));
        }
        let health = health_of(objects, as_of, None);
        assert((health.cadence_source == Some(CadenceSource::Learned)) == (some > 0));
        assert(2_000 * (some as u128) == some * 2_000);
    }
}

/// A feed is late once the time since its last arrival exceeds three halves of
/// the expected interval, counted from that arrival, and is overdue by the rest.
pub proof fn lateness_follows_from_the_gap(
    objects: Seq<ObjectView>,
    as_of: int,
    configured: Option<u64>,
)
    requires
        observable(objects, as_of),
    ensures
        ({
            let health = health_of(objects, as_of, configured);
            let last = objects[objects.len() - 1].at;
            let gap = wait_between(last, as_of);
            let expected = health.expected_interval_seconds;
            let after = health.late_after_seconds;
            &&& expected is Some <==> health.cadence_source is Some
            &&& after is Some <==> expected is Some
            &&& expected matches Some(interval) ==> {
                &&& interval.denominator > 0
                &&& (after->0).denominator > 0
                &&& 2 * (after->0).numerator * interval.denominator == 3 * interval.numerator
                    * (after->0).denominator
            }
            &&& statistics_of(objects, as_of, configured).health == health
            &&& statistics_of(objects, as_of, configured).current_gap_seconds
                == health.current_gap_seconds
            &&& health.current_gap_seconds is Some <==> objects.len() > 0
            &&& objects.len() > 0 ==> is_millis(health.current_gap_seconds->0, gap)
            &&& health.status == FeedHealthStatus::Unknown <==> objects.len() == 0 || expected
                is None
            &&& objects.len() > 0 && expected is Some ==> {
                let limit = after->0;
                &&& health.status == FeedHealthStatus::Late <==> gap * limit.denominator > 1_000
                    * limit.numerator
                &&& health.status == FeedHealthStatus::Late ==> {
                    let began = health.late_since->0;
                    let over = health.overdue_seconds->0;
                    &&& health.late_since is Some
                    &&& last <= began <= as_of
                    &&& (began - last) % 1_000_000 == 0
                    &&& (began - last) * limit.denominator <= 1_000_000_000 * limit.numerator
                    &&& (began - last + 1_000_000) * limit.denominator > 1_000_000_000
                        * limit.numerator
                    &&& health.overdue_seconds is Some
                    &&& over.denominator > 0
                    &&& 1_000 * limit.denominator * over.numerator == (gap * limit.denominator
                        - 1_000 * limit.numerator) * over.denominator
                }
                &&& health.status != FeedHealthStatus::Late ==> health.late_since is None
                    && health.overdue_seconds is None
            }
        }),
{
    let health = health_of(objects, as_of, configured);
    ascending_is_a_permutation(interval_millis(objects));
    if health.expected_interval_seconds is Some {
        let interval = health.expected_interval_seconds->0;
        if health.cadence_source == Some(CadenceSource::Learned) {
            every_feed_has_a_median(objects, as_of);
            let doubled = choose|doubled: int| halves(waits(objects), doubled);
            median_of_waits(objects, as_of, doubled);
        }
        assert(interval.numerator <= 40_000_000_000_000_000_000 && 1 <= interval.denominator
            <= 2_000);
        let limit = health.late_after_seconds->0;
        let num = interval.numerator as int;
        let den = interval.denominator as int;
        assert(limit.numerator == 3 * num && limit.denominator == 2 * den);
        assert(2 * (3 * num) * den == 3 * num * (2 * den)) by (nonlinear_arith);
        if objects.len() > 0 {
            let last = objects[objects.len() - 1].at;
            assert(time::on_time_line(last));
            let gap = wait_between(last, as_of);
            assert(0 <= gap <= 20_000_000_000_000_000);
            let l = limit.denominator as int;
            assert(gap * l <= 20_000_000_000_000_000 * 4_000) by (nonlinear_arith)
                requires
                    0 <= gap <= 20_000_000_000_000_000,
                    0 <= l <= 4_000,
            ;
            if health.status == FeedHealthStatus::Late {
                let allowed = 1_000 * limit.numerator;
                let wait = allowed / l;
                assert(wait * l <= allowed < (wait + 1) * l && 0 <= wait < gap)
                    by (nonlinear_arith)
                    requires
                        wait == allowed / l,
                        l > 0,
                        0 <= allowed < gap * l,
                ;
                assert(health.late_since->0 == last + wait * 1_000_000);
                assert((wait * 1_000_000) * l <= 1_000_000 * allowed && (wait * 1_000_000
                    + 1_000_000) * l > 1_000_000 * allowed) by (nonlinear_arith)
                    requires
                        wait * l <= allowed < (wait + 1) * l,
                ;
                let over = gap * l - allowed;
                assert(1_000 * l * over == over * (1_000 * l)) by (nonlinear_arith);
            }
        }
    }
}

/// The severity says whether something is broken, suspicious, fine or not known
/// yet: an empty delivery is critical; lateness or an odd size is a warning.
pub proof fn severity_is_the_worst(
    objects: Seq<ObjectView>,
    as_of: int,
    configured: Option<u64>,
)
    ensures
        ({
            let health = health_of(objects, as_of, configured);
            let late = health.status == FeedHealthStatus::Late;
            let odd = health.size_status == SizeStatus::Small || health.size_status
                == SizeStatus::Large;
            &&& health.severity == HealthSeverity::Critical <==> health.size_status
                == SizeStatus::Empty
            &&& health.severity == HealthSeverity::Warning <==> health.size_status
                != SizeStatus::Empty && (late || odd)
            &&& health.severity == HealthSeverity::Unknown <==> health.size_status
                == SizeStatus::Unknown && health.status == FeedHealthStatus::Unknown
            &&& health.size_status == size_status_of(objects)
        }),
{
}

/// The sizes of arrivals.
pub open spec fn weights(objects: Seq<ObjectView>) -> Seq<int> {
    objects.map_values(|object: ObjectView| object.size as int)
}

/// How far the sizes at or below the median lie below it; the median is given
/// doubled and so are the distances.
pub open spec fn lacks(sizes: Seq<int>, doubled: int) -> Seq<int> {
    sizes.filter(|size: int| 2 * size <= doubled).map_values(|size: int| doubled - 2 * size)
}

/// How far the sizes at or above the median lie above it.
pub open spec fn excesses(sizes: Seq<int>, doubled: int) -> Seq<int> {
    sizes.filter(|size: int| 2 * size >= doubled).map_values(|size: int| 2 * size - doubled)
}

/// Whether an arrival is the newest: none is later, and none as late stands
/// behind it.
pub open spec fn is_newest(objects: Seq<ObjectView>, place: int) -> bool {
    &&& 0 <= place < objects.len()
    &&& forall|i: int| 0 <= i < objects.len() ==> (#[trigger] objects[i]).at <= objects[place].at
    &&& forall|i: int|
        place < i < objects.len() ==> (#[trigger] objects[i]).at < objects[place].at
}

proof fn newest_is_found(objects: Seq<ObjectView>, place: int)
    requires
        is_newest(objects, place),
    ensures
        newest_arrival(objects) == objects[place],
    decreases objects.len(),
{
    if objects.len() > 1 {
        let front = objects.drop_last();
        assert forall|i: int| 0 <= i < front.len() implies #[trigger] front[i] == objects[i] by {}
        let last = objects[objects.len() - 1];
        if place < front.len() {
            assert(is_newest(front, place));
            newest_is_found(front, place);
            assert(last.at < objects[place].at);
        } else {
            statistics::newest_is_one_of_them(front);
            let i = choose|i: int| 0 <= i < front.len() && front[i] == newest_arrival(front);
            assert(objects[i].at <= objects[place].at);
        }
    }
}

proof fn distances_are_measured(values: Seq<u128>, doubled: u128)
    requires
        forall|i: int| 0 <= i < values.len() ==> #[trigger] values[i] <= u64::MAX,
    ensures
        ints(doubled_distances(values, doubled, true)) == lacks(ints(values), doubled as int),
        ints(doubled_distances(values, doubled, false)) == excesses(ints(values), doubled as int),
    decreases values.len(),
{
    reveal(Seq::filter);
    let all = ints(values);
    if values.len() > 0 {
        let front = values.drop_last();
        assert forall|i: int| 0 <= i < front.len() implies #[trigger] front[i] <= u64::MAX by {
            assert(front[i] == values[i]);
        }
        distances_are_measured(front, doubled);
        assert(all.drop_last() =~= ints(front));
        assert(all.last() == values.last() as int);
        assert(values.last() == values[values.len() - 1]);
    }
    assert(ints(doubled_distances(values, doubled, true)) =~= lacks(all, doubled as int)) by {
        if values.len() > 0 {
            let front = values.drop_last();
            let wanted = |size: u128| 2 * size <= doubled;
            let lower = doubled_distances(front, doubled, true);
            let last = values.last();
            if 2 * last <= doubled {
                assert(doubled_distances(values, doubled, true) =~= lower.push(
                    (doubled - 2 * last) as u128,
                ));
                assert(lacks(all, doubled as int) =~= lacks(ints(front), doubled as int).push(
                    doubled - 2 * last,
                ));
            } else {
                assert(doubled_distances(values, doubled, true) =~= lower);
                assert(lacks(all, doubled as int) =~= lacks(ints(front), doubled as int));
            }
        }
    }
    assert(ints(doubled_distances(values, doubled, false)) =~= excesses(all, doubled as int)) by {
        if values.len() > 0 {
            let front = values.drop_last();
            let upper = doubled_distances(front, doubled, false);
            let last = values.last();
            if 2 * last >= doubled {
                assert(doubled_distances(values, doubled, false) =~= upper.push(
                    (2 * last - doubled) as u128,
                ));
                assert(excesses(all, doubled as int) =~= excesses(
                    ints(front),
                    doubled as int,
                ).push(2 * last - doubled));
            } else {
                assert(doubled_distances(values, doubled, false) =~= upper);
                assert(excesses(all, doubled as int) =~= excesses(ints(front), doubled as int));
            }
        }
    }
}

/// What the spread of sizes on either side of the median is.
proof fn spread_is_measured(objects: Seq<ObjectView>, median: int, deviation: int)
    requires
        halves(weights(objects), median),
    ensures
        doubled_median(ascending(sizes_of(objects))) == median,
        0 <= median <= 2 * u64::MAX,
        halves(lacks(weights(objects), median), deviation) ==> doubled_median(
            ascending(
                doubled_distances(ascending(sizes_of(objects)), median as u128, true),
            ),
        ) == deviation,
        halves(excesses(weights(objects), median), deviation) ==> doubled_median(
            ascending(
                doubled_distances(ascending(sizes_of(objects)), median as u128, false),
            ),
        ) == deviation,
        exists|found: int| halves(lacks(weights(objects), median), found),
        exists|found: int| halves(excesses(weights(objects), median), found),
        lacks(weights(objects), median).len() * 2 >= objects.len(),
        excesses(weights(objects), median).len() * 2 >= objects.len(),
{
    let values = sizes_of(objects);
    let sorted = ascending(values);
    let all = weights(objects);
    assert(ints(values) =~= all);
    let (low, high) = choose|low: int, high: int| #[trigger]
        middle(all, low, high) && median == low + high;
    let i = choose|i: int| 0 <= i < all.len() && all[i] == low;
    let j = choose|j: int| 0 <= j < all.len() && all[j] == high;
    assert(all[i] == objects[i].size && all[j] == objects[j].size);
    sorted_middle(values);
    median_is_unique(all, median, doubled_median(sorted));
    ascending_is_a_permutation(values);
    counts_ignore_order(ints(sorted), all);
    assert forall|k: int| 0 <= k < sorted.len() implies #[trigger] sorted[k] <= u64::MAX by {
        assert(ints(sorted).contains(ints(sorted)[k]));
        assert(all.contains(ints(sorted)[k]));
        let m = choose|m: int| 0 <= m < all.len() && all[m] == ints(sorted)[k];
        assert(all[m] == objects[m].size);
    }
    let doubled = median as u128;
    distances_are_measured(sorted, doubled);
    let under = doubled_distances(sorted, doubled, true);
    let over = doubled_distances(sorted, doubled, false);
    order_is_ignored(
        ints(sorted),
        all,
        |size: int| 2 * size <= median,
        |size: int| median - 2 * size,
    );
    order_is_ignored(
        ints(sorted),
        all,
        |size: int| 2 * size >= median,
        |size: int| 2 * size - median,
    );
    counts_ignore_order(ints(under), lacks(all, median));
    counts_ignore_order(ints(over), excesses(all, median));
    sides_are_halves(all, low, high);
    sorted_middle(under);
    sorted_middle(over);
    assert(halves(lacks(all, median), doubled_median(ascending(under))));
    assert(halves(excesses(all, median), doubled_median(ascending(over))));
    if halves(lacks(all, median), deviation) {
        median_is_unique(lacks(all, median), deviation, doubled_median(ascending(under)));
    }
    if halves(excesses(all, median), deviation) {
        median_is_unique(excesses(all, median), deviation, doubled_median(ascending(over)));
    }
}

proof fn sides_are_halves(values: Seq<int>, low: int, high: int)
    requires
        middle(values, low, high),
    ensures
        lacks(values, low + high).len() * 2 >= values.len(),
        excesses(values, low + high).len() * 2 >= values.len(),
        lacks(values, low + high).len() > 0,
        excesses(values, low + high).len() > 0,
{
    filters_grow(values, |value: int| value <= low, |size: int| 2 * size <= low + high);
    filters_grow(values, |value: int| value >= high, |size: int| 2 * size >= low + high);
    let i = choose|i: int| 0 <= i < values.len() && values[i] == low;
}

proof fn filters_grow(values: Seq<int>, one: spec_fn(int) -> bool, other: spec_fn(int) -> bool)
    requires
        forall|value: int| #[trigger] one(value) ==> other(value),
    ensures
        values.filter(one).len() <= values.filter(other).len(),
    decreases values.len(),
{
    reveal(Seq::filter);
    if values.len() > 0 {
        filters_grow(values.drop_last(), one, other);
    }
}

/// The newest arrival's size is judged by how far it lies from the median, on a
/// scale of its own side: small or large once that is three and a half times the
/// scale, which is 1.4826 times the median distance of the sizes on that side, or
/// a tenth of the median if that is more. An empty arrival is judged by whether
/// the feed carries content, and with fewer than eight sizes there is no verdict.
pub proof fn sizes_are_judged_on_their_side(
    objects: Seq<ObjectView>,
    newest: int,
    median: int,
    deviation: int,
)
    requires
        is_newest(objects, newest),
        halves(weights(objects), median),
    ensures
        ({
            let sizes = weights(objects);
            let size = 2 * objects[newest].size;
            let status = size_status_of(objects);
            &&& size == 0 ==> status == if median > 0 && objects.len() >= 2 {
                SizeStatus::Empty
            } else {
                SizeStatus::Normal
            }
            &&& size > 0 && (objects.len() < 8 || median == 0) ==> status == SizeStatus::Unknown
            &&& size > 0 && objects.len() >= 8 && size < median && halves(
                lacks(sizes, median),
                deviation,
            ) ==> status == if 200_000 * (median - size) >= 518_910 * deviation && 100 * (median
                - size) >= 35 * median {
                SizeStatus::Small
            } else {
                SizeStatus::Normal
            }
            &&& size > 0 && objects.len() >= 8 && size >= median && median > 0 && halves(
                excesses(sizes, median),
                deviation,
            ) ==> status == if 200_000 * (size - median) >= 518_910 * deviation && 100 * (size
                - median) >= 35 * median {
                SizeStatus::Large
            } else {
                SizeStatus::Normal
            }
        }),
{
    newest_is_found(objects, newest);
    spread_is_measured(objects, median, deviation);
}

/// How the sizes on the other side of the median spread makes no difference to
/// the verdict on the newest arrival.
pub proof fn other_side_makes_no_difference(
    one: Seq<ObjectView>,
    other: Seq<ObjectView>,
    first: int,
    second: int,
    median: int,
)
    requires
        is_newest(one, first),
        is_newest(other, second),
        one.len() == other.len(),
        one[first].size == other[second].size,
        halves(weights(one), median),
        halves(weights(other), median),
        2 * one[first].size < median ==> lacks(weights(one), median).to_multiset() == lacks(
            weights(other),
            median,
        ).to_multiset(),
        2 * one[first].size >= median ==> excesses(weights(one), median).to_multiset()
            == excesses(weights(other), median).to_multiset(),
    ensures
        size_status_of(one) == size_status_of(other),
{
    spread_is_measured(one, median, 0);
    if 2 * one[first].size < median {
        let deviation = choose|found: int| halves(lacks(weights(one), median), found);
        counts_ignore_order(lacks(weights(one), median), lacks(weights(other), median));
        assert(halves(lacks(weights(other), median), deviation));
        sizes_are_judged_on_their_side(one, first, median, deviation);
        sizes_are_judged_on_their_side(other, second, median, deviation);
    } else {
        let deviation = choose|found: int| halves(excesses(weights(one), median), found);
        counts_ignore_order(excesses(weights(one), median), excesses(weights(other), median));
        assert(halves(excesses(weights(other), median), deviation));
        sizes_are_judged_on_their_side(one, first, median, deviation);
        sizes_are_judged_on_their_side(other, second, median, deviation);
    }
}

proof fn one_stands_out(values: Seq<int>, place: int, median: int, bound: int)
    requires
        forall|i: int|
            0 <= i < values.len() && i != place && 2 * (#[trigger] values[i]) <= median ==> median
                - 2 * values[i] < bound,
    ensures
        at_least(lacks(values, median), bound) <= if 0 <= place < values.len() {
            1nat
        } else {
            0nat
        },
    decreases values.len(),
{
    reveal(Seq::filter);
    if values.len() > 0 {
        let front = values.drop_last();
        let last = values.last();
        assert forall|i: int|
            0 <= i < front.len() && i != place && 2 * (#[trigger] front[i]) <= median implies median
            - 2 * front[i] < bound by {
            assert(front[i] == values[i]);
        }
        one_stands_out(front, place, median, bound);
        assert(values[values.len() - 1] == last);
        if 2 * last <= median {
            let earlier = lacks(front, median);
            assert(lacks(values, median) =~= earlier.push(median - 2 * last));
            assert(earlier.push(median - 2 * last).drop_last() =~= earlier);
        } else {
            assert(lacks(values, median) =~= lacks(front, median));
        }
    } else {
        assert(lacks(values, median) =~= Seq::empty());
    }
}

/// In a feed that is never small, an arrival of at most half the median is
/// small, however large the feed sometimes is: where every other size at or
/// below the median lies within a hundredth of it.
pub proof fn truncated_files_stand_out(objects: Seq<ObjectView>, newest: int, median: int)
    requires
        is_newest(objects, newest),
        halves(weights(objects), median),
        objects.len() >= 8,
        objects[newest].size > 0,
        4 * objects[newest].size <= median,
        forall|i: int|
            0 <= i < objects.len() && i != newest && 2 * (#[trigger] objects[i]).size <= median
                ==> 100 * (median - 2 * objects[i].size) <= median,
    ensures
        size_status_of(objects) == SizeStatus::Small,
{
    let sizes = weights(objects);
    spread_is_measured(objects, median, 0);
    let under = lacks(sizes, median);
    let deviation = choose|found: int| halves(under, found);
    let (low, high) = choose|low: int, high: int| #[trigger]
        middle(under, low, high) && deviation == low + high;
    if 100 * high > median {
        assert forall|i: int|
            0 <= i < sizes.len() && i != newest && 2 * (#[trigger] sizes[i]) <= median implies median
            - 2 * sizes[i] < high by {
            assert(sizes[i] == objects[i].size);
        }
        one_stands_out(sizes, newest, median, high);
    }
    sizes_are_judged_on_their_side(objects, newest, median, deviation);
}

/// Each interval reaches from one arrival to the next and lasts as long.
pub proof fn intervals_join_neighbours(objects: Seq<ObjectView>, as_of: int, place: int)
    requires
        observable(objects, as_of),
        0 <= place < objects.len() - 1,
    ensures
        statistics::intervals_of(objects).len() == objects.len() - 1,
        ({
            let interval = statistics::intervals_of(objects)[place];
            &&& interval.previous_key == objects[place].key
            &&& interval.key == objects[place + 1].key
            &&& interval.previous_arrival == objects[place].at
            &&& interval.arrival == objects[place + 1].at
            &&& is_millis(
                interval.seconds,
                wait_between(objects[place].at, objects[place + 1].at),
            )
        }),
{
    assert(time::on_time_line(objects[place].at) && time::on_time_line(objects[place + 1].at));
}

/// The middle of numbers put in order is their median, given twice; there is one
/// unless there are no numbers.
pub proof fn sorted_numbers_have_their_median_in_the_middle(
    values: Vec<u128>,
    sorted: Vec<u128>,
    doubled: Option<u128>,
)
    requires
        call_ensures(statistics::sort_ascending, (values,), sorted),
        call_ensures(statistics::median_of_sorted, (&sorted,), doubled),
    ensures
        doubled is Some <==> values@.len() > 0,
        doubled matches Some(twice) ==> halves(ints(values@), twice as int),
{
    if values@.len() > 0 {
        sorted_middle(values@);
    }
}

/// A percentile of numbers is one of them: at least so many percent of them are
/// no greater, and fewer than so many are less.
pub proof fn percentiles_cover_their_share(
    values: Vec<u128>,
    sorted: Vec<u128>,
    percent: u32,
    result: Option<u128>,
)
    requires
        0 < percent <= 100,
        call_ensures(statistics::sort_ascending, (values,), sorted),
        call_ensures(statistics::percentile_nearest_rank, (&sorted, percent), result),
    ensures
        result is Some <==> values@.len() > 0,
        result matches Some(value) ==> {
            let all = ints(values@);
            &&& all.contains(value as int)
            &&& 100 * at_most(all, value as int) >= percent * all.len()
            &&& 100 * (all.len() - at_least(all, value as int)) < percent * all.len()
        },
{
    if let Some(value) = result {
        let s = ints(sorted@);
        let all = ints(values@);
        ascending_is_a_permutation(values@);
        counts_ignore_order(s, all);
        let count = all.len();
        let rank = nearest_rank(count, percent as nat);
        statistics::nearest_rank_is_least(count, percent as nat);
        assert(s[rank] == value);
        assert(s.contains(s[rank]));
        assert forall|i: int, j: int| 0 <= i <= j < s.len() implies s[i] <= s[j] by {
            assert(sorted@[i] <= sorted@[j]);
        }
        parts_bound_counts(s, rank + 1, value as int);
        parts_bound_counts(s, rank, value as int);
        assert(count * (percent as nat) == percent * all.len()) by (nonlinear_arith)
            requires
                count == all.len(),
        ;
    }
}

/// An empty file is critical, lateness or an unusual size otherwise a warning, and
/// a feed of which nothing can be said is unknown; any other is okay.
pub proof fn the_worse_severity_counts(
    status: FeedHealthStatus,
    size: SizeStatus,
    severity: HealthSeverity,
)
    requires
        call_ensures(statistics::severity_of, (status, size), severity),
    ensures
        severity is Critical <==> size is Empty,
        severity is Warning <==> size !is Empty && (status is Late || size is Small
            || size is Large),
        severity is Unknown <==> status is Unknown && size is Unknown,
{
}

} // verus!
