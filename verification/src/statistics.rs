//! Arrival statistics and feed health, in exact arithmetic.

use vstd::prelude::*;

use crate::model;
use crate::model::{
    ArrivalInterval, ArrivalStatistics, CadenceSource, FeedHealth, FeedHealthStatus, HealthSeverity,
    HealthView, IntervalView, ObjectView, Ratio, S3Object, SizeStatus, StatisticsView,
    DEVIATION_SCALE_TEN_THOUSANDTHS, LATE_MULTIPLIER_DENOMINATOR, LATE_MULTIPLIER_NUMERATOR,
    MIN_SIZE_OBSERVATIONS, MIN_SIZE_RELATIVE_SCALE_PERCENT, SIZE_OUTLIER_SCORE_TENTHS,
};
use crate::sorting::{sort, Order};
use crate::time;
use crate::time::{millis_between, Timestamp, MAX_MILLIS};

verus! {

/// The least number of intervals from which a cadence is learned.
pub const MIN_INTERVALS_TO_LEARN_CADENCE: usize = 2;

/// Numbers from the least to the greatest.
pub struct Ascending;

impl Order<u128> for Ascending {
    open spec fn before(a: u128, b: u128) -> bool {
        a < b
    }

    proof fn is_strict(a: u128, b: u128, c: u128) {
    }

    fn is_before(a: &u128, b: &u128) -> (result: bool) {
        *a < *b
    }
}

/// The same numbers from the least to the greatest.
pub open spec fn ascending(values: Seq<u128>) -> Seq<u128> {
    values.sort_by(|a: u128, b: u128| a <= b)
}

/// Sorts numbers.
pub fn sort_ascending(values: Vec<u128>) -> (sorted: Vec<u128>)
    ensures
        sorted@ == ascending(values@),
        sorted@.len() == values@.len(),
        forall|value: u128| sorted@.contains(value) <==> values@.contains(value),
        forall|i: int, j: int| 0 <= i <= j < sorted@.len() ==> sorted@[i] <= sorted@[j],
{
    let ghost leq = |a: u128, b: u128| a <= b;
    let ghost input = values@;
    let sorted = sort::<u128, Ascending>(values);
    proof {
        assert(vstd::relations::total_ordering(leq));
        input.lemma_sort_by_ensures(leq);
        assert(vstd::relations::sorted_by(sorted@, leq)) by {
            assert forall|i: int, j: int| 0 <= i < j < sorted@.len() implies #[trigger] leq(
                sorted@[i],
                sorted@[j],
            ) by {
                assert(!Ascending::before(sorted@[j], sorted@[i]));
            }
        }
        vstd::seq_lib::lemma_sorted_unique(sorted@, ascending(input), leq);
        assert forall|i: int, j: int| 0 <= i <= j < sorted@.len() implies sorted@[i]
            <= sorted@[j] by {
            if i < j {
                assert(!Ascending::before(sorted@[j], sorted@[i]));
            }
        }
    }
    sorted
}

/// Twice the median of sorted numbers: the middle one doubled, or the sum of
/// the two in the middle.
pub open spec fn doubled_median(sorted: Seq<u128>) -> int {
    let half = (sorted.len() / 2) as int;
    if sorted.len() % 2 == 1 {
        2 * sorted[half]
    } else {
        sorted[half - 1] + sorted[half]
    }
}

/// Twice the median of sorted numbers.
pub fn median_of_sorted(sorted: &Vec<u128>) -> (doubled: Option<u128>)
    requires
        forall|i: int| 0 <= i < sorted@.len() ==> #[trigger] sorted@[i] <= u128::MAX / 2,
    ensures
        match doubled {
            Some(value) => sorted@.len() > 0 && value == doubled_median(sorted@),
            None => sorted@.len() == 0,
        },
{
    let length: usize = sorted.len();
    if length == 0 {
        None
    } else if length % 2 == 1 {
        Some(2 * sorted[length / 2])
    } else {
        Some(sorted[length / 2 - 1] + sorted[length / 2])
    }
}

/// Where the nearest-rank percentile of `count` sorted numbers stands: the
/// least rank that covers the percentage, counted from zero.
pub open spec fn nearest_rank(count: nat, percent: nat) -> int
    recommends
        count > 0,
{
    let rank = (count * percent + 99) / 100;
    if rank == 0 {
        0
    } else if rank > count {
        count - 1
    } else {
        rank - 1
    }
}

/// The nearest-rank percentile of sorted numbers.
pub fn percentile_nearest_rank(sorted: &Vec<u128>, percent: u32) -> (value: Option<u128>)
    ensures
        match value {
            Some(number) => sorted@.len() > 0 && number == sorted@[nearest_rank(
                sorted@.len(),
                percent as nat,
            )],
            None => sorted@.len() == 0,
        },
{
    let length: usize = sorted.len();
    if length == 0 {
        return None;
    }
    assert(length * percent <= 0xffff_ffff_ffff_ffff * 0xffff_ffff) by (nonlinear_arith)
        requires
            length <= 0xffff_ffff_ffff_ffff,
            percent <= 0xffff_ffff,
    ;
    let rank: u128 = ((length as u128) * (percent as u128) + 99) / 100;
    let place: usize = if rank == 0 {
        0
    } else if rank > length as u128 {
        length - 1
    } else {
        (rank - 1) as usize
    };
    Some(sorted[place])
}

/// The newest arrival; among equal arrivals the last one.
pub open spec fn newest_arrival(objects: Seq<ObjectView>) -> ObjectView
    recommends
        objects.len() > 0,
    decreases objects.len(),
{
    if objects.len() <= 1 {
        objects[0]
    } else {
        let earlier = newest_arrival(objects.drop_last());
        if objects.last().at >= earlier.at {
            objects.last()
        } else {
            earlier
        }
    }
}

/// The sizes of objects.
pub open spec fn sizes_of(objects: Seq<ObjectView>) -> Seq<u128> {
    objects.map_values(|object: ObjectView| object.size as u128)
}

/// Twice the distances of the sizes on one side of a median, which is given doubled.
pub open spec fn doubled_distances(sizes: Seq<u128>, doubled: u128, below: bool) -> Seq<u128> {
    sizes.filter(
        |size: u128|
            if below {
                2 * size <= doubled
            } else {
                2 * size >= doubled
            },
    ).map_values(
        |size: u128|
            if below {
                (doubled - 2 * size) as u128
            } else {
                (2 * size - doubled) as u128
            },
    )
}

/// Whether a distance from the median reaches the outlier score.
///
/// The scale is the rescaled median absolute deviation, at least the relative
/// floor. The distance and the median come doubled, the deviation fourfold.
pub open spec fn outlying(doubled_distance: int, fourfold_deviation: int, doubled: int) -> bool {
    &&& 200_000 * doubled_distance >= SIZE_OUTLIER_SCORE_TENTHS * DEVIATION_SCALE_TEN_THOUSANDTHS
        * fourfold_deviation
    &&& 1_000 * doubled_distance >= SIZE_OUTLIER_SCORE_TENTHS * MIN_SIZE_RELATIVE_SCALE_PERCENT
        * doubled
}

/// How the newest arrival's size compares with the feed's recent norm.
pub open spec fn size_status_of(objects: Seq<ObjectView>) -> SizeStatus {
    if objects.len() == 0 {
        SizeStatus::Unknown
    } else {
        let sizes = ascending(sizes_of(objects));
        let median = doubled_median(sizes);
        let newest = 2 * newest_arrival(objects).size;
        if newest == 0 {
            if median > 0 && objects.len() >= 2 {
                SizeStatus::Empty
            } else {
                SizeStatus::Normal
            }
        } else if objects.len() < MIN_SIZE_OBSERVATIONS || median <= 0 {
            SizeStatus::Unknown
        } else if newest < median {
            let deviation = doubled_median(ascending(doubled_distances(sizes, median as u128, true)));
            if outlying(median - newest, deviation, median) {
                SizeStatus::Small
            } else {
                SizeStatus::Normal
            }
        } else {
            let deviation = doubled_median(ascending(doubled_distances(sizes, median as u128, false)));
            if outlying(newest - median, deviation, median) {
                SizeStatus::Large
            } else {
                SizeStatus::Normal
            }
        }
    }
}

/// Collects the doubled distances on one side of the median.
fn collect_distances(sizes: &Vec<u128>, doubled: u128, below: bool) -> (distances: Vec<u128>)
    requires
        forall|i: int| 0 <= i < sizes@.len() ==> #[trigger] sizes@[i] <= u64::MAX,
        doubled <= 2 * u64::MAX,
    ensures
        distances@ == doubled_distances(sizes@, doubled, below),
        forall|i: int| 0 <= i < distances@.len() ==> #[trigger] distances@[i] <= 2 * u64::MAX,
        (exists|i: int|
            0 <= i < sizes@.len() && (if below {
                2 * (#[trigger] sizes@[i]) <= doubled
            } else {
                2 * sizes@[i] >= doubled
            })) ==> distances@.len() > 0,
{
    let ghost wanted = |size: u128|
        if below {
            2 * size <= doubled
        } else {
            2 * size >= doubled
        };
    let ghost distance = |size: u128|
        if below {
            (doubled - 2 * size) as u128
        } else {
            (2 * size - doubled) as u128
        };
    let mut distances: Vec<u128> = Vec::new();
    let mut i: usize = 0;
    proof {
        reveal(Seq::filter);
        assert(sizes@.take(0) =~= Seq::empty());
        assert(sizes@.take(0).filter(wanted).map_values(distance) =~= distances@);
    }
    while i < sizes.len()
        invariant
            i <= sizes@.len(),
            forall|j: int| 0 <= j < sizes@.len() ==> #[trigger] sizes@[j] <= u64::MAX,
            doubled <= 2 * u64::MAX,
            wanted == (|size: u128|
                if below {
                    2 * size <= doubled
                } else {
                    2 * size >= doubled
                }),
            distance == (|size: u128|
                if below {
                    (doubled - 2 * size) as u128
                } else {
                    (2 * size - doubled) as u128
                }),
            distances@ == sizes@.take(i as int).filter(wanted).map_values(distance),
            forall|j: int| 0 <= j < distances@.len() ==> #[trigger] distances@[j] <= 2 * u64::MAX,
            (exists|j: int| 0 <= j < i && wanted(#[trigger] sizes@[j])) ==> distances@.len() > 0,
        decreases sizes@.len() - i,
    {
        let twice: u128 = 2 * sizes[i];
        let ghost picked = sizes@.take(i as int).filter(wanted);
        let ghost before = distances@;
        proof {
            reveal(Seq::filter);
            assert(sizes@.take(i + 1).drop_last() =~= sizes@.take(i as int));
            assert(sizes@.take(i + 1).last() == sizes@[i as int]);
        }
        if below {
            if twice <= doubled {
                distances.push(doubled - twice);
                assert(distances@ =~= picked.push(sizes@[i as int]).map_values(distance));
            }
        } else {
            if twice >= doubled {
                distances.push(twice - doubled);
                assert(distances@ =~= picked.push(sizes@[i as int]).map_values(distance));
            }
        }
        i += 1;
    }
    assert(sizes@.take(i as int) =~= sizes@);
    proof {
        assert forall|j: int|
            0 <= j < sizes@.len() && (if below {
                2 * (#[trigger] sizes@[j]) <= doubled
            } else {
                2 * sizes@[j] >= doubled
            }) implies distances@.len() > 0 by {
            assert(wanted(sizes@[j]));
        }
    }
    distances
}

/// Sorting keeps a bound on every value.
proof fn bound_survives(values: Seq<u128>, sorted: Seq<u128>, bound: u128)
    requires
        forall|value: u128| sorted.contains(value) <==> values.contains(value),
        forall|i: int| 0 <= i < values.len() ==> #[trigger] values[i] <= bound,
    ensures
        forall|i: int| 0 <= i < sorted.len() ==> #[trigger] sorted[i] <= bound,
{
    assert forall|i: int| 0 <= i < sorted.len() implies #[trigger] sorted[i] <= bound by {
        assert(sorted.contains(sorted[i]));
        let j = choose|j: int| 0 <= j < values.len() && values[j] == sorted[i];
        assert(values[j] <= bound);
    }
}

/// Classifies the newest arrival's size against the feed's recent norm.
///
/// Uses a median and a double median absolute deviation rather than a mean and
/// standard deviation: a handful of objects, or one wildly atypical file, skews
/// mean/SD badly enough to hide the very outlier being looked for. Separate
/// scales above and below the median keep a feed that is occasionally large but
/// never small from masking a small-file failure.
pub fn classify_newest_size(objects: &Vec<S3Object>) -> (status: SizeStatus)
    ensures
        status == size_status_of(model::objects_view(objects@)),
{
    let ghost views = model::objects_view(objects@);
    if objects.len() == 0 {
        return SizeStatus::Unknown;
    }
    let mut newest: usize = 0;
    let mut sizes: Vec<u128> = Vec::new();
    sizes.push(objects[0].size as u128);
    let mut i: usize = 1;
    proof {
        assert(views[0] == objects@[0]@);
        assert(views.take(1)[0] == objects@[0]@);
        assert(sizes@ =~= sizes_of(views).take(1));
    }
    while i < objects.len()
        invariant
            views == model::objects_view(objects@),
            1 <= i <= objects@.len(),
            newest < i,
            objects@[newest as int]@ == newest_arrival(views.take(i as int)),
            sizes@ == sizes_of(views).take(i as int),
            forall|j: int| 0 <= j < sizes@.len() ==> #[trigger] sizes@[j] <= u64::MAX,
        decreases objects@.len() - i,
    {
        proof {
            assert(views.take(i + 1).drop_last() =~= views.take(i as int));
            assert(views.take(i + 1).last() == objects@[i as int]@);
        }
        if !objects[i].last_modified.is_before(&objects[newest].last_modified) {
            newest = i;
        }
        sizes.push(objects[i].size as u128);
        i += 1;
        assert(sizes@ =~= sizes_of(views).take(i as int));
    }
    proof {
        assert(views.take(i as int) =~= views);
        assert(sizes@ =~= sizes_of(views));
    }
    let ghost unsorted = sizes@;
    let sizes = sort_ascending(sizes);
    proof {
        bound_survives(unsorted, sizes@, u64::MAX as u128);
    }
    let median: u128 = match median_of_sorted(&sizes) {
        Some(value) => value,
        None => {
            return SizeStatus::Unknown;
        },
    };
    let size: u128 = 2 * (objects[newest].size as u128);
    // A feed of marker files is legitimately all zeroes; only an empty object in
    // a feed that normally carries content is a failure.
    if size == 0 {
        return if median > 0 && sizes.len() >= 2 {
            SizeStatus::Empty
        } else {
            SizeStatus::Normal
        };
    }
    if sizes.len() < MIN_SIZE_OBSERVATIONS || median == 0 {
        return SizeStatus::Unknown;
    }
    let below: bool = size < median;
    let distances = collect_distances(&sizes, median, below);
    proof {
        let half = (sizes@.len() / 2) as int;
        if sizes@.len() % 2 == 1 {
            assert(2 * sizes@[half] == median);
        } else {
            assert(sizes@[half - 1] <= sizes@[half]);
            assert(2 * sizes@[half - 1] <= median);
            assert(2 * sizes@[half] >= median);
        }
    }
    let ghost loose = distances@;
    let distances = sort_ascending(distances);
    proof {
        bound_survives(loose, distances@, (2 * u64::MAX) as u128);
    }
    let deviation: u128 = match median_of_sorted(&distances) {
        Some(value) => value,
        None => 0,
    };
    let distance: u128 = if below {
        median - size
    } else {
        size - median
    };
    let by_deviation: u128 = (SIZE_OUTLIER_SCORE_TENTHS as u128) * (
    DEVIATION_SCALE_TEN_THOUSANDTHS as u128) * deviation;
    let by_median: u128 = (SIZE_OUTLIER_SCORE_TENTHS as u128) * (
    MIN_SIZE_RELATIVE_SCALE_PERCENT as u128) * median;
    if 200_000 * distance >= by_deviation && 1_000 * distance >= by_median {
        if below {
            SizeStatus::Small
        } else {
            SizeStatus::Large
        }
    } else {
        SizeStatus::Normal
    }
}

/// How bad a timing status is by itself.
pub open spec fn timing_severity(status: FeedHealthStatus) -> HealthSeverity {
    match status {
        FeedHealthStatus::Unknown => HealthSeverity::Unknown,
        FeedHealthStatus::Healthy => HealthSeverity::Okay,
        FeedHealthStatus::Late => HealthSeverity::Warning,
    }
}

/// How bad a size status is by itself. A large file is suspicious; an empty one
/// where content is expected is a broken delivery, so it outranks lateness.
pub open spec fn size_severity(size: SizeStatus) -> HealthSeverity {
    match size {
        SizeStatus::Unknown => HealthSeverity::Unknown,
        SizeStatus::Normal => HealthSeverity::Okay,
        SizeStatus::Large | SizeStatus::Small => HealthSeverity::Warning,
        SizeStatus::Empty => HealthSeverity::Critical,
    }
}

/// The worse of two severities.
pub open spec fn worse(a: HealthSeverity, b: HealthSeverity) -> HealthSeverity {
    if a.spec_rank() >= b.spec_rank() {
        a
    } else {
        b
    }
}

/// Worst of the two axes, so a frontend has one number to rank feeds by.
pub fn severity_of(status: FeedHealthStatus, size: SizeStatus) -> (severity: HealthSeverity)
    ensures
        severity == worse(timing_severity(status), size_severity(size)),
{
    let timing = match status {
        FeedHealthStatus::Unknown => HealthSeverity::Unknown,
        FeedHealthStatus::Healthy => HealthSeverity::Okay,
        FeedHealthStatus::Late => HealthSeverity::Warning,
    };
    let by_size = match size {
        SizeStatus::Unknown => HealthSeverity::Unknown,
        SizeStatus::Normal => HealthSeverity::Okay,
        SizeStatus::Large | SizeStatus::Small => HealthSeverity::Warning,
        SizeStatus::Empty => HealthSeverity::Critical,
    };
    if timing.rank() >= by_size.rank() {
        timing
    } else {
        by_size
    }
}

/// Whole milliseconds as seconds.
pub open spec fn seconds_of(millis: int) -> Ratio {
    Ratio { numerator: millis as u128, denominator: 1_000 }
}

/// The intervals between consecutive objects.
pub open spec fn intervals_of(objects: Seq<ObjectView>) -> Seq<IntervalView> {
    Seq::new(
        interval_count(objects),
        |i: int|
            IntervalView {
                previous_key: objects[i].key,
                key: objects[i + 1].key,
                previous_arrival: objects[i].at,
                arrival: objects[i + 1].at,
                seconds: seconds_of(time::elapsed_millis(objects[i].at, objects[i + 1].at) as int),
            },
    )
}

/// One less than the number of objects, if there are any.
pub open spec fn interval_count(objects: Seq<ObjectView>) -> nat {
    if objects.len() == 0 {
        0
    } else {
        (objects.len() - 1) as nat
    }
}

/// The intervals between consecutive objects.
pub fn intervals_for(objects: &Vec<S3Object>) -> (intervals: Vec<ArrivalInterval>)
    ensures
        intervals@.map_values(|interval: ArrivalInterval| interval@) == intervals_of(
            model::objects_view(objects@),
        ),
{
    let ghost views = model::objects_view(objects@);
    let mut intervals: Vec<ArrivalInterval> = Vec::new();
    let mut i: usize = 1;
    while i < objects.len()
        invariant
            views == model::objects_view(objects@),
            1 <= i,
            i == 1 || i <= objects@.len(),
            intervals@.len() == i - 1,
            forall|j: int|
                0 <= j < intervals@.len() ==> (#[trigger] intervals@[j])@ == intervals_of(views)[j],
        decreases objects@.len() - i,
    {
        let previous = &objects[i - 1];
        let current = &objects[i];
        let millis: u64 = millis_between(&previous.last_modified, &current.last_modified);
        assert(views[i - 1] == previous@ && views[i as int] == current@);
        intervals.push(
            ArrivalInterval {
                previous_key: previous.key.clone(),
                key: current.key.clone(),
                previous_arrival: previous.last_modified,
                arrival: current.last_modified,
                seconds: Ratio { numerator: millis as u128, denominator: 1_000 },
            },
        );
        i += 1;
    }
    proof {
        let said = intervals@.map_values(|interval: ArrivalInterval| interval@);
        assert(views.len() == objects@.len());
        assert forall|j: int| 0 <= j < said.len() implies said[j] == intervals_of(views)[j] by {
            assert(said[j] == intervals@[j]@);
        }
        assert(said =~= intervals_of(views));
    }
    intervals
}

/// The milliseconds between consecutive objects.
pub open spec fn interval_millis(objects: Seq<ObjectView>) -> Seq<u128> {
    Seq::new(
        interval_count(objects),
        |i: int| time::elapsed_millis(objects[i].at, objects[i + 1].at) as u128,
    )
}

/// The sum of numbers.
pub open spec fn total(values: Seq<u128>) -> nat
    decreases values.len(),
{
    if values.len() == 0 {
        0
    } else {
        total(values.drop_last()) + values.last() as nat
    }
}

/// The interval that a feed is held to, and where it comes from: the configured
/// one, or else the median once there are intervals enough to learn it.
pub open spec fn expectation(configured: Option<u64>, sorted: Seq<u128>) -> Option<
    (Ratio, CadenceSource),
> {
    if configured is Some && configured->0 > 0 {
        Some(
            (
                Ratio { numerator: configured->0 as u128, denominator: 1 },
                CadenceSource::Configured,
            ),
        )
    } else if sorted.len() >= MIN_INTERVALS_TO_LEARN_CADENCE && doubled_median(sorted) > 0 {
        Some(
            (
                Ratio { numerator: doubled_median(sorted) as u128, denominator: 2_000 },
                CadenceSource::Learned,
            ),
        )
    } else {
        None
    }
}

/// The gap from which a feed is late.
pub open spec fn late_threshold(expected: Ratio) -> Ratio {
    Ratio {
        numerator: (LATE_MULTIPLIER_NUMERATOR * expected.numerator) as u128,
        denominator: (LATE_MULTIPLIER_DENOMINATOR * expected.denominator) as u128,
    }
}

/// Whether a gap in milliseconds exceeds a threshold in seconds.
pub open spec fn exceeds(gap: int, threshold: Ratio) -> bool {
    gap * threshold.denominator > 1_000 * threshold.numerator
}

/// The gap since the last arrival; an arrival in the future counts as now.
pub open spec fn gap_millis(last: int, as_of: int) -> int {
    time::elapsed_millis(
        if last < as_of {
            last
        } else {
            as_of
        },
        as_of,
    ) as int
}

/// The health of a feed from its objects, oldest first.
pub open spec fn health_of(
    objects: Seq<ObjectView>,
    as_of: int,
    configured: Option<u64>,
) -> HealthView {
    let expected = expectation(configured, ascending(interval_millis(objects)));
    let size_status = size_status_of(objects);
    let gap = gap_millis(objects.last().at, as_of);
    let threshold = late_threshold((expected->0).0);
    let known = objects.len() > 0 && expected is Some;
    let late = known && exceeds(gap, threshold);
    let status = if late {
        FeedHealthStatus::Late
    } else if known {
        FeedHealthStatus::Healthy
    } else {
        FeedHealthStatus::Unknown
    };
    HealthView {
        status,
        cadence_source: if expected is Some {
            Some((expected->0).1)
        } else {
            None
        },
        expected_interval_seconds: if expected is Some {
            Some((expected->0).0)
        } else {
            None
        },
        late_after_seconds: if expected is Some {
            Some(threshold)
        } else {
            None
        },
        current_gap_seconds: if objects.len() > 0 {
            Some(seconds_of(gap))
        } else {
            None
        },
        late_since: if late {
            Some(
                objects.last().at + ((1_000 * threshold.numerator) / (threshold.denominator as int))
                    * 1_000_000,
            )
        } else {
            None
        },
        overdue_seconds: if late {
            Some(
                Ratio {
                    numerator: (gap * threshold.denominator - 1_000 * threshold.numerator) as u128,
                    denominator: (1_000 * threshold.denominator) as u128,
                },
            )
        } else {
            None
        },
        size_status,
        severity: worse(timing_severity(status), size_severity(size_status)),
    }
}

/// The statistics of objects, oldest first.
pub open spec fn statistics_of(
    objects: Seq<ObjectView>,
    as_of: int,
    configured: Option<u64>,
) -> StatisticsView {
    let millis = interval_millis(objects);
    let sorted = ascending(millis);
    let count = interval_count(objects);
    let span = time::elapsed_millis(objects[0].at, objects.last().at) as int;
    let health = health_of(objects, as_of, configured);
    let some = count > 0;
    let rated = objects.len() > 0 && span > 0;
    StatisticsView {
        as_of,
        object_count: objects.len(),
        interval_count: count,
        first_arrival: if objects.len() > 0 {
            Some(objects[0].at)
        } else {
            None
        },
        last_arrival: if objects.len() > 0 {
            Some(objects.last().at)
        } else {
            None
        },
        mean_interval_seconds: if some {
            Some(
                Ratio {
                    numerator: total(millis) as u128,
                    denominator: (1_000 * count) as u128,
                },
            )
        } else {
            None
        },
        median_interval_seconds: if some {
            Some(Ratio { numerator: doubled_median(sorted) as u128, denominator: 2_000 })
        } else {
            None
        },
        p95_interval_seconds: if some {
            Some(seconds_of(sorted[nearest_rank(count, 95)] as int))
        } else {
            None
        },
        largest_gap_seconds: if some {
            Some(seconds_of(sorted.last() as int))
        } else {
            None
        },
        current_gap_seconds: health.current_gap_seconds,
        files_per_hour: if rated {
            Some(
                Ratio { numerator: (count * 3_600_000) as u128, denominator: span as u128 },
            )
        } else {
            None
        },
        files_per_day: if rated {
            Some(
                Ratio { numerator: (count * 86_400_000) as u128, denominator: span as u128 },
            )
        } else {
            None
        },
        health,
    }
}

/// The milliseconds between consecutive objects, and their sum.
fn collect_intervals(objects: &Vec<S3Object>) -> (result: (Vec<u128>, u128))
    ensures
        result.0@ == interval_millis(model::objects_view(objects@)),
        result.1 == total(result.0@),
        forall|i: int| 0 <= i < result.0@.len() ==> #[trigger] result.0@[i] <= MAX_MILLIS,
{
    let ghost views = model::objects_view(objects@);
    let mut millis: Vec<u128> = Vec::new();
    let mut sum: u128 = 0;
    let mut i: usize = 1;
    while i < objects.len()
        invariant
            views == model::objects_view(objects@),
            1 <= i,
            i == 1 || i <= objects@.len(),
            millis@.len() == i - 1,
            sum == total(millis@),
            sum <= MAX_MILLIS * (i - 1),
            forall|j: int| 0 <= j < millis@.len() ==> #[trigger] millis@[j] <= MAX_MILLIS,
            forall|j: int|
                0 <= j < millis@.len() ==> #[trigger] millis@[j] == interval_millis(views)[j],
        decreases objects@.len() - i,
    {
        let ghost before = millis@;
        let step: u64 = millis_between(&objects[i - 1].last_modified, &objects[i].last_modified);
        assert(views[i - 1] == objects@[i - 1]@ && views[i as int] == objects@[i as int]@);
        millis.push(step as u128);
        assert(millis@.drop_last() =~= before);
        sum = sum + step as u128;
        i += 1;
    }
    assert(views.len() == objects@.len());
    assert(millis@ =~= interval_millis(views));
    (millis, sum)
}

/// The statistics of objects that stand oldest first.
///
/// A value for every number of objects. Metrics that require more observations
/// are `None` rather than making the whole result optional.
#[verifier::rlimit(50)]
pub fn statistics_for(
    objects: &Vec<S3Object>,
    as_of: Timestamp,
    configured_expected_seconds: Option<u64>,
) -> (statistics: ArrivalStatistics)
    ensures
        statistics@ == statistics_of(
            model::objects_view(objects@),
            as_of@,
            configured_expected_seconds,
        ),
{
    let ghost views = model::objects_view(objects@);
    assert(views.len() == objects@.len());
    let count: usize = if objects.len() == 0 {
        0
    } else {
        objects.len() - 1
    };
    let (millis, sum) = collect_intervals(objects);
    let ghost unsorted = millis@;
    let sorted = sort_ascending(millis);
    proof {
        bound_survives(unsorted, sorted@, MAX_MILLIS as u128);
    }
    let doubled = median_of_sorted(&sorted);
    let mean = if count > 0 {
        Some(Ratio { numerator: sum, denominator: 1_000 * (count as u128) })
    } else {
        None
    };
    let median = match doubled {
        Some(value) => Some(Ratio { numerator: value, denominator: 2_000 }),
        None => None,
    };
    let p95 = match percentile_nearest_rank(&sorted, 95) {
        Some(value) => Some(Ratio { numerator: value, denominator: 1_000 }),
        None => None,
    };
    let largest = if count > 0 {
        Some(Ratio { numerator: sorted[count - 1], denominator: 1_000 })
    } else {
        None
    };
    let expected = expected_interval(configured_expected_seconds, &sorted);
    let late_after = match &expected {
        Some((interval, _)) => Some(
            Ratio {
                numerator: (LATE_MULTIPLIER_NUMERATOR as u128) * interval.numerator,
                denominator: (LATE_MULTIPLIER_DENOMINATOR as u128) * interval.denominator,
            },
        ),
        None => None,
    };
    let size_status = classify_newest_size(objects);
    let mut first_arrival: Option<Timestamp> = None;
    let mut last_arrival: Option<Timestamp> = None;
    let mut current_gap: Option<Ratio> = None;
    let mut files_per_hour: Option<Ratio> = None;
    let mut files_per_day: Option<Ratio> = None;
    let mut status = FeedHealthStatus::Unknown;
    let mut late_since: Option<Timestamp> = None;
    let mut overdue: Option<Ratio> = None;
    if objects.len() > 0 {
        let first = objects[0].last_modified;
        let last = objects[objects.len() - 1].last_modified;
        assert(views[0] == objects@[0]@);
        assert(views.last() == objects@.last()@);
        first_arrival = Some(first);
        last_arrival = Some(last);
        let span: u64 = millis_between(&first, &last);
        if span > 0 {
            let denominator: u128 = span as u128;
            files_per_hour = Some(Ratio { numerator: (count as u128) * 3_600_000, denominator });
            files_per_day = Some(Ratio { numerator: (count as u128) * 86_400_000, denominator });
        }
        let since: Timestamp = if last.is_before(&as_of) {
            last
        } else {
            as_of
        };
        let gap: u64 = millis_between(&since, &as_of);
        current_gap = Some(Ratio { numerator: gap as u128, denominator: 1_000 });
        if let Some(threshold) = &late_after {
            assert(gap * threshold.denominator <= MAX_MILLIS * 4_000) by (nonlinear_arith)
                requires
                    gap <= MAX_MILLIS,
                    threshold.denominator <= 4_000,
            ;
            let reached: u128 = (gap as u128) * threshold.denominator;
            let allowed: u128 = 1_000 * threshold.numerator;
            if reached > allowed {
                status = FeedHealthStatus::Late;
                let wait: u128 = allowed / threshold.denominator;
                proof {
                    let denominator = threshold.denominator as int;
                    assert(wait < gap) by (nonlinear_arith)
                        requires
                            wait == allowed as int / denominator,
                            allowed < gap * denominator,
                            denominator > 0,
                    ;
                }
                late_since = last.plus_millis(wait as u64);
                overdue = Some(
                    Ratio {
                        numerator: reached - allowed,
                        denominator: 1_000 * threshold.denominator,
                    },
                );
            } else {
                status = FeedHealthStatus::Healthy;
            }
        }
    }
    let severity = severity_of(status, size_status);
    let (expected_interval_seconds, cadence_source) = match expected {
        Some((interval, source)) => (Some(interval), Some(source)),
        None => (None, None),
    };
    ArrivalStatistics {
        as_of,
        object_count: objects.len(),
        interval_count: count,
        first_arrival,
        last_arrival,
        mean_interval_seconds: mean,
        median_interval_seconds: median,
        p95_interval_seconds: p95,
        largest_gap_seconds: largest,
        current_gap_seconds: current_gap,
        files_per_hour,
        files_per_day,
        health: FeedHealth {
            status,
            cadence_source,
            expected_interval_seconds,
            late_after_seconds: late_after,
            current_gap_seconds: current_gap,
            late_since,
            overdue_seconds: overdue,
            size_status,
            severity,
        },
    }
}

/// The interval that a feed is held to, and where it comes from.
fn expected_interval(configured: Option<u64>, sorted: &Vec<u128>) -> (result: Option<
    (Ratio, CadenceSource),
>)
    requires
        forall|i: int| 0 <= i < sorted@.len() ==> #[trigger] sorted@[i] <= MAX_MILLIS,
    ensures
        result == expectation(configured, sorted@),
        result matches Some(pair) ==> pair.0.numerator <= u64::MAX && 1 <= pair.0.denominator
            <= 2_000,
{
    if let Some(seconds) = configured {
        if seconds > 0 {
            return Some(
                (
                    Ratio { numerator: seconds as u128, denominator: 1 },
                    CadenceSource::Configured,
                ),
            );
        }
    }
    if sorted.len() >= MIN_INTERVALS_TO_LEARN_CADENCE {
        if let Some(doubled) = median_of_sorted(sorted) {
            if doubled > 0 {
                return Some(
                    (
                        Ratio { numerator: doubled, denominator: 2_000 },
                        CadenceSource::Learned,
                    ),
                );
            }
        }
    }
    None
}

/// Lateness identifies its episode: at every instant at which an unchanged feed
/// is late, it has been late since the same moment, which has passed.
pub proof fn late_since_is_stable(
    objects: Seq<ObjectView>,
    one: int,
    other: int,
    configured: Option<u64>,
)
    requires
        health_of(objects, one, configured).status == FeedHealthStatus::Late,
        health_of(objects, other, configured).status == FeedHealthStatus::Late,
    ensures
        health_of(objects, one, configured).late_since == health_of(
            objects,
            other,
            configured,
        ).late_since,
        health_of(objects, one, configured).late_since->0 <= one,
{
    let threshold = late_threshold(
        (expectation(configured, ascending(interval_millis(objects)))->0).0,
    );
    let gap = gap_millis(objects.last().at, one);
    let allowed = 1_000 * threshold.numerator;
    let denominator = threshold.denominator as int;
    assert(allowed / denominator < gap) by (nonlinear_arith)
        requires
            allowed < gap * denominator,
            denominator > 0,
    ;
}

/// An unchanged feed that is late stays late as time passes, and grows more
/// overdue.
pub proof fn lateness_lasts(
    objects: Seq<ObjectView>,
    earlier: int,
    later: int,
    configured: Option<u64>,
)
    requires
        earlier <= later,
        health_of(objects, earlier, configured).status == FeedHealthStatus::Late,
    ensures
        health_of(objects, later, configured).status == FeedHealthStatus::Late,
{
    let threshold = late_threshold(
        (expectation(configured, ascending(interval_millis(objects)))->0).0,
    );
    let a = gap_millis(objects.last().at, earlier);
    let b = gap_millis(objects.last().at, later);
    assert(a <= b);
    assert(a * threshold.denominator <= b * threshold.denominator) by (nonlinear_arith)
        requires
            a <= b,
            threshold.denominator >= 0,
    ;
}

/// When the feed became late and how far it is overdue are present exactly
/// while it is late.
pub proof fn lateness_is_dated_exactly_while_late(
    objects: Seq<ObjectView>,
    as_of: int,
    configured: Option<u64>,
)
    ensures
        ({
            let health = health_of(objects, as_of, configured);
            let late = health.status == FeedHealthStatus::Late;
            &&& late == (health.late_since is Some)
            &&& late == (health.overdue_seconds is Some)
        }),
{
}

/// The severity is at least that of either axis, and is that of one of them.
pub proof fn severity_covers_both_axes(
    objects: Seq<ObjectView>,
    as_of: int,
    configured: Option<u64>,
)
    ensures
        ({
            let health = health_of(objects, as_of, configured);
            let timing = timing_severity(health.status);
            let size = size_severity(health.size_status);
            &&& health.severity.spec_rank() >= timing.spec_rank()
            &&& health.severity.spec_rank() >= size.spec_rank()
            &&& health.severity == timing || health.severity == size
        }),
{
}

/// With too few observations no size is called an outlier.
pub proof fn few_observations_withhold_judgement(objects: Seq<ObjectView>)
    requires
        objects.len() < MIN_SIZE_OBSERVATIONS,
    ensures
        size_status_of(objects) != SizeStatus::Small,
        size_status_of(objects) != SizeStatus::Large,
{
}

/// The nearest rank is the first that covers the percentage.
pub proof fn nearest_rank_is_least(count: nat, percent: nat)
    requires
        count > 0,
        0 < percent <= 100,
    ensures
        0 <= nearest_rank(count, percent) < count,
        (nearest_rank(count, percent) + 1) * 100 >= count * percent,
        nearest_rank(count, percent) * 100 < count * percent,
{
    assert(count * percent <= count * 100 && count * percent > 0) by (nonlinear_arith)
        requires
            count > 0,
            0 < percent <= 100,
    ;
}

/// What sorting numbers does.
proof fn ascending_facts(values: Seq<u128>)
    ensures
        ascending(values).len() == values.len(),
        forall|i: int, j: int|
            0 <= i <= j < ascending(values).len() ==> ascending(values)[i] <= ascending(values)[j],
        forall|value: u128| ascending(values).contains(value) <==> values.contains(value),
{
    let leq = |a: u128, b: u128| a <= b;
    assert(vstd::relations::total_ordering(leq));
    values.lemma_sort_by_ensures(leq);
    let sorted = ascending(values);
    broadcast use vstd::seq_lib::group_to_multiset_ensures;

    assert(sorted.to_multiset().len() == values.to_multiset().len());
    assert forall|i: int, j: int| 0 <= i <= j < sorted.len() implies sorted[i] <= sorted[j] by {
        if i < j {
            assert(leq(sorted[i], sorted[j]));
        }
    }
    assert forall|value: u128| sorted.contains(value) <==> values.contains(value) by {
        assert(sorted.to_multiset().count(value) == values.to_multiset().count(value));
    }
}

/// The median is at most the 95th percentile, and that at most the largest gap.
pub proof fn interval_metrics_are_ordered(objects: Seq<ObjectView>)
    requires
        objects.len() >= 2,
    ensures
        ({
            let sorted = ascending(interval_millis(objects));
            let count = interval_count(objects);
            let p95 = sorted[nearest_rank(count, 95)];
            &&& doubled_median(sorted) <= 2 * p95
            &&& p95 <= sorted.last()
        }),
{
    let sorted = ascending(interval_millis(objects));
    let count = interval_count(objects);
    ascending_facts(interval_millis(objects));
    let rank = nearest_rank(count, 95);
    nearest_rank_is_least(count, 95);
    let half = (count / 2) as int;
    assert(half <= rank);
    assert(sorted[half] <= sorted[rank]);
    if count % 2 == 0 {
        assert(sorted[half - 1] <= sorted[rank]);
    }
    assert(sorted[rank] <= sorted[count - 1]);
}

/// Without arrivals there are no metrics and no judgement, only a cadence if one
/// is configured.
pub proof fn empty_histories_have_no_metrics(as_of: int, configured: Option<u64>)
    ensures
        ({
            let none = Seq::<ObjectView>::empty();
            let statistics = statistics_of(none, as_of, configured);
            &&& statistics.object_count == 0
            &&& statistics.interval_count == 0
            &&& statistics.first_arrival is None
            &&& statistics.last_arrival is None
            &&& statistics.mean_interval_seconds is None
            &&& statistics.median_interval_seconds is None
            &&& statistics.p95_interval_seconds is None
            &&& statistics.largest_gap_seconds is None
            &&& statistics.current_gap_seconds is None
            &&& statistics.files_per_hour is None
            &&& statistics.files_per_day is None
            &&& statistics.health.status == FeedHealthStatus::Unknown
            &&& statistics.health.size_status == SizeStatus::Unknown
            &&& statistics.health.severity == HealthSeverity::Unknown
        }),
{
}

/// An arrival in the future leaves no gap.
pub proof fn future_arrivals_leave_no_gap(last: int, as_of: int)
    requires
        last >= as_of,
    ensures
        gap_millis(last, as_of) == 0,
{
}

/// A feed of marker files is not an endless alarm: where every object is empty,
/// an empty arrival is normal.
pub proof fn empty_feeds_are_normal(objects: Seq<ObjectView>)
    requires
        objects.len() > 0,
        forall|i: int| 0 <= i < objects.len() ==> (#[trigger] objects[i]).size == 0,
    ensures
        size_status_of(objects) == SizeStatus::Normal,
{
    let values = sizes_of(objects);
    let sorted = ascending(values);
    ascending_facts(values);
    newest_is_one_of_them(objects);
    assert forall|i: int| 0 <= i < sorted.len() implies sorted[i] == 0 by {
        assert(sorted.contains(sorted[i]));
        assert(values.contains(sorted[i]));
        let j = choose|j: int| 0 <= j < values.len() && values[j] == sorted[i];
        assert(values[j] == objects[j].size as u128);
    }
}

/// An empty arrival in a feed that normally carries content is flagged from the
/// second arrival on, and is critical whatever the timing.
pub proof fn empty_deliveries_are_critical(
    objects: Seq<ObjectView>,
    as_of: int,
    configured: Option<u64>,
)
    requires
        objects.len() >= 2,
        newest_arrival(objects).size == 0,
        doubled_median(ascending(sizes_of(objects))) > 0,
    ensures
        health_of(objects, as_of, configured).size_status == SizeStatus::Empty,
        health_of(objects, as_of, configured).severity == HealthSeverity::Critical,
{
}

/// The newest arrival is one of the arrivals, and none is newer.
pub proof fn newest_is_one_of_them(objects: Seq<ObjectView>)
    requires
        objects.len() > 0,
    ensures
        objects.contains(newest_arrival(objects)),
        forall|i: int|
            0 <= i < objects.len() ==> (#[trigger] objects[i]).at <= newest_arrival(objects).at,
    decreases objects.len(),
{
    if objects.len() == 1 {
        assert(objects[0] == newest_arrival(objects));
    } else {
        let front = objects.drop_last();
        newest_is_one_of_them(front);
        let i = choose|i: int| 0 <= i < front.len() && front[i] == newest_arrival(front);
        assert(objects[i] == newest_arrival(front));
        assert(objects[objects.len() - 1] == objects.last());
        assert forall|i: int| 0 <= i < objects.len() implies (#[trigger] objects[i]).at
            <= newest_arrival(objects).at by {
            if i < front.len() {
                assert(front[i] == objects[i]);
            }
        }
    }
}

} // verus!
