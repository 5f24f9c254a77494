use s3pulse::error::ConfigError;
use s3pulse::history::RollingHistory;
use s3pulse::model::{
    CadenceSource, DownloadProgress, FeedHealthStatus, HealthSeverity, ObjectChangeKind, Ratio,
    S3Object, SizeStatus,
};
use s3pulse::statistics::{
    classify_newest_size, median_of_sorted, percentile_nearest_rank, severity_of,
};
use s3pulse::time::Timestamp;

fn at(seconds: i64) -> Timestamp {
    Timestamp::new(seconds, 0).unwrap()
}

fn object(key: &str, seconds: i64, size: u64) -> S3Object {
    S3Object {
        key: key.to_owned(),
        last_modified: at(seconds),
        size,
        etag: Some(format!("etag-{key}-{size}")),
        storage_class: Some("STANDARD".to_owned()),
    }
}

fn value(ratio: Option<Ratio>) -> Option<f64> {
    ratio.map(|ratio| ratio.numerator as f64 / ratio.denominator as f64)
}

#[test]
fn rejects_zero_capacity() {
    assert_eq!(
        RollingHistory::new(0).unwrap_err(),
        ConfigError::ZeroHistoryCapacity
    );
    assert_eq!(
        RollingHistory::with_expected_interval(1, Some(0)).unwrap_err(),
        ConfigError::ZeroExpectedInterval
    );
}

#[test]
fn stored_cadence_is_used_and_can_be_reconfigured() {
    let mut history = RollingHistory::with_expected_interval(2, Some(10)).unwrap();
    history.upsert(object("a", 0, 1));
    assert_eq!(
        history.statistics_at(at(20), None).health.status,
        FeedHealthStatus::Late
    );
    history.set_expected_interval_seconds(Some(20)).unwrap();
    assert_eq!(
        history.statistics_at(at(20), None).health.status,
        FeedHealthStatus::Healthy
    );
    assert_eq!(
        history.set_expected_interval_seconds(Some(0)),
        Err(ConfigError::ZeroExpectedInterval)
    );
}

#[test]
fn additions_updates_and_identical_observations_are_distinguished() {
    let mut history = RollingHistory::new(4).unwrap();
    let added = history.upsert(object("a", 10, 1));
    assert_eq!(added.changes[0].kind, ObjectChangeKind::Added);
    assert!(added.changes[0].previous.is_none());

    assert!(history.upsert(object("a", 10, 1)).is_empty());

    let updated = history.upsert(object("a", 10, 2));
    assert_eq!(updated.changes[0].kind, ObjectChangeKind::Updated);
    assert_eq!(updated.changes[0].previous.as_ref().unwrap().size, 1);
    assert_eq!(history.get("a").unwrap().size, 2);
}

#[test]
fn retention_and_output_order_are_deterministic() {
    let mut first = RollingHistory::new(3).unwrap();
    let mut second = RollingHistory::new(3).unwrap();
    let values = vec![
        object("z", 20, 1),
        object("a", 20, 1),
        object("middle", 15, 1),
        object("old", 5, 1),
    ];
    first.upsert_many(values.clone());
    second.upsert_many(values.into_iter().rev().collect());

    let keys = |history: &RollingHistory| {
        history
            .objects()
            .into_iter()
            .map(|value| value.key)
            .collect::<Vec<_>>()
    };
    assert_eq!(keys(&first), vec!["a", "z", "middle"]);
    assert_eq!(keys(&first), keys(&second));
    assert!(!first.contains_key("old"));
}

#[test]
fn older_full_listing_entries_do_not_emit_repeated_evictions() {
    let mut history = RollingHistory::new(2).unwrap();
    history.upsert_many(vec![object("a", 30, 1), object("b", 20, 1)]);
    let update = history.upsert_many(vec![
        object("a", 30, 1),
        object("b", 20, 1),
        object("old", 10, 1),
    ]);
    assert!(update.is_empty());
}

#[test]
fn a_new_arrival_evicts_the_oldest_retained_object() {
    let mut history = RollingHistory::new(2).unwrap();
    history.upsert_many(vec![object("old", 10, 1), object("middle", 20, 1)]);
    let update = history.upsert(object("new", 30, 1));
    assert_eq!(
        update
            .added()
            .into_iter()
            .map(|value| value.key.as_str())
            .collect::<Vec<_>>(),
        vec!["new"]
    );
    assert_eq!(update.evicted[0].key, "old");
}

#[test]
fn calculates_mean_median_nearest_rank_p95_and_rates() {
    let mut history = RollingHistory::new(10).unwrap();
    history.upsert_many(vec![
        object("a", 0, 1),
        object("b", 10, 1),
        object("c", 30, 1),
        object("d", 60, 1),
        object("e", 160, 1),
    ]);
    let stats = history.statistics_at(at(310), Some(30));
    assert_eq!(stats.object_count, 5);
    assert_eq!(stats.interval_count, 4);
    assert_eq!(value(stats.mean_interval_seconds), Some(40.0));
    assert_eq!(value(stats.median_interval_seconds), Some(25.0));
    assert_eq!(value(stats.p95_interval_seconds), Some(100.0));
    assert_eq!(value(stats.largest_gap_seconds), Some(100.0));
    assert_eq!(value(stats.current_gap_seconds), Some(150.0));
    assert_eq!(value(stats.files_per_hour), Some(90.0));
    assert_eq!(value(stats.files_per_day), Some(2_160.0));
    assert_eq!(stats.health.status, FeedHealthStatus::Late);
    assert_eq!(stats.health.cadence_source, Some(CadenceSource::Configured));
    assert_eq!(value(stats.health.late_after_seconds), Some(45.0));
}

#[test]
fn learns_median_cadence_only_after_two_intervals() {
    let mut history = RollingHistory::new(10).unwrap();
    history.upsert_many(vec![
        object("a", 0, 1),
        object("b", 10, 1),
        object("c", 30, 1),
    ]);
    let stats = history.statistics_at(at(35), None);
    assert_eq!(stats.health.cadence_source, Some(CadenceSource::Learned));
    assert_eq!(value(stats.health.expected_interval_seconds), Some(15.0));
    assert_eq!(stats.health.status, FeedHealthStatus::Healthy);
}

#[test]
fn configured_cadence_works_with_one_arrival_and_future_arrivals_clamp_gap() {
    let mut history = RollingHistory::new(2).unwrap();
    history.upsert(object("future", 100, 1));
    let stats = history.statistics_at(at(50), Some(10));
    assert_eq!(value(stats.current_gap_seconds), Some(0.0));
    assert_eq!(stats.health.status, FeedHealthStatus::Healthy);
}

#[test]
fn empty_history_returns_a_complete_value_with_optional_metrics() {
    let history = RollingHistory::new(2).unwrap();
    let stats = history.statistics_at(at(10), None);
    assert_eq!(stats.object_count, 0);
    assert_eq!(stats.mean_interval_seconds, None);
    assert_eq!(stats.current_gap_seconds, None);
    assert_eq!(stats.health.status, FeedHealthStatus::Unknown);
    assert!(history.snapshot_at(at(10), None).objects.is_empty());
}

#[test]
fn lateness_is_dated_and_does_not_move() {
    let mut history = RollingHistory::new(4).unwrap();
    history.upsert(object("a", 1_000, 1));
    let on_time = history.statistics_at(at(1_045), Some(30)).health;
    assert_eq!(on_time.status, FeedHealthStatus::Healthy);
    assert_eq!(on_time.late_since, None);
    assert_eq!(on_time.overdue_seconds, None);
    let late = history.statistics_at(at(1_046), Some(30)).health;
    let later = history.statistics_at(at(9_000), Some(30)).health;
    assert_eq!(late.status, FeedHealthStatus::Late);
    assert_eq!(late.late_since, Some(at(1_045)));
    assert_eq!(later.late_since, Some(at(1_045)));
    assert_eq!(value(late.overdue_seconds), Some(1.0));
    assert_eq!(value(later.overdue_seconds), Some(7_955.0));
    assert_eq!(late.severity, HealthSeverity::Warning);
}

#[test]
fn a_learned_threshold_is_dated_in_whole_milliseconds() {
    let mut history = RollingHistory::new(4).unwrap();
    let mut arrivals = vec![object("a", 0, 1), object("b", 0, 1), object("c", 0, 1)];
    arrivals[1].last_modified = Timestamp::new(0, 1_000_000).unwrap();
    arrivals[2].last_modified = Timestamp::new(0, 3_000_000).unwrap();
    history.upsert_many(arrivals);
    // Intervals of 1 ms and 2 ms: the median is 1.5 ms, the threshold 2.25 ms.
    let health = history.statistics_at(at(1), None).health;
    assert_eq!(health.late_since, Timestamp::new(0, 5_000_000));
    assert_eq!(value(health.late_after_seconds), Some(0.00225));
}

#[test]
fn intervals_and_snapshots_are_chronological() {
    let mut history = RollingHistory::with_expected_interval(5, Some(7)).unwrap();
    history.upsert_many(vec![
        object("b", 10, 1),
        object("a", 10, 2),
        object("c", 4, 3),
    ]);
    let intervals = history.intervals();
    assert_eq!(intervals.len(), 2);
    assert_eq!(intervals[0].previous_key, "c");
    assert_eq!(intervals[0].key, "a");
    assert_eq!(value(Some(intervals[0].seconds)), Some(6.0));
    assert_eq!(intervals[1].previous_key, "a");
    assert_eq!(intervals[1].key, "b");
    assert_eq!(value(Some(intervals[1].seconds)), Some(0.0));
    let snapshot = history.snapshot_at(at(11), None);
    let keys: Vec<&str> = snapshot.objects.iter().map(|o| o.key.as_str()).collect();
    assert_eq!(keys, ["a", "b", "c"]);
    assert_eq!(snapshot.intervals, intervals);
    assert_eq!(
        value(snapshot.statistics.health.expected_interval_seconds),
        Some(7.0)
    );
    let now = history.snapshot(Some(3));
    assert_eq!(
        value(now.statistics.health.expected_interval_seconds),
        Some(3.0)
    );
    assert_eq!(history.statistics(None).object_count, 3);
}

#[test]
fn duplicate_keys_in_one_listing_use_the_final_observation() {
    let mut history = RollingHistory::new(3).unwrap();
    let update = history.upsert_many(vec![
        object("a", 1, 1),
        object("b", 2, 2),
        object("a", 3, 3),
    ]);
    assert_eq!(history.len(), 2);
    assert_eq!(history.get("a").unwrap().size, 3);
    assert_eq!(update.changes.len(), 2);
    assert_eq!(update.changes[0].object.key, "a");
    assert_eq!(update.updated().len(), 0);
}

#[test]
fn a_history_reports_its_settings() {
    let mut history = RollingHistory::with_expected_interval(3, Some(9)).unwrap();
    assert_eq!(history.capacity(), 3);
    assert_eq!(history.expected_interval_seconds(), Some(9));
    assert!(history.is_empty());
    assert_eq!(history.len(), 0);
    history.upsert(object("a", 1, 1));
    assert!(!history.is_empty());
    assert!(history.contains_key("a"));
    assert!(history.get("b").is_none());
    assert!(history.emptied().is_empty());
    history.set_expected_interval_seconds(None).unwrap();
    assert_eq!(history.expected_interval_seconds(), None);
}

#[test]
fn evictions_are_reported_oldest_first_with_what_is_known_now() {
    let mut history = RollingHistory::new(3).unwrap();
    history.upsert_many(vec![
        object("a", 1, 1),
        object("b", 2, 1),
        object("c", 3, 1),
    ]);
    let update = history.upsert_many(vec![
        object("d", 10, 1),
        object("e", 11, 1),
        object("a", 1, 9),
    ]);
    let evicted: Vec<(&str, u64)> = update
        .evicted
        .iter()
        .map(|o| (o.key.as_str(), o.size))
        .collect();
    assert_eq!(evicted, [("a", 9), ("b", 1)]);
    let changed: Vec<&str> = update
        .changes
        .iter()
        .map(|c| c.object.key.as_str())
        .collect();
    assert_eq!(changed, ["e", "d"]);
}

#[test]
fn a_large_listing_is_applied_twice_without_effect() {
    let mut history = RollingHistory::new(50).unwrap();
    let listing: Vec<S3Object> = (0..200)
        .map(|index| object(&format!("key-{:03}", (index * 37) % 200), (index * 13) % 97, 1))
        .collect();
    let first = history.upsert_many(listing.clone());
    assert_eq!(first.changes.len(), 50);
    assert_eq!(history.len(), 50);
    assert!(history.upsert_many(listing).is_empty());
    let objects = history.objects();
    for pair in objects.windows(2) {
        let newer = (
            std::cmp::Reverse(pair[0].last_modified),
            pair[0].key.clone(),
        );
        let older = (
            std::cmp::Reverse(pair[1].last_modified),
            pair[1].key.clone(),
        );
        assert!(newer < older);
    }
}

fn sized(index: usize, size: u64) -> S3Object {
    S3Object {
        key: format!("feed/object-{index:04}"),
        last_modified: at(1_700_000_000 + index as i64 * 60),
        size,
        etag: None,
        storage_class: None,
    }
}

fn classify(steady: &[u64], newest: u64) -> SizeStatus {
    let mut objects: Vec<S3Object> = steady
        .iter()
        .enumerate()
        .map(|(index, size)| sized(index, *size))
        .collect();
    objects.push(sized(steady.len(), newest));
    classify_newest_size(&objects)
}

const STEADY: [u64; 9] = [1000, 1010, 990, 1005, 995, 1000, 1002, 998, 1001];

#[test]
fn a_typical_arrival_in_a_steady_feed_is_normal() {
    assert_eq!(classify(&STEADY, 1003), SizeStatus::Normal);
}

#[test]
fn a_truncated_arrival_is_small_and_an_inflated_one_is_large() {
    assert_eq!(classify(&STEADY, 100), SizeStatus::Small);
    assert_eq!(classify(&STEADY, 50_000), SizeStatus::Large);
}

#[test]
fn a_relative_floor_keeps_a_very_consistent_feed_from_crying_outlier() {
    let identical = [1000_u64; 9];
    assert_eq!(classify(&identical, 1001), SizeStatus::Normal);
    assert_eq!(classify(&identical, 1050), SizeStatus::Normal);
    // Still catches a genuine collapse.
    assert_eq!(classify(&identical, 10), SizeStatus::Small);
}

#[test]
fn an_empty_object_is_flagged_immediately_without_waiting_for_a_sample() {
    assert_eq!(classify(&[1000], 0), SizeStatus::Empty);
    assert_eq!(classify(&STEADY, 0), SizeStatus::Empty);
}

#[test]
fn a_feed_of_marker_files_is_not_an_endless_alarm() {
    assert_eq!(classify(&[0, 0, 0, 0], 0), SizeStatus::Normal);
}

#[test]
fn too_few_observations_withholds_judgement_rather_than_guessing() {
    assert_eq!(classify(&[1000, 1000, 1000], 5), SizeStatus::Unknown);
    assert_eq!(classify(&[], 1000), SizeStatus::Unknown);
}

#[test]
fn a_feed_with_legitimately_variable_sizes_does_not_false_alarm() {
    let variable = [100_u64, 400, 900, 1500, 2200, 3000, 4100, 5000, 6000];
    assert_eq!(classify(&variable, 3500), SizeStatus::Normal);
    assert_eq!(classify(&variable, 800), SizeStatus::Normal);
}

#[test]
fn the_outlier_score_is_reached_exactly_at_the_floor() {
    // Identical sizes: the scale is a tenth of the median, so 350 away from
    // 1000 scores exactly three and a half.
    let identical = [1000_u64; 9];
    assert_eq!(classify(&identical, 1349), SizeStatus::Normal);
    assert_eq!(classify(&identical, 1350), SizeStatus::Large);
    assert_eq!(classify(&identical, 651), SizeStatus::Normal);
    assert_eq!(classify(&identical, 650), SizeStatus::Small);
}

#[test]
fn extreme_sizes_are_judged_without_overflow() {
    let huge = [u64::MAX; 9];
    assert_eq!(classify(&huge, u64::MAX), SizeStatus::Normal);
    assert_eq!(classify(&huge, 1), SizeStatus::Small);
    assert_eq!(classify_newest_size(&vec![]), SizeStatus::Unknown);
}

#[test]
fn severity_takes_the_worse_of_the_two_axes() {
    assert_eq!(
        severity_of(FeedHealthStatus::Healthy, SizeStatus::Normal),
        HealthSeverity::Okay
    );
    assert_eq!(
        severity_of(FeedHealthStatus::Healthy, SizeStatus::Empty),
        HealthSeverity::Critical
    );
    assert_eq!(
        severity_of(FeedHealthStatus::Late, SizeStatus::Normal),
        HealthSeverity::Warning
    );
    assert_eq!(
        severity_of(FeedHealthStatus::Late, SizeStatus::Empty),
        HealthSeverity::Critical
    );
    assert!(HealthSeverity::Critical > HealthSeverity::Warning);
    assert!(HealthSeverity::Warning > HealthSeverity::Okay);
}

#[test]
fn medians_and_percentiles_of_sorted_numbers() {
    assert_eq!(median_of_sorted(&vec![]), None);
    assert_eq!(median_of_sorted(&vec![7]), Some(14));
    assert_eq!(median_of_sorted(&vec![1, 4]), Some(5));
    assert_eq!(percentile_nearest_rank(&vec![], 95), None);
    let hundred: Vec<u128> = (1..=100).collect();
    assert_eq!(percentile_nearest_rank(&hundred, 95), Some(95));
    let twenty: Vec<u128> = (1..=20).collect();
    assert_eq!(percentile_nearest_rank(&twenty, 95), Some(19));
    assert_eq!(percentile_nearest_rank(&vec![5, 6], 95), Some(6));
    assert_eq!(percentile_nearest_rank(&vec![5, 6], 0), Some(5));
}

#[test]
fn percentages_stay_within_the_whole() {
    let percent = |bytes, total, done| value(DownloadProgress::new(bytes, total, done).percent);
    assert_eq!(percent(50, Some(200), false), Some(25.0));
    assert_eq!(percent(300, Some(200), false), Some(100.0));
    assert_eq!(percent(0, Some(0), false), None);
    assert_eq!(percent(0, Some(0), true), Some(100.0));
    assert_eq!(percent(7, None, true), None);
}
