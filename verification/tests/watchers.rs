use s3pulse::error::{ConfigError, StoreError, StoreErrorKind, TemplateError, WatcherError};
use s3pulse::model::{FeedHealthStatus, S3Object, WatcherConfig, WatcherEvent};
use s3pulse::time::Timestamp;
use s3pulse::uri::S3Uri;
use s3pulse::watcher::{PollingWatcher, RunAction, RunSignal, WatcherRun};

fn at(text: &str) -> Timestamp {
    let parsed = chrono::DateTime::parse_from_rfc3339(text).unwrap();
    Timestamp::new(parsed.timestamp(), 0).unwrap()
}

fn object(key: &str, timestamp: i64) -> S3Object {
    S3Object {
        key: key.to_owned(),
        last_modified: Timestamp::new(timestamp, 0).unwrap(),
        size: 1,
        etag: Some(format!("etag-{key}")),
        storage_class: Some("STANDARD".to_owned()),
    }
}

fn config() -> WatcherConfig {
    WatcherConfig {
        id: "feed".to_owned(),
        name: "Feed".to_owned(),
        target: S3Uri::parse("s3://bucket/feed/").unwrap(),
        profile: None,
        region: None,
        poll_interval_seconds: 30,
        expected_interval_seconds: Some(10),
        lookback_periods: 1,
        time_zone: None,
        max_history: 2,
    }
}

/// Lists what a store holds: its newest objects, as many as asked for.
fn list_objects(mut objects: Vec<S3Object>, max_objects: usize) -> Vec<S3Object> {
    objects.sort_by(|left, right| {
        right
            .last_modified
            .cmp(&left.last_modified)
            .then_with(|| left.key.cmp(&right.key))
    });
    objects.truncate(max_objects);
    objects
}

#[test]
fn poll_once_reconciles_changes_and_respects_retention() {
    let mut watcher = PollingWatcher::new(config()).unwrap();
    let listing = list_objects(
        vec![
            object("feed/old", 10),
            object("feed/middle", 20),
            object("feed/new", 30),
        ],
        watcher.config().max_history,
    );

    let result = watcher
        .poll_once(Ok(vec![listing]), Timestamp::now())
        .unwrap();
    assert_eq!(result.listed_object_count, 2);
    assert_eq!(result.snapshot.objects.len(), 2);
    assert_eq!(result.snapshot.objects[0].key, "feed/new");
    assert_eq!(result.update.changes.len(), 2);
    assert_eq!(
        result.snapshot.statistics.health.status,
        FeedHealthStatus::Late
    );
}

#[test]
fn several_listings_are_merged_into_one_history() {
    let mut watcher = PollingWatcher::new(config()).unwrap();
    let polled_at = at("2026-08-12T09:00:00Z");
    let result = watcher
        .poll_once(
            Ok(vec![
                vec![object("feed/b", 20), object("feed/a", 10)],
                vec![object("feed/c", 30)],
            ]),
            polled_at,
        )
        .unwrap();
    assert_eq!(result.polled_at, polled_at);
    assert_eq!(result.listed_object_count, 3);
    assert_eq!(result.snapshot.objects.len(), 2);
    assert_eq!(result.snapshot.objects[0].key, "feed/c");
    assert_eq!(result.snapshot.objects[1].key, "feed/b");
    assert_eq!(watcher.history().len(), 2);
}

#[test]
fn a_failed_listing_leaves_the_history_alone() {
    let mut watcher = PollingWatcher::new(config()).unwrap();
    watcher
        .poll_once(Ok(vec![vec![object("feed/a", 10)]]), Timestamp::now())
        .unwrap();
    let failure = StoreError::new(StoreErrorKind::Network, "down".to_owned(), true);
    let error = watcher
        .poll_once(Err(failure.clone()), Timestamp::now())
        .unwrap_err();
    assert_eq!(error, failure);
    assert!(watcher.history().contains_key("feed/a"));
}

#[test]
fn run_emits_lifecycle_and_stops_on_cancellation() {
    let start = at("2026-08-12T09:00:00Z");
    let stop = at("2026-08-12T09:00:01Z");
    let (mut run, action) = WatcherRun::start(&config(), start);
    match action {
        RunAction::Send(WatcherEvent::Started { watcher_id, at }) => {
            assert_eq!(watcher_id, "feed");
            assert_eq!(at, start);
        }
        _ => panic!("the run starts with an announcement"),
    }
    match run.advance(RunSignal::Sent { cancelled: true }, stop) {
        Some(RunAction::Send(WatcherEvent::Stopped { watcher_id, at })) => {
            assert_eq!(watcher_id, "feed");
            assert_eq!(at, stop);
        }
        _ => panic!("a cancelled run announces its end"),
    }
    assert!(matches!(
        run.advance(RunSignal::Sent { cancelled: true }, stop),
        Some(RunAction::Return(Ok(())))
    ));
}

#[test]
fn a_run_polls_reports_and_waits() {
    let now = at("2026-08-12T09:00:00Z");
    let (mut run, _) = WatcherRun::start(&config(), now);
    assert!(matches!(
        run.advance(RunSignal::Sent { cancelled: false }, now),
        Some(RunAction::Poll)
    ));
    let failure = StoreError::new(StoreErrorKind::Network, "down".to_owned(), true);
    match run.advance(RunSignal::Polled(Err(failure.clone())), now) {
        Some(RunAction::Send(WatcherEvent::PollFailed { error, .. })) => {
            assert_eq!(error, failure)
        }
        _ => panic!("a failed poll is reported"),
    }
    assert!(matches!(
        run.advance(RunSignal::Sent { cancelled: false }, now),
        Some(RunAction::Sleep { seconds: 30 })
    ));
    assert!(matches!(
        run.advance(RunSignal::Slept, now),
        Some(RunAction::Poll)
    ));
    let mut watcher = PollingWatcher::new(config()).unwrap();
    let polled = watcher.poll_once(Ok(vec![]), now);
    assert!(matches!(
        run.advance(RunSignal::Polled(polled), now),
        Some(RunAction::Send(WatcherEvent::PollCompleted { .. }))
    ));
    assert!(matches!(
        run.advance(RunSignal::ChannelClosed, now),
        Some(RunAction::Return(Err(WatcherError::EventChannelClosed)))
    ));
}

#[test]
fn a_run_cancelled_while_polling_or_waiting_is_stopped() {
    let now = at("2026-08-12T09:00:00Z");
    let (mut run, _) = WatcherRun::start(&config(), now);
    run.advance(RunSignal::Sent { cancelled: false }, now);
    assert!(matches!(
        run.advance(RunSignal::Cancelled, now),
        Some(RunAction::Send(WatcherEvent::Stopped { .. }))
    ));

    let (mut run, _) = WatcherRun::start(&config(), now);
    run.advance(RunSignal::Sent { cancelled: false }, now);
    run.advance(RunSignal::Polled(Err(StoreError::cancelled())), now);
    run.advance(RunSignal::Sent { cancelled: false }, now);
    assert!(matches!(
        run.advance(RunSignal::Cancelled, now),
        Some(RunAction::Send(WatcherEvent::Stopped { .. }))
    ));
}

#[test]
fn constructor_rejects_invalid_configuration() {
    let mut invalid = config();
    invalid.max_history = 0;
    assert!(PollingWatcher::new(invalid).is_err());
}

#[test]
fn every_configuration_fault_is_named() {
    let fault = |change: fn(&mut WatcherConfig)| {
        let mut invalid = config();
        change(&mut invalid);
        match PollingWatcher::new(invalid) {
            Err(WatcherError::InvalidConfig(fault)) => fault,
            _ => panic!("an invalid configuration must not build a watcher"),
        }
    };
    assert_eq!(fault(|c| c.id = " ".to_owned()), ConfigError::EmptyId);
    assert_eq!(fault(|c| c.name = "\t".to_owned()), ConfigError::EmptyName);
    assert_eq!(
        fault(|c| c.poll_interval_seconds = 0),
        ConfigError::ZeroPollInterval
    );
    assert_eq!(
        fault(|c| c.expected_interval_seconds = Some(0)),
        ConfigError::ZeroExpectedInterval
    );
    assert_eq!(
        fault(|c| c.max_history = 0),
        ConfigError::ZeroHistoryCapacity
    );
    assert_eq!(config().validate(), Ok(()));
    let defaults = WatcherConfig::new(
        "a".to_owned(),
        "A".to_owned(),
        S3Uri::parse("s3://bucket").unwrap(),
    );
    assert_eq!(defaults.poll_interval_seconds, 30);
    assert_eq!(defaults.max_history, 10_000);
    assert_eq!(defaults.lookback_periods, 1);
    assert_eq!(defaults.validate(), Ok(()));
}

fn templated(target: &str, lookback: u32) -> WatcherConfig {
    WatcherConfig {
        id: "feed".to_owned(),
        name: "Feed".to_owned(),
        target: target.parse::<S3Uri>().unwrap(),
        profile: None,
        region: None,
        poll_interval_seconds: 30,
        expected_interval_seconds: None,
        max_history: 100,
        lookback_periods: lookback,
        time_zone: None,
    }
}

#[test]
fn an_ordinary_target_resolves_to_itself_and_lists_once() {
    let watcher = PollingWatcher::new(templated("s3://bucket/trades/", 3)).unwrap();
    let targets = watcher.resolve_targets(at("2026-08-12T09:00:00Z"));
    assert_eq!(
        targets.len(),
        1,
        "lookback is irrelevant without placeholders"
    );
    assert_eq!(targets[0].prefix, "trades/");
    assert_eq!(targets[0].bucket, "bucket");
}

#[test]
fn a_templated_target_resolves_the_period_and_its_lookback() {
    let watcher = PollingWatcher::new(templated("s3://bucket/trades/{yyyy}{MM}{dd}/", 1)).unwrap();
    let targets = watcher.resolve_targets(at("2026-08-12T00:05:00Z"));
    let prefixes: Vec<&str> = targets.iter().map(|t| t.prefix.as_str()).collect();
    assert_eq!(prefixes, ["trades/20260812/", "trades/20260811/"]);
    // The bucket is never templated.
    assert!(targets.iter().all(|target| target.bucket == "bucket"));
}

#[test]
fn a_watcher_resolves_in_its_own_zone() {
    let mut zoned = templated("s3://bucket/{yyyy}{MM}{dd}/", 0);
    zoned.time_zone = Some("Australia/Sydney".to_owned());
    let watcher = PollingWatcher::new(zoned).unwrap();
    let now = at("2026-08-11T20:00:00Z");
    assert!(watcher.can_resolve_at(&now));
    let targets = watcher.resolve_targets(now);
    assert_eq!(targets[0].prefix, "20260812/");
    let mut utc = templated("s3://bucket/{yyyy}{MM}{dd}/", 2);
    let plain = PollingWatcher::new(utc.clone()).unwrap();
    utc.time_zone = Some("UTC".to_owned());
    let named = PollingWatcher::new(utc).unwrap();
    assert_eq!(named.resolve_targets(now), plain.resolve_targets(now));

    let mut unknown = templated("s3://bucket/feed/", 0);
    unknown.time_zone = Some("Nowhere".to_owned());
    match PollingWatcher::new(unknown) {
        Err(WatcherError::InvalidTemplate(fault)) => assert_eq!(
            fault,
            TemplateError::UnknownTimeZone("Nowhere".to_owned())
        ),
        _ => panic!("an unknown zone must not build a watcher"),
    }
}

#[test]
fn a_malformed_template_is_rejected_when_the_watcher_is_built() {
    let error = match PollingWatcher::new(templated("s3://bucket/trades/{mm}/", 1)) {
        Err(error) => error,
        Ok(_) => panic!("a malformed template must not build a watcher"),
    };
    // Failing at construction means a typo surfaces immediately rather than
    // as a feed that silently watches a prefix nothing writes to.
    assert!(error.message().contains("minutes"), "{}", error.message());
}
