use std::sync::Arc;

use s3pulse::error::{StoreError, StoreErrorKind};
use s3pulse::model::{DownloadProgress, HealthSeverity, RequestCounts, S3Object};
use s3pulse::protocol::{
    ErrorData, ErrorObject, ErrorResponse, Notification, Request, RequestId, SuccessResponse,
};
use s3pulse::runtime::{
    augment_progress, finish_download, CoreRuntime, Notice, StartPlan, MAX_CONCURRENT_WATCHERS,
    NOTIFICATION_BATCH_OBJECTS,
};
use s3pulse::service::{
    check_call, find_method, system_version, Call, Method, ObjectDownloadParams,
    ObjectsListParams, Operation, S3PulseRpc, StatisticsHistoryParams, WatchDefinition,
    WatchStartParams, WatchState, WatchStatusParams, WatcherIdParams, MAX_HISTORY_LIMIT,
    MAX_RESPONSE_OBJECTS, PROTOCOL_VERSION,
};
use s3pulse::time::Timestamp;
use s3pulse::transport::{
    answer_to, read_line, settle_cancelled, shape_reply, shutdown_step, Admission, Answer,
    Connection, LineOutcome, LineReader, ProtocolLine, ShutdownStep, MAX_LINE_BYTES,
};
use s3pulse::watcher::PollingWatcher;

#[test]
fn identifiers_preserve_number_and_string_types() {
    let identifier = |json: &str| {
        let value: serde_json::Value = serde_json::from_str(json).unwrap();
        match value.as_i64() {
            Some(number) => RequestId::Number(number),
            None => RequestId::String(value.as_str().unwrap().to_owned()),
        }
    };
    let number = identifier("7");
    let string = identifier(r#""7""#);

    assert_ne!(number, string);
    assert!(!number.is_same(&string));
    assert_eq!(number.to_text(), "number:7");
    assert_eq!(string.to_text(), "string:7");
    assert_eq!(RequestId::Number(-12).to_text(), "number:-12");
    assert_eq!(RequestId::Null.to_text(), "null");
    assert!(RequestId::Null.is_same(&RequestId::Null));
}

#[test]
fn plain_errors_carry_no_data() {
    let id = RequestId::Number(1);
    let response = ErrorResponse::new(
        &id,
        ErrorObject::new(ErrorObject::METHOD_NOT_FOUND, "missing".to_owned()),
    );

    assert_eq!(response.jsonrpc, "2.0");
    assert_eq!(response.error.message, "missing");
    assert!(response.error.data.is_none());
}

#[test]
fn messages_carry_the_protocol_version() {
    let id = RequestId::Null;
    let success = SuccessResponse::new(&id, serde_json::Value::Bool(true));
    assert_eq!(success.jsonrpc, "2.0");
    assert_eq!(success.result, serde_json::Value::Bool(true));
    let notification = Notification::new("test.event", 3);
    assert_eq!(notification.jsonrpc, "2.0");
    assert_eq!(notification.method, "test.event");
    assert_eq!(notification.params, 3);
}

fn detail(error: &ErrorObject) -> &str {
    match &error.data {
        Some(ErrorData::Detail(detail)) => detail,
        other => panic!("expected a detail, got {other:?}"),
    }
}

#[test]
fn errors_have_their_codes_and_details() {
    let parse = ErrorObject::parse_error("bad");
    assert_eq!((parse.code, parse.message.as_str()), (-32700, "Parse error"));
    assert_eq!(detail(&parse), "bad");
    let params = ErrorObject::invalid_params("bad");
    assert_eq!(params.code, -32602);
    assert_eq!(params.message, "Invalid params");
    assert_eq!(detail(&params), "bad");
    let internal = ErrorObject::internal("bad");
    assert_eq!(internal.code, -32603);
    assert_eq!(internal.message, "Internal error");
    let backend = ErrorObject::backend("bad");
    assert_eq!(backend.code, -32010);
    assert_eq!(backend.message, "S3 operation failed");
    assert_eq!(ErrorObject::cancelled().code, -32800);
    assert_eq!(ErrorObject::cancelled().message, "Request cancelled");
    let store = ErrorObject::store(&StoreError::new(
        StoreErrorKind::Network,
        "down".to_owned(),
        true,
    ));
    assert_eq!(store.code, ErrorObject::BACKEND_ERROR);
    assert_eq!(store.message, "down");
    assert_eq!(
        store.data,
        Some(ErrorData::Store {
            kind: StoreErrorKind::Network,
            message: "down".to_owned(),
            retryable: true
        })
    );
}

#[test]
fn system_version_advertises_protocol_capabilities() {
    assert_eq!(find_method("system.version").unwrap(), Method::SystemVersion);
    assert!(matches!(
        check_call(Call::SystemVersion),
        Ok(Operation::SystemVersion)
    ));
    let result = system_version("0.2.1");

    assert_eq!(result.name, "s3pulse");
    assert_eq!(result.version, "0.2.1");
    assert_eq!(result.protocol_version, PROTOCOL_VERSION);
    assert!(result.cancellation);
    for method in &result.methods {
        assert!(find_method(method).is_ok(), "{method}");
    }
    assert_eq!(result.methods.len(), 8);
    assert_eq!(
        result.notifications,
        [
            "objects.added",
            "watch.statusChanged",
            "statistics.updated",
            "download.progress",
            "watch.error"
        ]
    );
}

#[test]
fn watch_start_applies_defaults() {
    assert_eq!(find_method("watch.start").unwrap(), Method::WatchStart);
    let watcher = WatchDefinition::new("s3://bucket/feed/".to_owned());
    assert_eq!(watcher.poll_interval_seconds, 30);
    assert_eq!(watcher.history_limit, 10_000);
    assert_eq!(watcher.lookback_periods, 1);
    let operation = check_call(Call::WatchStart(WatchStartParams { watcher })).unwrap();
    let definition = match operation {
        Operation::WatchStart(definition) => definition,
        _ => panic!("a watcher is started"),
    };
    assert_eq!(definition.target, "s3://bucket/feed/");
    let runtime = CoreRuntime::new(None, None);
    let plan = runtime.watch_start(&definition, false).unwrap();
    // Nothing names the watcher, so it is given an identifier.
    let id = uuid::Uuid::parse_str(&plan.config.id).unwrap();
    assert_eq!(id.to_string(), plan.config.id);
    assert_eq!(plan.config.name, "s3://bucket/feed/");
}

#[test]
fn rejects_zero_poll_interval_before_runtime_call() {
    let mut watcher = WatchDefinition::new("s3://bucket/feed/".to_owned());
    watcher.poll_interval_seconds = 0;
    let error = check_call(Call::WatchStart(WatchStartParams { watcher })).unwrap_err();

    assert_eq!(error.code, ErrorObject::INVALID_PARAMS);
}

#[test]
fn definitions_are_refused_with_a_reason() {
    let reason = |change: fn(&mut WatchDefinition)| {
        let mut watcher = WatchDefinition::new("s3://bucket/feed/".to_owned());
        change(&mut watcher);
        let error = watcher.validate().unwrap_err();
        assert_eq!(error.code, ErrorObject::INVALID_PARAMS);
        detail(&error).to_owned()
    };
    assert_eq!(
        reason(|w| w.target = " ".to_owned()),
        "watcher.target cannot be empty"
    );
    assert_eq!(
        reason(|w| w.poll_interval_seconds = 0),
        "watcher.pollIntervalSeconds must be greater than zero"
    );
    assert_eq!(
        reason(|w| w.history_limit = 0),
        "watcher.historyLimit must be greater than zero"
    );
    assert_eq!(
        reason(|w| w.history_limit = MAX_HISTORY_LIMIT + 1),
        "watcher.historyLimit cannot exceed 10000"
    );
    assert_eq!(
        reason(|w| w.id = Some("\n".to_owned())),
        "watcher.id cannot be empty"
    );
    assert_eq!(
        reason(|w| w.expected_interval_seconds = Some(0)),
        "watcher.expectedIntervalSeconds must be greater than zero"
    );
}

#[test]
fn bounds_object_response_lines_with_a_hard_item_limit() {
    assert_eq!(find_method("objects.list").unwrap(), Method::ObjectsList);
    let error = check_call(Call::ObjectsList(ObjectsListParams {
        watcher_id: "feed".to_owned(),
        limit: Some(MAX_RESPONSE_OBJECTS + 1),
    }))
    .unwrap_err();
    assert_eq!(error.code, ErrorObject::INVALID_PARAMS);
    assert_eq!(detail(&error), "limit cannot exceed 1000");
}

#[test]
fn unknown_method_returns_standard_error() {
    let error = find_method("missing.method").unwrap_err();

    assert_eq!(error.code, ErrorObject::METHOD_NOT_FOUND);
    assert_eq!(error.message, "Method not found: missing.method");
}

#[test]
fn limits_default_to_the_largest_response() {
    match check_call(Call::StatisticsHistory(StatisticsHistoryParams {
        watcher_id: "feed".to_owned(),
        limit: None,
    })) {
        Ok(Operation::StatisticsHistory { watcher_id, limit }) => {
            assert_eq!(watcher_id, "feed");
            assert_eq!(limit, MAX_RESPONSE_OBJECTS);
        }
        _ => panic!("the history is asked for"),
    }
    match check_call(Call::ObjectsList(ObjectsListParams {
        watcher_id: "feed".to_owned(),
        limit: Some(3),
    })) {
        Ok(Operation::ObjectsList { limit, .. }) => assert_eq!(limit, 3),
        _ => panic!("the objects are asked for"),
    }
    let error = check_call(Call::StatisticsHistory(StatisticsHistoryParams {
        watcher_id: "feed".to_owned(),
        limit: Some(0),
    }))
    .unwrap_err();
    assert_eq!(detail(&error), "limit must be greater than zero");
}

#[test]
fn blank_identifiers_are_refused() {
    let blank = || WatcherIdParams {
        watcher_id: " ".to_owned(),
    };
    for call in [
        Call::WatchStop(blank()),
        Call::StatisticsFrequency(blank()),
        Call::WatchStatus(WatchStatusParams {
            watcher_id: Some(String::new()),
        }),
    ] {
        assert_eq!(
            detail(&check_call(call).unwrap_err()),
            "watcherId cannot be empty"
        );
    }
    assert!(matches!(
        check_call(Call::WatchStatus(WatchStatusParams::default())),
        Ok(Operation::WatchStatus { watcher_id: None })
    ));
    let params = |id: Option<&str>, key: &str, destination: &str| ObjectDownloadParams {
        watcher_id: "feed".to_owned(),
        download_id: id.map(str::to_owned),
        key: key.to_owned(),
        destination: destination.to_owned(),
        overwrite: false,
    };
    let reason = |params| detail(&check_call(Call::ObjectDownload(params)).unwrap_err()).to_owned();
    assert_eq!(reason(params(None, " ", "out")), "key cannot be empty");
    assert_eq!(
        reason(params(Some(" "), "key", "out")),
        "downloadId cannot be empty"
    );
    assert_eq!(
        reason(params(None, "key", "")),
        "destination cannot be empty"
    );
    assert!(check_call(Call::ObjectDownload(params(Some("id"), "key", "out"))).is_ok());
}

struct FakeFactory;

fn runtime() -> CoreRuntime<FakeFactory> {
    CoreRuntime::with_factory(Arc::new(FakeFactory), None, None)
}

fn definition() -> WatchDefinition {
    WatchDefinition {
        id: Some("feed".to_owned()),
        name: Some("Feed".to_owned()),
        target: "s3://bucket/feed/".to_owned(),
        profile: None,
        region: None,
        poll_interval_seconds: 3_600,
        lookback_periods: 1,
        time_zone: None,
        expected_interval_seconds: None,
        history_limit: 10,
    }
}

fn listing() -> Vec<S3Object> {
    vec![S3Object {
        key: "feed/object.parquet".to_owned(),
        last_modified: Timestamp::new(1_700_000_000, 0).unwrap(),
        size: 42,
        etag: Some("etag".to_owned()),
        storage_class: Some("STANDARD".to_owned()),
    }]
}

const COUNTS: RequestCounts = RequestCounts {
    list_requests: 11,
    get_requests: 3,
};

/// Starts a watcher whose store could be made.
fn start(runtime: &mut CoreRuntime<FakeFactory>) -> (PollingWatcher, u64) {
    let plan = runtime.watch_start(&definition(), false).unwrap();
    let (watcher, serial) = runtime.launch(plan, Ok(()), false).unwrap();
    let (started, notice) = runtime
        .confirm_start("feed".to_owned(), serial, false)
        .unwrap();
    assert_eq!(started.watcher_id, "feed");
    assert_eq!(started.status, WatchState::Running);
    assert!(announces(&notice, "feed", WatchState::Running));
    (watcher, serial)
}

fn announces(notice: &Notice, id: &str, state: WatchState) -> bool {
    matches!(
        notice,
        Notice::StatusChanged { watcher_id, status } if watcher_id == id && *status == state
    )
}

fn stop(runtime: &mut CoreRuntime<FakeFactory>) {
    let serial = runtime.find_serial("feed").unwrap();
    let notice = runtime.announce_stop("feed", serial);
    assert!(announces(&notice, "feed", WatchState::Stopped));
    let status = runtime.watch_status(Some("feed".to_owned())).unwrap();
    assert_eq!(status.watchers[0].status, WatchState::Stopped);
    let stopped = runtime.watch_stop("feed".to_owned(), serial);
    assert_eq!(stopped.status, WatchState::Stopped);
}

#[test]
fn progress_is_augmented_with_correlation_fields() {
    let params = ObjectDownloadParams {
        watcher_id: "watcher".to_owned(),
        download_id: None,
        key: "feed/object".to_owned(),
        destination: "object".to_owned(),
        overwrite: false,
    };
    let value = augment_progress(&params, "download", &DownloadProgress::new(3, None, false));
    assert_eq!(value.watcher_id, "watcher");
    assert_eq!(value.download_id, "download");
    assert_eq!(value.key, "feed/object");
    assert_eq!(value.bytes_transferred, 3);
    assert!(!value.done);
}

#[test]
fn watcher_seeds_history_emits_objects_and_can_restart_with_same_id() {
    let mut runtime = runtime();
    let (mut watcher, serial) = start(&mut runtime);
    let polled = watcher.poll_once(Ok(vec![listing()]), Timestamp::now());
    let notices = runtime.record_poll("feed", serial, COUNTS, polled);
    let objects = runtime.objects_list("feed".to_owned(), None).unwrap();
    assert_eq!(objects.objects.len(), 1);
    assert!(notices.iter().any(|notice| matches!(
        notice,
        Notice::ObjectsAdded { changes, .. } if changes.len() == 1
    )));

    stop(&mut runtime);
    let (_, again) = start(&mut runtime);
    assert_ne!(serial, again);
    // What the stopped watcher still reports is not taken for the new one's.
    let late = watcher.poll_once(Ok(vec![listing()]), Timestamp::now());
    assert!(runtime.record_poll("feed", serial, COUNTS, late).is_empty());
    assert!(runtime
        .objects_list("feed".to_owned(), None)
        .unwrap()
        .objects
        .is_empty());
    stop(&mut runtime);
    assert_eq!(
        runtime.find_serial("feed").unwrap_err().code,
        ErrorObject::WATCHER_NOT_FOUND
    );
}

#[test]
fn cancelled_watch_start_does_not_register_a_watcher() {
    let runtime = runtime();

    let error = runtime.watch_start(&definition(), true).unwrap_err();
    assert_eq!(error.code, ErrorObject::REQUEST_CANCELLED);
    assert!(runtime.watch_status(None).unwrap().watchers.is_empty());
}

#[test]
fn starts_cancelled_later_leave_no_watcher_either() {
    let mut runtime = runtime();
    let plan = runtime.watch_start(&definition(), false).unwrap();
    let error = match runtime.launch(plan, Ok(()), true) {
        Err(error) => error,
        Ok(_) => panic!("a cancelled start must not go on"),
    };
    assert_eq!(error.code, ErrorObject::REQUEST_CANCELLED);
    let plan = runtime.watch_start(&definition(), false).unwrap();
    let (_, serial) = runtime.launch(plan, Ok(()), false).unwrap();
    let error = runtime
        .confirm_start("feed".to_owned(), serial, true)
        .unwrap_err();
    assert_eq!(error.code, ErrorObject::REQUEST_CANCELLED);
    assert!(runtime.watch_status(None).unwrap().watchers.is_empty());
}

#[test]
fn starts_are_refused_with_a_reason() {
    let mut runtime = runtime();
    let refused = |runtime: &mut CoreRuntime<FakeFactory>, plan: StartPlan, store| {
        match runtime.launch(plan, store, false) {
            Err(error) => error,
            Ok(_) => panic!("the start must be refused"),
        }
    };
    let plan = runtime.watch_start(&definition(), false).unwrap();
    let error = refused(&mut runtime, plan, Err("no store".to_owned()));
    assert_eq!(error.code, ErrorObject::BACKEND_ERROR);
    assert_eq!(detail(&error), "no store");

    let mut broken = definition();
    broken.target = "s3://bucket/{mm}/".to_owned();
    let plan = runtime.watch_start(&broken, false).unwrap();
    let error = refused(&mut runtime, plan, Ok(()));
    assert_eq!(error.code, ErrorObject::INVALID_PARAMS);

    let mut elsewhere = definition();
    elsewhere.target = "file://x".to_owned();
    let error = runtime.watch_start(&elsewhere, false).unwrap_err();
    assert_eq!(detail(&error), "S3 URI must start with s3://");

    let early = runtime.watch_start(&definition(), false).unwrap();
    start(&mut runtime);
    let error = refused(&mut runtime, early, Ok(()));
    assert_eq!(error.code, ErrorObject::WATCHER_ALREADY_EXISTS);
    let error = runtime.watch_start(&definition(), false).unwrap_err();
    assert_eq!(error.message, "Watcher already exists: feed");
}

#[test]
fn watchers_are_limited_in_number() {
    let mut runtime = runtime();
    for number in 0..MAX_CONCURRENT_WATCHERS {
        let plan = runtime
            .plan_start(&definition(), format!("feed-{number}"), false)
            .unwrap();
        runtime.launch(plan, Ok(()), false).unwrap();
    }
    let error = runtime.watch_start(&definition(), false).unwrap_err();
    assert_eq!(error.code, ErrorObject::RESOURCE_LIMIT);
    assert_eq!(error.message, "Watcher limit reached (32)");
    let status = runtime.watch_status(None).unwrap();
    assert_eq!(status.watchers.len(), MAX_CONCURRENT_WATCHERS);
    for pair in status.watchers.windows(2) {
        assert!(pair[0].watcher_id < pair[1].watcher_id);
    }
}

#[test]
fn request_counts_reach_status_and_statistics() {
    let mut runtime = runtime();
    let (_, serial) = start(&mut runtime);
    runtime.note_requests("feed", serial, COUNTS);

    let status = runtime.watch_status(None).unwrap();
    assert_eq!(status.watchers[0].request_counts.list_requests, 11);
    assert_eq!(status.watchers[0].request_counts.get_requests, 3);

    let statistics = runtime.statistics_frequency("feed".to_owned()).unwrap();
    assert_eq!(statistics.request_counts.list_requests, 11);
    assert!(statistics.statistics.is_none());
}

#[test]
fn download_relays_progress_and_returns_authoritative_bytes() {
    let mut runtime = runtime();
    start(&mut runtime);
    let params = ObjectDownloadParams {
        watcher_id: "feed".to_owned(),
        download_id: Some("client-download".to_owned()),
        key: "feed/object.parquet".to_owned(),
        destination: "object.parquet".to_owned(),
        overwrite: false,
    };
    let plan = runtime.object_download(&params).unwrap();
    assert_eq!(plan.source.to_text(), "s3://bucket/feed/object.parquet");
    let notice = augment_progress(
        &params,
        &plan.download_id,
        &DownloadProgress::new(42, Some(42), true),
    );
    assert_eq!(notice.bytes_transferred, 42);
    // The end is announced apart.
    assert!(!notice.done);

    let (end, result) = finish_download(params, plan.download_id, 42, Ok(42));
    let result = result.unwrap();
    assert_eq!(result.bytes, 42);
    assert_eq!(result.download_id, "client-download");
    assert_eq!(result.destination, "object.parquet");
    assert!(end.done);
    assert_eq!(end.bytes_transferred, 42);
    assert_eq!(end.download_id, "client-download");
    assert_eq!(end.key, "feed/object.parquet");
    assert!(end.error.is_none());

    stop(&mut runtime);
}

#[test]
fn downloads_stay_within_the_watched_prefix() {
    let mut runtime = runtime();
    let params = |key: &str| ObjectDownloadParams {
        watcher_id: "feed".to_owned(),
        download_id: None,
        key: key.to_owned(),
        destination: "out".to_owned(),
        overwrite: true,
    };
    let error = runtime.object_download(&params("feed/a")).unwrap_err();
    assert_eq!(error.code, ErrorObject::WATCHER_NOT_FOUND);
    assert_eq!(error.message, "Watcher not found: feed");
    start(&mut runtime);
    let error = runtime.object_download(&params("other/a")).unwrap_err();
    assert_eq!(detail(&error), "key is outside the watcher's prefix");
    let error = runtime.object_download(&params("feed/\n")).unwrap_err();
    assert_eq!(error.code, ErrorObject::INVALID_PARAMS);
    let plan = runtime.object_download(&params("feed/a")).unwrap();
    assert!(uuid::Uuid::parse_str(&plan.download_id).is_ok());

    let failure = StoreError::new(StoreErrorKind::NotFound, "gone".to_owned(), false);
    let (end, result) = finish_download(
        params("feed/a"),
        plan.download_id.clone(),
        17,
        Err(failure.clone()),
    );
    // A failed download ends with the bytes reported last.
    assert!(end.done);
    assert_eq!(end.bytes_transferred, 17);
    assert_eq!(end.total_bytes, None);
    assert_eq!(end.watcher_id, "feed");
    assert_eq!(end.download_id, plan.download_id);
    assert_eq!(end.key, "feed/a");
    assert_eq!(end.error, Some(failure.clone()));
    let error = result.unwrap_err();
    assert_eq!(error.code, -32010);
    assert_eq!(error.message, "gone");
    let (end, _) = finish_download(params("feed/a"), plan.download_id, 0, Err(failure));
    assert_eq!(end.bytes_transferred, 0);
}

#[test]
fn a_stopping_watcher_keeps_its_identifier_until_it_is_announced() {
    let mut runtime = runtime();
    let (_, serial) = start(&mut runtime);
    runtime.record_stopped("feed", serial);
    let error = runtime.watch_start(&definition(), false).unwrap_err();
    assert_eq!(error.code, ErrorObject::WATCHER_ALREADY_EXISTS);
    let notice = runtime.announce_stop("feed", serial);
    assert!(announces(&notice, "feed", WatchState::Stopped));
    runtime.watch_stop("feed".to_owned(), serial);
    assert!(runtime.watch_start(&definition(), false).is_ok());
}

#[test]
fn failed_polls_are_announced_and_so_is_recovery() {
    let mut runtime = runtime();
    let (mut watcher, serial) = start(&mut runtime);
    let failure = StoreError::new(StoreErrorKind::Network, "down".to_owned(), true);
    let notices = runtime.record_poll("feed", serial, COUNTS, Err(failure));
    assert_eq!(notices.len(), 2);
    assert!(matches!(&notices[0], Notice::WatchFailed { error, .. } if error.message == "down"));
    assert!(matches!(
        &notices[1],
        Notice::StatusChanged {
            status: WatchState::Error,
            ..
        }
    ));
    let status = runtime.watch_status(Some("feed".to_owned())).unwrap();
    assert_eq!(status.watchers[0].status, WatchState::Error);
    assert_eq!(status.watchers[0].error.as_deref(), Some("down"));

    let polled_at = Timestamp::new(1_700_000_060, 0).unwrap();
    let polled = watcher.poll_once(Ok(vec![listing()]), polled_at);
    let notices = runtime.record_poll("feed", serial, COUNTS, polled);
    assert!(matches!(
        &notices[0],
        Notice::StatusChanged {
            status: WatchState::Running,
            ..
        }
    ));
    assert!(matches!(&notices[1], Notice::ObjectsAdded { .. }));
    assert!(matches!(&notices[2], Notice::StatisticsUpdated { .. }));
    assert_eq!(notices.len(), 3);
    for notice in &notices {
        let subject = match notice {
            Notice::StatusChanged { watcher_id, .. } => watcher_id,
            Notice::ObjectsAdded { watcher_id, .. } => watcher_id,
            Notice::StatisticsUpdated { watcher_id, .. } => watcher_id,
            Notice::WatchFailed { watcher_id, .. } => watcher_id,
        };
        assert_eq!(subject, "feed");
    }
    let status = runtime.watch_status(None).unwrap();
    let watcher = &status.watchers[0];
    assert_eq!(watcher.status, WatchState::Running);
    assert_eq!(watcher.error, None);
    assert_eq!(watcher.object_count, 1);
    assert_eq!(watcher.target, "s3://bucket/feed/");
    assert_eq!(
        watcher.last_poll_at.as_deref(),
        Some("2023-11-14T22:14:20+00:00")
    );
    assert_eq!(watcher.health.unwrap().severity, HealthSeverity::Unknown);
    let frequency = runtime.statistics_frequency("feed".to_owned()).unwrap();
    assert_eq!(frequency.statistics.unwrap().object_count, 1);
}

#[test]
fn large_changes_are_announced_in_batches() {
    let mut runtime = runtime();
    let mut plan = runtime.watch_start(&definition(), false).unwrap();
    plan.config.max_history = 1_000;
    let (mut watcher, serial) = runtime.launch(plan, Ok(()), false).unwrap();
    let objects: Vec<S3Object> = (0..600)
        .map(|index| S3Object {
            key: format!("feed/{index:04}"),
            last_modified: Timestamp::new(1_000 + index * 5, 0).unwrap(),
            size: 1,
            etag: None,
            storage_class: None,
        })
        .collect();
    let polled = watcher.poll_once(Ok(vec![objects]), Timestamp::new(10_000, 0).unwrap());
    let notices = runtime.record_poll("feed", serial, COUNTS, polled);
    let sizes: Vec<usize> = notices
        .iter()
        .filter_map(|notice| match notice {
            Notice::ObjectsAdded { changes, .. } => Some(changes.len()),
            _ => None,
        })
        .collect();
    assert_eq!(sizes, [NOTIFICATION_BATCH_OBJECTS, NOTIFICATION_BATCH_OBJECTS, 100]);

    let listed = runtime.objects_list("feed".to_owned(), Some(2)).unwrap();
    assert_eq!(listed.objects[0].key, "feed/0599");
    assert_eq!(listed.objects.len(), 2);
    let history = runtime.statistics_history("feed".to_owned(), Some(2)).unwrap();
    assert_eq!(history.samples[0].key, "feed/0598");
    assert_eq!(history.samples[0].interval_seconds, None);
    assert_eq!(history.samples[1].key, "feed/0599");
    let interval = history.samples[1].interval_seconds.unwrap();
    assert_eq!(interval.numerator as f64 / interval.denominator as f64, 5.0);
}

#[test]
fn defaults_are_used_where_a_definition_names_nothing() {
    let runtime = CoreRuntime::with_factory(
        Arc::new(FakeFactory),
        Some("prod".to_owned()),
        Some("eu".to_owned()),
    );
    let mut watcher = definition();
    watcher.region = Some("us".to_owned());
    watcher.name = None;
    let plan = runtime.watch_start(&watcher, false).unwrap();
    assert_eq!(plan.config.profile.as_deref(), Some("prod"));
    assert_eq!(plan.config.region.as_deref(), Some("us"));
    assert_eq!(plan.config.name, "s3://bucket/feed/");
    let _: &Arc<FakeFactory> = runtime.factory();
    let handler = S3PulseRpc::new(Arc::new(3));
    assert_eq!(**handler.runtime(), 3);
}

fn lines(input: &[u8], chunk: usize) -> Vec<ProtocolLine> {
    let mut reader = LineReader::new();
    let mut read = Vec::new();
    for part in input.chunks(chunk) {
        let mut rest = part.to_vec();
        while !rest.is_empty() {
            let (consumed, line) = reader.feed(&rest);
            rest.drain(..consumed);
            read.extend(line);
        }
    }
    read.push(reader.finish());
    read
}

#[test]
fn oversized_lines_are_discarded_at_a_clean_boundary() {
    let mut input = vec![b'x'; MAX_LINE_BYTES + 1];
    input.extend_from_slice(b"\n{}\n");

    let read = lines(&input, 8 * 1024);
    assert_eq!(
        read,
        [
            ProtocolLine::TooLarge,
            ProtocolLine::Complete(b"{}\n".to_vec()),
            ProtocolLine::Eof
        ]
    );
}

#[test]
fn lines_do_not_depend_on_how_input_is_cut() {
    let input = b"{}\n\n[1]\n{\"open\"";
    let whole = lines(input, input.len());
    assert_eq!(
        whole,
        [
            ProtocolLine::Complete(b"{}\n".to_vec()),
            ProtocolLine::Complete(b"\n".to_vec()),
            ProtocolLine::Complete(b"[1]\n".to_vec()),
            ProtocolLine::Complete(b"{\"open\"".to_vec()),
        ]
    );
    for chunk in 1..input.len() {
        assert_eq!(lines(input, chunk), whole);
    }
}

#[test]
fn the_longest_line_is_still_read() {
    let mut input = vec![b' '; MAX_LINE_BYTES - 1];
    input.push(b'\n');
    assert_eq!(lines(&input, 8 * 1024)[0], ProtocolLine::Complete(input));
    let unfinished = vec![b' '; MAX_LINE_BYTES + 1];
    assert_eq!(lines(&unfinished, 8 * 1024), [ProtocolLine::TooLarge]);
}

fn reply(outcome: LineOutcome) -> ErrorObject {
    match outcome {
        LineOutcome::Reply { id, error } => {
            assert_eq!(id, RequestId::Null);
            error
        }
        other => panic!("expected a reply, got {other:?}"),
    }
}

#[test]
fn malformed_json_returns_parse_error() {
    let line = ProtocolLine::Complete(b"not-json\n".to_vec());
    let error = reply(read_line(&line));
    assert_eq!(error.code, ErrorObject::PARSE_ERROR);
    let expected = serde_json::from_slice::<serde_json::Value>(b"not-json\n").unwrap_err();
    assert_eq!(detail(&error), expected.to_string());
}

#[test]
fn valid_json_with_wrong_shape_returns_invalid_request() {
    let line = ProtocolLine::Complete(b"[]\n".to_vec());
    match read_line(&line) {
        LineOutcome::Message(value) => assert_eq!(value, serde_json::Value::Array(vec![])),
        other => panic!("expected a message, got {other:?}"),
    }
    let error = reply(shape_reply("not an object"));
    assert_eq!(error.code, ErrorObject::INVALID_REQUEST);
    assert_eq!(error.message, "Invalid JSON-RPC request");
    assert_eq!(detail(&error), "not an object");
}

#[test]
fn other_lines_are_read_for_what_they_are() {
    assert!(matches!(read_line(&ProtocolLine::Eof), LineOutcome::End));
    let error = reply(read_line(&ProtocolLine::TooLarge));
    assert_eq!(error.code, ErrorObject::INVALID_REQUEST);
    assert_eq!(error.message, "Request exceeds maximum line length");
    match read_line(&ProtocolLine::Complete(b" 7 \n".to_vec())) {
        LineOutcome::Message(value) => assert_eq!(value.as_u64(), Some(7)),
        other => panic!("expected a message, got {other:?}"),
    }
}

fn request(id: Option<RequestId>, method: &str) -> Request {
    Request {
        jsonrpc: "2.0".to_owned(),
        id,
        method: method.to_owned(),
        params: serde_json::Value::Null,
    }
}

#[test]
fn responds_to_requests_and_not_notifications() {
    let mut connection = Connection::new(64);
    assert!(matches!(
        connection.receive(&request(None, "echo")),
        Admission::Start
    ));
    let id = RequestId::Number(1);
    assert!(matches!(
        connection.receive(&request(Some(id.clone()), "echo")),
        Admission::Start
    ));
    // Only the request has an answer to wait for.
    assert!(connection.can_cancel(&id));
    assert!(!connection.can_cancel(&RequestId::Null));
    connection.release();
    connection.answered(&id);
    assert!(!connection.can_cancel(&id));
}

#[test]
fn rejects_work_above_the_concurrency_limit_without_queuing_tasks() {
    let mut connection = Connection::new(1);
    let first = RequestId::Number(1);
    assert!(matches!(
        connection.receive(&request(Some(first.clone()), "delay")),
        Admission::Start
    ));
    match connection.receive(&request(Some(RequestId::Number(2)), "echo")) {
        Admission::Reply { id, error } => {
            assert_eq!(id, RequestId::Number(2));
            assert_eq!(error.code, ErrorObject::SERVER_BUSY);
            assert_eq!(error.message, "Too many concurrent requests");
        }
        other => panic!("expected a refusal, got {other:?}"),
    }
    assert!(matches!(
        connection.receive(&request(None, "echo")),
        Admission::Ignore
    ));
    connection.release();
    assert!(matches!(
        connection.receive(&request(Some(RequestId::Number(2)), "echo")),
        Admission::Start
    ));
}

#[test]
fn cancel_notification_cancels_matching_request() {
    let mut connection = Connection::new(64);
    let slow = RequestId::String("slow".to_owned());
    assert!(matches!(
        connection.receive(&request(Some(slow.clone()), "wait")),
        Admission::Start
    ));
    assert!(matches!(
        connection.receive(&request(None, "$/cancelRequest")),
        Admission::Cancel
    ));
    assert!(connection.can_cancel(&slow));
    let answer = settle_cancelled::<u8>(Some(Err(ErrorObject::internal("torn down"))));
    assert_eq!(answer.unwrap_err().code, ErrorObject::REQUEST_CANCELLED);
}

#[test]
fn a_cancelled_request_may_still_come_to_its_result() {
    assert_eq!(settle_cancelled(Some(Ok(3))), Ok(3));
    assert_eq!(
        settle_cancelled::<u8>(None).unwrap_err().code,
        ErrorObject::REQUEST_CANCELLED
    );
}

#[test]
fn eof_allows_an_admitted_one_shot_request_to_finish() {
    let mut connection = Connection::new(64);
    let id = RequestId::Number(1);
    assert!(matches!(
        connection.receive(&request(Some(id.clone()), "echo")),
        Admission::Start
    ));
    // The input ends while the request runs.
    assert_eq!(shutdown_step(1, false), ShutdownStep::Wait);
    connection.release();
    let result = serde_json::Value::Bool(true);
    match answer_to(Some(id.clone()), Ok(result.clone())) {
        Some(Answer::Success { id: answered, result: given }) => {
            assert_eq!(answered, id);
            assert_eq!(given, result);
        }
        other => panic!("expected a result, got {other:?}"),
    }
    assert_eq!(shutdown_step(0, false), ShutdownStep::Done);
}

#[test]
fn work_that_outlasts_the_grace_period_is_cancelled() {
    assert_eq!(shutdown_step(2, true), ShutdownStep::CancelAll);
    assert_eq!(shutdown_step(0, true), ShutdownStep::Done);
}

#[test]
fn notifications_have_no_answer() {
    assert!(answer_to(None, Ok(serde_json::Value::Null)).is_none());
    assert!(answer_to(None, Err(ErrorObject::cancelled())).is_none());
    match answer_to(Some(RequestId::Null), Err(ErrorObject::cancelled())) {
        Some(Answer::Failure { id, error }) => {
            assert_eq!(id, RequestId::Null);
            assert_eq!(error.code, ErrorObject::REQUEST_CANCELLED);
        }
        other => panic!("expected an error, got {other:?}"),
    }
}

#[test]
fn every_identified_request_gets_exactly_one_response() {
    let mut connection = Connection::new(2);
    let mut responses: Vec<RequestId> = Vec::new();
    let ids = [
        Some(RequestId::Number(7)),
        Some(RequestId::Number(7)),
        None,
        Some(RequestId::String("7".to_owned())),
        Some(RequestId::Null),
    ];
    let mut running: Vec<Option<RequestId>> = Vec::new();
    for id in &ids {
        match connection.receive(&request(id.clone(), "work")) {
            Admission::Reply { id, .. } => responses.push(id),
            Admission::Start => running.push(id.clone()),
            Admission::Ignore | Admission::Cancel => {}
        }
    }
    for id in running {
        connection.release();
        if let Some(answer) = answer_to(id, Ok(serde_json::Value::Null)) {
            let id = match answer {
                Answer::Success { id, .. } => id,
                Answer::Failure { id, .. } => id,
            };
            connection.answered(&id);
            responses.push(id);
        }
    }
    let count = |id: &RequestId| responses.iter().filter(|other| *other == id).count();
    assert_eq!(count(&RequestId::Number(7)), 2);
    assert_eq!(count(&RequestId::String("7".to_owned())), 1);
    assert_eq!(count(&RequestId::Null), 1);
    assert_eq!(responses.len(), 4);
}

#[test]
fn malformed_and_repeated_requests_are_answered_at_once() {
    let mut connection = Connection::new(0);
    let mut old = request(Some(RequestId::Number(4)), "echo");
    old.jsonrpc = "1.0".to_owned();
    match connection.receive(&old) {
        Admission::Reply { id, error } => {
            assert_eq!(id, RequestId::Number(4));
            assert_eq!(error.message, "Expected a JSON-RPC 2.0 request");
        }
        other => panic!("expected a refusal, got {other:?}"),
    }
    match connection.receive(&request(None, "")) {
        Admission::Reply { id, .. } => assert_eq!(id, RequestId::Null),
        other => panic!("expected a refusal, got {other:?}"),
    }
    let mut connection = Connection::new(4);
    let id = RequestId::Number(1);
    connection.receive(&request(Some(id.clone()), "delay"));
    match connection.receive(&request(Some(id.clone()), "delay")) {
        Admission::Reply { error, .. } => {
            assert_eq!(error.code, ErrorObject::INVALID_REQUEST);
            assert_eq!(error.message, "Request ID is already in flight");
        }
        other => panic!("expected a refusal, got {other:?}"),
    }
    // The same digits as a string are another identifier.
    assert!(matches!(
        connection.receive(&request(Some(RequestId::String("1".to_owned())), "delay")),
        Admission::Start
    ));
    connection.answered(&id);
    assert!(matches!(
        connection.receive(&request(Some(id), "delay")),
        Admission::Start
    ));
}
