use std::path::Path;
use std::sync::{Arc, Mutex};

use s3pulse::download::{
    temporary_name, temporary_name_with, Download, DownloadAction, DownloadEvent, IoFailure,
    IoFailureKind, RequestMeter,
};
use s3pulse::error::{StoreError, StoreErrorKind};
use s3pulse::model::{RequestCounts, S3Object};
use s3pulse::store::{
    finish_newest, listed_object, retain_newest, ListPage, ListedEntry, Listing, ListingStep,
    RankedObjects,
};
use s3pulse::time::Timestamp;
use s3pulse::uri::S3Uri;

fn object(key: &str, seconds: i64) -> S3Object {
    S3Object {
        key: key.to_owned(),
        last_modified: Timestamp::new(seconds, 0).unwrap(),
        size: 1,
        etag: None,
        storage_class: None,
    }
}

#[test]
fn paginated_retention_keeps_only_newest_with_deterministic_ties() {
    let mut newest = RankedObjects::new();
    for value in [
        object("z", 20),
        object("old", 10),
        object("a", 20),
        object("new", 30),
    ] {
        retain_newest(&mut newest, value, 2);
        assert!(newest.len() <= 2);
    }
    let keys: Vec<_> = finish_newest(newest)
        .into_iter()
        .map(|value| value.key)
        .collect();
    assert_eq!(keys, ["new", "a"]);
}

#[test]
fn retention_replaces_a_repeated_observation() {
    let mut newest = RankedObjects::new();
    retain_newest(&mut newest, object("a", 20), 5);
    let mut again = object("a", 20);
    again.size = 9;
    retain_newest(&mut newest, again, 5);
    let objects = finish_newest(newest);
    assert_eq!(objects.len(), 1);
    assert_eq!(objects[0].size, 9);
}

#[test]
fn the_meter_counts_list_pages_and_gets_independently() {
    let meter = Arc::new(Mutex::new(RequestMeter::new()));
    assert_eq!(meter.lock().unwrap().counts(), RequestCounts::default());

    // A paginated listing bills per page, not per poll.
    meter.lock().unwrap().count_list();
    meter.lock().unwrap().count_list();
    meter.lock().unwrap().count_get();
    assert_eq!(
        meter.lock().unwrap().counts(),
        RequestCounts {
            list_requests: 2,
            get_requests: 1,
        }
    );

    // Clones share the underlying counters, so a cloned store keeps
    // reporting the same totals as the first one.
    let clone = Arc::clone(&meter);
    clone.lock().unwrap().count_list();
    assert_eq!(meter.lock().unwrap().counts().list_requests, 3);
}

#[test]
fn temporary_download_stays_next_to_destination() {
    let destination = Path::new("/tmp/feed/object.parquet");
    let name = temporary_name(destination.file_name().and_then(|name| name.to_str()));
    let temporary = destination.with_file_name(name);
    assert_eq!(temporary.parent(), destination.parent());
    assert!(temporary
        .file_name()
        .unwrap()
        .to_string_lossy()
        .starts_with(".object.parquet.s3pulse-"));
}

#[test]
fn temporary_names_are_random_and_complete() {
    assert_eq!(temporary_name_with(Some("x"), "1"), ".x.s3pulse-1.part");
    assert_eq!(temporary_name_with(None, "1"), ".download.s3pulse-1.part");
    let name = temporary_name(None);
    let id = name
        .strip_prefix(".download.s3pulse-")
        .and_then(|rest| rest.strip_suffix(".part"))
        .unwrap();
    let parsed = uuid::Uuid::parse_str(id).unwrap();
    assert_eq!(parsed.get_version_num(), 4);
    assert_eq!(parsed.to_string(), id);
    assert_ne!(temporary_name(None), name);
}

fn entry(key: &str, seconds: i64) -> ListedEntry {
    ListedEntry {
        key: Some(key.to_owned()),
        last_modified: Some((seconds, 0)),
        size: Some(4),
        etag: Some("etag".to_owned()),
        storage_class: None,
    }
}

#[test]
fn listed_entries_become_objects() {
    let listed = listed_object(entry("a", 5)).unwrap();
    assert_eq!(listed.key, "a");
    assert_eq!(listed.last_modified, Timestamp::new(5, 0).unwrap());
    assert_eq!(listed.size, 4);
    assert_eq!(listed.etag.as_deref(), Some("etag"));
    assert_eq!(listed.storage_class, None);
    let unsized_entry = ListedEntry {
        size: None,
        ..entry("a", 5)
    };
    assert_eq!(listed_object(unsized_entry).unwrap().size, 0);
}

#[test]
fn broken_entries_are_refused_with_a_reason() {
    let refused = |broken: ListedEntry| -> (String, bool) {
        let error = listed_object(broken).unwrap_err();
        assert_eq!(error.kind, StoreErrorKind::InvalidResponse);
        (error.message, error.retryable)
    };
    assert_eq!(
        refused(ListedEntry {
            key: None,
            ..entry("a", 5)
        }),
        (
            "ListObjectsV2 returned an object without a key".to_owned(),
            true
        )
    );
    assert_eq!(
        refused(ListedEntry {
            last_modified: None,
            ..entry("a", 5)
        }),
        (
            "ListObjectsV2 returned a without LastModified".to_owned(),
            true
        )
    );
    assert_eq!(
        refused(entry("a", i64::MAX)),
        ("invalid LastModified for a".to_owned(), false)
    );
    assert_eq!(
        refused(ListedEntry {
            size: Some(-1),
            ..entry("a", 5)
        }),
        (
            "ListObjectsV2 returned a negative size for a".to_owned(),
            false
        )
    );
}

#[test]
fn listings_read_every_page_and_keep_the_newest() {
    let mut listing = Listing::new(3).unwrap();
    let step = listing
        .accept_page(ListPage {
            entries: vec![entry("a", 1), entry("b", 9), entry("c", 3)],
            is_truncated: Some(true),
            next_continuation_token: Some("more".to_owned()),
        })
        .unwrap();
    assert_eq!(step, ListingStep::Continue("more".to_owned()));
    let step = listing
        .accept_page(ListPage {
            entries: vec![entry("d", 9), entry("e", 2)],
            is_truncated: None,
            next_continuation_token: None,
        })
        .unwrap();
    assert_eq!(step, ListingStep::Done);
    let keys: Vec<String> = listing.finish().into_iter().map(|o| o.key).collect();
    assert_eq!(keys, ["b", "d", "c"]);
}

#[test]
fn every_page_is_counted_once_even_if_it_fails() {
    let mut meter = RequestMeter::new();
    let mut listing = Listing::begin(3, &mut meter).unwrap();
    assert_eq!(meter.counts().list_requests, 1);
    let more = ListPage {
        entries: vec![entry("a", 1)],
        is_truncated: Some(true),
        next_continuation_token: Some("more".to_owned()),
    };
    let step = listing.page_arrived(Ok(more), &mut meter).unwrap();
    assert_eq!(step, ListingStep::Continue("more".to_owned()));
    assert_eq!(meter.counts().list_requests, 2);
    let failure = StoreError::new(StoreErrorKind::Network, "down".to_owned(), true);
    let error = listing
        .page_arrived(Err(failure.clone()), &mut meter)
        .unwrap_err();
    assert_eq!(error, failure);
    assert_eq!(meter.counts().list_requests, 2);
    let last = ListPage {
        entries: vec![entry("b", 2)],
        is_truncated: Some(false),
        next_continuation_token: None,
    };
    assert_eq!(
        listing.page_arrived(Ok(last), &mut meter),
        Ok(ListingStep::Done)
    );
    assert_eq!(meter.counts().list_requests, 2);
    assert_eq!(meter.counts().get_requests, 0);
    assert_eq!(listing.finish().len(), 2);
    assert!(Listing::begin(0, &mut meter).is_err());
    assert_eq!(meter.counts().list_requests, 2);
}

#[test]
fn listings_refuse_no_limit_and_lost_pages() {
    let error = Listing::new(0).unwrap_err();
    assert_eq!(error.kind, StoreErrorKind::Other);
    assert_eq!(
        error.message,
        "object listing limit must be greater than zero"
    );
    let mut listing = Listing::new(1).unwrap();
    let error = listing
        .accept_page(ListPage {
            entries: vec![],
            is_truncated: Some(true),
            next_continuation_token: None,
        })
        .unwrap_err();
    assert_eq!(error.kind, StoreErrorKind::InvalidResponse);
    assert_eq!(
        error.message,
        "ListObjectsV2 was truncated but returned no continuation token"
    );
    assert!(error.retryable);
}

#[test]
fn entries_ahead_of_a_fault_are_taken_in() {
    let mut listing = Listing::new(3).unwrap();
    let mut nameless = entry("", 2);
    nameless.key = None;
    let page = ListPage {
        entries: vec![entry("a", 1), nameless, entry("c", 3)],
        is_truncated: Some(false),
        next_continuation_token: None,
    };
    let error = listing.accept_page(page).unwrap_err();
    assert_eq!(error.kind, StoreErrorKind::InvalidResponse);
    let kept = listing.finish();
    assert_eq!(kept.len(), 1);
    assert_eq!(kept[0].key, "a");
}

fn source() -> S3Uri {
    S3Uri::parse("s3://bucket/feed/object").unwrap()
}

fn failure(kind: IoFailureKind, detail: &str) -> DownloadEvent {
    DownloadEvent::Failed(IoFailure {
        kind,
        detail: detail.to_owned(),
    })
}

fn error_of(action: DownloadAction) -> StoreError {
    match action {
        DownloadAction::Fail(error) => error,
        other => panic!("expected a failure, got {other:?}"),
    }
}

fn streamed(overwrite: bool, declared: Option<i64>) -> (Download, DownloadAction) {
    let (mut download, mut action) = Download::start(&source(), overwrite, "out".to_owned());
    if !overwrite {
        assert_eq!(action, DownloadAction::Inspect);
        action = download
            .advance(failure(IoFailureKind::NotFound, "missing"))
            .0;
    }
    assert_eq!(action, DownloadAction::Request);
    let action = download.request(false, &mut RequestMeter::new());
    assert_eq!(action, DownloadAction::Send);
    let (action, _) = download.advance(DownloadEvent::Responded {
        content_length: declared,
        etag: Some("e".to_owned()),
    });
    assert_eq!(action, DownloadAction::Create);
    assert_eq!(
        download.advance(DownloadEvent::Succeeded).0,
        DownloadAction::Read
    );
    assert_eq!(
        download.advance(DownloadEvent::Received(6)).0,
        DownloadAction::Write
    );
    let (action, progress) = download.advance(DownloadEvent::Succeeded);
    assert_eq!(action, DownloadAction::Read);
    let progress = progress.unwrap();
    assert_eq!(progress.bytes_transferred, 6);
    assert!(!progress.done);
    assert_eq!(
        download.advance(DownloadEvent::Received(0)).0,
        DownloadAction::Flush
    );
    assert_eq!(
        download.advance(DownloadEvent::Succeeded).0,
        DownloadAction::Sync
    );
    let (action, _) = download.advance(DownloadEvent::Succeeded);
    (download, action)
}

#[test]
fn a_new_file_is_linked_into_place() {
    let (mut download, action) = streamed(false, Some(6));
    assert_eq!(action, DownloadAction::Link);
    assert_eq!(
        download.advance(DownloadEvent::Succeeded).0,
        DownloadAction::RemoveTemporary
    );
    let (action, progress) = download.advance(DownloadEvent::Succeeded);
    assert_eq!(
        action,
        DownloadAction::Finish {
            bytes_transferred: 6,
            etag: Some("e".to_owned())
        }
    );
    let progress = progress.unwrap();
    assert_eq!(progress.total_bytes, Some(6));
    assert!(progress.done);
    assert_eq!(
        download.advance(DownloadEvent::Succeeded).0,
        DownloadAction::Rest
    );
}

#[test]
fn a_linked_install_never_replaces_a_file() {
    let (mut download, action) = streamed(false, None);
    assert_eq!(action, DownloadAction::Link);
    let error = error_of(
        download
            .advance(failure(IoFailureKind::AlreadyExists, "File exists"))
            .0,
    );
    assert_eq!(error.kind, StoreErrorKind::AlreadyExists);
    assert_eq!(error.message, "install completed download: File exists");
}

#[test]
fn an_existing_destination_stops_a_download_at_once() {
    let (mut download, action) = Download::start(&source(), false, "out".to_owned());
    assert_eq!(action, DownloadAction::Inspect);
    let error = error_of(download.advance(DownloadEvent::Succeeded).0);
    assert_eq!(error.kind, StoreErrorKind::AlreadyExists);
    assert_eq!(error.message, "destination already exists: out");
}

#[test]
fn an_overwriting_download_renames_and_falls_back_to_removal() {
    let (mut download, action) = streamed(true, Some(6));
    assert_eq!(action, DownloadAction::Rename);
    assert_eq!(
        download
            .advance(failure(IoFailureKind::PermissionDenied, "denied"))
            .0,
        DownloadAction::Inspect
    );
    assert_eq!(
        download.advance(DownloadEvent::Succeeded).0,
        DownloadAction::RemoveExisting
    );
    assert_eq!(
        download.advance(DownloadEvent::Succeeded).0,
        DownloadAction::Rename
    );
    assert!(matches!(
        download.advance(DownloadEvent::Succeeded).0,
        DownloadAction::Finish {
            bytes_transferred: 6,
            ..
        }
    ));
}

#[test]
fn a_rename_that_nothing_obstructs_reports_its_own_failure() {
    let (mut download, _) = streamed(true, Some(6));
    download.advance(failure(IoFailureKind::PermissionDenied, "denied"));
    let error = error_of(
        download
            .advance(failure(IoFailureKind::NotFound, "missing"))
            .0,
    );
    assert_eq!(error.kind, StoreErrorKind::Io);
    assert_eq!(error.message, "install completed download: denied");

    let (mut download, _) = streamed(true, Some(6));
    let error = error_of(download.advance(failure(IoFailureKind::Other, "full")).0);
    assert_eq!(error.message, "install completed download: full");
}

#[test]
fn a_short_response_is_an_error_worth_retrying() {
    let error = error_of(streamed(false, Some(7)).1);
    assert_eq!(error.kind, StoreErrorKind::InvalidResponse);
    assert_eq!(error.message, "GetObject returned 6 bytes but declared 7");
    assert!(error.retryable);
    // A negative length declares nothing.
    assert_eq!(streamed(false, Some(-1)).1, DownloadAction::Link);
}

#[test]
fn transfers_can_be_cancelled_or_refused() {
    let (mut download, _) = Download::start(&source(), true, "out".to_owned());
    let error = error_of(download.advance(DownloadEvent::Cancelled).0);
    assert_eq!(error, StoreError::cancelled());

    let (mut download, _) = Download::start(&source(), true, "out".to_owned());
    download.request(false, &mut RequestMeter::new());
    let refusal = StoreError::new(StoreErrorKind::NotFound, "gone".to_owned(), false);
    let error = error_of(download.advance(DownloadEvent::Refused(refusal.clone())).0);
    assert_eq!(error, refusal);

    let root = S3Uri::parse("s3://bucket").unwrap();
    let error = error_of(Download::start(&root, true, "out".to_owned()).1);
    assert_eq!(error.kind, StoreErrorKind::NotFound);
    assert_eq!(error.message, "download requires a full S3 object URI");
}

#[test]
fn a_fetch_is_counted_once_before_it_is_sent() {
    let mut meter = RequestMeter::new();
    let (mut download, action) = Download::start(&source(), true, "out".to_owned());
    assert_eq!(action, DownloadAction::Request);
    assert_eq!(meter.counts().get_requests, 0);
    // Without leave there is no response to take in.
    let early = DownloadEvent::Responded {
        content_length: None,
        etag: None,
    };
    assert_eq!(download.advance(early).0, DownloadAction::Request);
    assert_eq!(download.request(false, &mut meter), DownloadAction::Send);
    assert_eq!(meter.counts().get_requests, 1);
    assert_eq!(meter.counts().list_requests, 0);
    // Asking again counts nothing more, nor does a cancellation take it back.
    assert_eq!(download.request(false, &mut meter), DownloadAction::Send);
    let error = error_of(download.advance(DownloadEvent::Cancelled).0);
    assert_eq!(error, StoreError::cancelled());
    assert_eq!(download.request(false, &mut meter), DownloadAction::Rest);
    assert_eq!(meter.counts().get_requests, 1);
}

#[test]
fn a_download_cancelled_before_its_request_counts_nothing() {
    let mut meter = RequestMeter::new();
    let (mut download, _) = Download::start(&source(), true, "out".to_owned());
    let error = error_of(download.request(true, &mut meter));
    assert_eq!(error, StoreError::cancelled());
    assert_eq!(meter.counts().get_requests, 0);
    // A destination that is still being inspected asks for no request.
    let (mut download, _) = Download::start(&source(), false, "out".to_owned());
    assert_eq!(download.request(false, &mut meter), DownloadAction::Inspect);
    assert_eq!(meter.counts().get_requests, 0);
}

#[test]
fn each_failed_step_is_named() {
    let (mut download, _) = Download::start(&source(), false, "out".to_owned());
    let error = error_of(download.advance(failure(IoFailureKind::Other, "x")).0);
    assert_eq!(error.message, "inspect download destination: x");

    let begin = || {
        let (mut download, _) = Download::start(&source(), true, "out".to_owned());
        download.request(false, &mut RequestMeter::new());
        download.advance(DownloadEvent::Responded {
            content_length: None,
            etag: None,
        });
        download
    };
    let fail = |mut download: Download| {
        error_of(download.advance(failure(IoFailureKind::Other, "x")).0).message
    };
    let mut download = begin();
    assert_eq!(fail(begin()), "create temporary download: x");
    download.advance(DownloadEvent::Succeeded);
    assert_eq!(fail(download), "read S3 response: x");
    let mut download = begin();
    download.advance(DownloadEvent::Succeeded);
    download.advance(DownloadEvent::Received(1));
    assert_eq!(fail(download), "write download: x");
    let mut download = begin();
    download.advance(DownloadEvent::Succeeded);
    download.advance(DownloadEvent::Received(0));
    assert_eq!(fail(download), "flush download: x");
    let mut download = begin();
    download.advance(DownloadEvent::Succeeded);
    download.advance(DownloadEvent::Received(0));
    download.advance(DownloadEvent::Succeeded);
    assert_eq!(fail(download), "sync download: x");
    let (mut download, _) = streamed(false, None);
    download.advance(DownloadEvent::Succeeded);
    assert_eq!(fail(download), "remove temporary download: x");
    let (mut download, _) = streamed(true, None);
    download.advance(failure(IoFailureKind::AlreadyExists, "y"));
    download.advance(DownloadEvent::Succeeded);
    assert_eq!(fail(download), "replace existing download: x");
}
