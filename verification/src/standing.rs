//! What is told of watchers, downloads, instants and dates.

use vstd::prelude::*;

use crate::error::{StoreError, UriParseError};
use crate::history::OldestFirst;
use crate::model;
use crate::model::{DownloadProgress, ObjectView, S3Object};
use crate::protocol::{DataView, ErrorObject};
use crate::runtime;
use crate::runtime::{CoreRuntime, DownloadNotice, SessionView};
use crate::service::{
    DownloadResult, ObjectDownloadParams, StatisticsHistoryResult, StatisticsResult,
    WatchStatusResult,
};
use crate::sorting;
use crate::sorting::Order;
use crate::text;
use crate::time;
use crate::time::{Civil, Timestamp};
use crate::uri;
use crate::uri::S3Uri;
use crate::wording;

verus! {

/// The status of a watcher shows what is known of it; of one that is not there
/// the error says so. Without an identifier all watchers are shown, by
/// identifier.
pub proof fn statuses_show_what_is_known<F>(
    backend: CoreRuntime<F>,
    id: Option<String>,
    result: Result<WatchStatusResult, ErrorObject>,
    i: int,
)
    requires
        call_ensures(CoreRuntime::<F>::watch_status, (&backend, id), result),
    ensures
        result is Err <==> id is Some && !backend@.contains_key((id->0)@),
        result matches Err(error) ==> error@.code == -32001 && error@.message
            == "Watcher not found: "@ + (id->0)@,
        result matches Ok(status) ==> {
            let shown = status.watchers@;
            &&& id is Some ==> shown.len() == 1 && shown[0].watcher_id@ == (id->0)@
            &&& id is None ==> shown.len() == backend@.dom().len()
            &&& 0 <= i < shown.len() ==> {
                let session = backend@[shown[i].watcher_id@];
                &&& backend@.contains_key(shown[i].watcher_id@)
                &&& shown[i].name@ == session.name
                &&& shown[i].target@ == uri::uri_text(session.target)
                &&& shown[i].status == session.state
                &&& shown[i].request_counts == session.request_counts
                &&& text::optional_view(shown[i].error) == session.error
                &&& session.last_poll_at matches Some(at) ==> shown[i].last_poll_at is Some && (
                shown[i].last_poll_at->0)@ == time::rfc3339_text(at) + "+00:00"@
                &&& session.last_poll_at is None ==> shown[i].last_poll_at is None
                &&& session.snapshot matches Some(snapshot) ==> {
                    &&& shown[i].object_count == snapshot.objects.len()
                    &&& shown[i].health is Some
                    &&& (shown[i].health->0)@ == snapshot.statistics.health
                }
                &&& session.snapshot is None ==> shown[i].object_count == 0
                    && shown[i].health is None
            }
        },
{
}

/// Whether an instant lies on the time line.
pub open spec fn known_instant(at: int) -> bool {
    -8_334_601_228_800_000_000_000 <= at < 8_210_266_876_800_000_000_000
}

/// The objects of a watcher's last snapshot.
pub open spec fn last_seen(session: SessionView) -> Seq<ObjectView> {
    match session.snapshot {
        Some(snapshot) => snapshot.objects,
        None => Seq::empty(),
    }
}

/// A history shows arrivals of the watcher's last snapshot, oldest first: the
/// last ones, as many as asked for. Each but the first states the whole
/// milliseconds since the one before.
pub proof fn histories_show_the_last_arrivals<F>(
    backend: CoreRuntime<F>,
    id: String,
    limit: Option<usize>,
    answer: StatisticsHistoryResult,
    i: int,
    left_out: ObjectView,
)
    requires
        call_ensures(
            CoreRuntime::<F>::statistics_history,
            (&backend, id, limit),
            Ok::<StatisticsHistoryResult, ErrorObject>(answer),
        ),
    ensures
        answer.watcher_id@ == id@,
        backend@.contains_key(id@),
        ({
            let samples = answer.samples@;
            let objects = last_seen(backend@[id@]);
            &&& samples.len() == if limit is Some && limit->0 < objects.len() {
                limit->0 as nat
            } else {
                objects.len()
            }
            &&& 0 <= i < samples.len() ==> exists|object: ObjectView| #[trigger]
                objects.contains(object) && object.key == samples[i].key@ && object.at
                    == samples[i].last_modified@
            &&& samples.len() > 0 ==> samples[0].interval_seconds is None
            &&& 0 < i < samples.len() ==> {
                let (earlier, later) = (
                    samples[i - 1].last_modified@,
                    samples[i].last_modified@,
                );
                &&& earlier <= later
                &&& samples[i].interval_seconds is Some
                &&& known_instant(earlier) && known_instant(later) ==> {
                    let interval = samples[i].interval_seconds->0;
                    &&& interval.denominator == 1_000
                    &&& 1_000_000 * interval.numerator <= later - earlier < 1_000_000 * (
                    interval.numerator + 1)
                }
            }
            &&& 0 <= i < samples.len() && objects.contains(left_out) && (forall|k: int|
                0 <= k < samples.len() ==> (#[trigger] samples[k]).key@ != left_out.key)
                ==> left_out.at <= samples[i].last_modified@
        }),
{
    let shown = last_seen(backend@[id@]);
    let samples = answer.samples@;
    let objects = choose|objects: Seq<S3Object>|
        {
            &&& model::objects_view(objects) == shown
            &&& runtime::samples_show(
                samples,
                runtime::last_of(
                    #[trigger] sorting::sorted::<S3Object, OldestFirst>(objects),
                    limit,
                ),
            )
        };
    let sorted = sorting::sorted::<S3Object, OldestFirst>(objects);
    let last = runtime::last_of(sorted, limit);
    let skipped = sorted.len() - last.len();
    sorting::sorted_is_in_order::<S3Object, OldestFirst>(objects);
    assert(shown.len() == objects.len());
    assert forall|k: int| 0 <= k < last.len() implies #[trigger] last[k] == sorted[k + skipped] by {
    }
    if 0 <= i < samples.len() {
        assert(sorted.contains(sorted[i + skipped]));
        let k = choose|k: int| 0 <= k < objects.len() && objects[k] == last[i];
        assert(shown[k] == objects[k]@);
        assert(shown.contains(objects[k]@));
        if i > 0 {
            assert(!OldestFirst::before(sorted[i + skipped], sorted[i - 1 + skipped]));
            assert(last[i - 1] == sorted[i - 1 + skipped]);
            assert(samples[i - 1].last_modified@ == last[i - 1].last_modified@);
            wording::elapsed_time_is_whole_milliseconds(
                last[i - 1].last_modified@,
                last[i].last_modified@,
            );
        }
        if shown.contains(left_out) && (forall|k: int|
            0 <= k < samples.len() ==> (#[trigger] samples[k]).key@ != left_out.key) {
            let m = choose|m: int| 0 <= m < shown.len() && shown[m] == left_out;
            assert(objects[m]@ == left_out);
            assert(sorted.contains(objects[m]));
            let n = choose|n: int| 0 <= n < sorted.len() && sorted[n] == objects[m];
            if n >= skipped {
                assert(last[n - skipped] == objects[m]);
                assert(samples[n - skipped].key@ == left_out.key);
            }
            assert(!OldestFirst::before(sorted[i + skipped], sorted[n]));
        }
    }
}

/// The frequency of a watcher is that of its last snapshot, with the requests
/// made so far; none is told before the first.
pub proof fn frequencies_are_of_the_last_snapshot<F>(
    backend: CoreRuntime<F>,
    id: String,
    result: Result<StatisticsResult, ErrorObject>,
)
    requires
        call_ensures(CoreRuntime::<F>::statistics_frequency, (&backend, id), result),
    ensures
        result is Ok <==> backend@.contains_key(id@),
        result matches Ok(answer) ==> {
            let session = backend@[id@];
            &&& answer.watcher_id@ == id@
            &&& answer.request_counts == session.request_counts
            &&& answer.statistics is Some <==> session.snapshot is Some
            &&& session.snapshot matches Some(snapshot) ==> (answer.statistics->0)@
                == snapshot.statistics
        },
        result matches Err(error) ==> error@.code == -32001 && error@.message
            == "Watcher not found: "@ + id@,
{
}

/// The progress of a download is told as it was measured, and never as its end.
pub proof fn progress_is_told_as_measured(
    params: &ObjectDownloadParams,
    id: &str,
    progress: &DownloadProgress,
    notice: DownloadNotice,
)
    requires
        call_ensures(runtime::augment_progress, (params, id, progress), notice),
    ensures
        notice.watcher_id@ == params.watcher_id@,
        notice.download_id@ == id@,
        notice.key@ == params.key@,
        notice.bytes_transferred == progress.bytes_transferred,
        notice.total_bytes == progress.total_bytes,
        notice.percent == progress.percent,
        !notice.done,
        notice.error is None,
{
    let told = runtime::notice_view(notice);
    assert(told.error is None);
}

/// The end of a download is told once with what came of it, and answered alike:
/// with all bytes if it succeeded, else with the bytes told last and the failure.
pub proof fn ends_are_told_and_answered(
    params: ObjectDownloadParams,
    id: String,
    transferred: u64,
    outcome: Result<u64, StoreError>,
    end: (DownloadNotice, Result<DownloadResult, ErrorObject>),
)
    requires
        call_ensures(runtime::finish_download, (params, id, transferred, outcome), end),
    ensures
        end.0.watcher_id@ == params.watcher_id@,
        end.0.download_id@ == id@,
        end.0.key@ == params.key@,
        end.0.done,
        end.0.total_bytes is None,
        end.0.percent is None,
        outcome matches Ok(bytes) ==> {
            &&& end.0.bytes_transferred == bytes
            &&& end.0.error is None
            &&& end.1 is Ok
            &&& (end.1->Ok_0).watcher_id@ == params.watcher_id@
            &&& (end.1->Ok_0).download_id@ == id@
            &&& (end.1->Ok_0).destination@ == params.destination@
            &&& (end.1->Ok_0).bytes == bytes
        },
        outcome matches Err(error) ==> {
            &&& end.0.bytes_transferred == transferred
            &&& end.0.error is Some
            &&& (end.0.error->0)@ == error@
            &&& end.1 is Err
            &&& (end.1->Err_0)@.code == -32010
            &&& (end.1->Err_0)@.message == error@.message
            &&& (end.1->Err_0)@.data == Some(
                DataView::Store {
                    kind: error@.kind,
                    message: error@.message,
                    retryable: error@.retryable,
                },
            )
        },
{
    let told = runtime::notice_view(end.0);
    assert(told.error is Some <==> end.0.error is Some);
}

/// An instant is made of whole seconds and up to a thousand million nanoseconds,
/// comes apart into them again, and is ordered as they are.
pub proof fn instants_count_nanoseconds(
    seconds: i64,
    nanos: u32,
    at: Timestamp,
    other: Timestamp,
    whole: i64,
    part: u32,
    before: bool,
    same: bool,
)
    requires
        call_ensures(Timestamp::new, (seconds, nanos), Some(at)),
        call_ensures(Timestamp::seconds, (&at,), whole),
        call_ensures(Timestamp::subsecond_nanos, (&at,), part),
        call_ensures(Timestamp::is_before, (&at, &other), before),
        call_ensures(Timestamp::is_same, (&at, &other), same),
    ensures
        at@ == seconds * 1_000_000_000 + nanos,
        nanos < 1_000_000_000,
        known_instant(at@),
        whole == seconds,
        part == nanos,
        before <==> at@ < other@,
        same <==> at@ == other@,
{
}

/// An instant moves by as much as it is told to: milliseconds ahead, seconds
/// back or either way.
pub proof fn instants_move_as_told(
    at: Timestamp,
    millis: u64,
    back: u64,
    ahead: i32,
    later: Option<Timestamp>,
    earlier: Timestamp,
    moved: Timestamp,
)
    ensures
        call_ensures(Timestamp::plus_millis, (&at, millis), later) ==> {
            &&& later matches Some(then) ==> then@ - at@ == 1_000_000 * millis
            &&& later is None ==> !known_instant(at@ + 1_000_000 * millis)
        },
        call_ensures(Timestamp::minus_seconds, (&at, back), earlier) ==> at@ - earlier@
            == 1_000_000_000 * back,
        call_ensures(Timestamp::shifted, (&at, ahead), moved) ==> moved@ - at@ == 1_000_000_000
            * ahead,
{
}

/// The calendar is the Gregorian one: every fourth year is a leap year, but of the
/// centuries only every fourth. Days follow each other through months and years,
/// and 1 January 1970 is day zero.
pub proof fn the_calendar_is_gregorian(year: int, month: int, day: int)
    requires
        1 <= month <= 12,
    ensures
        time::day_number(1970, 1, 1) == 0,
        time::day_number(year, month, day + 1) == time::day_number(year, month, day) + 1,
        month < 12 ==> time::day_number(year, month + 1, 1) == time::day_number(
            year,
            month,
            time::month_length(year, month),
        ) + 1,
        time::day_number(year + 1, 1, 1) == time::day_number(year, 12, 31) + 1,
        time::day_number(year + 400, month, day) == time::day_number(year, month, day) + 146_097,
        month == 1 || month == 3 || month == 5 || month == 7 || month == 8 || month == 10 || month
            == 12 ==> time::month_length(year, month) == 31,
        month == 4 || month == 6 || month == 9 || month == 11 ==> time::month_length(year, month)
            == 30,
        year % 4 != 0 ==> time::month_length(year, 2) == 28,
        year % 4 == 0 && year % 100 != 0 ==> time::month_length(year, 2) == 29,
        year % 100 == 0 && year % 400 != 0 ==> time::month_length(year, 2) == 28,
        year % 400 == 0 ==> time::month_length(year, 2) == 29,
{
    reveal_with_fuel(time::days_before_month, 13);
    let (q, c, f) = ((year - 1) / 4, (year - 1) / 100, (year - 1) / 400);
    assert((year + 399) / 4 == q + 100);
    assert((year + 399) / 100 == c + 4);
    assert((year + 399) / 400 == f + 1);
    assert((year + 400) % 4 == year % 4);
    assert((year + 400) % 100 == year % 100);
    assert((year + 400) % 400 == year % 400);
    assert(time::leap_year(year + 400) == time::leap_year(year));
    assert(year / 4 == if year % 4 == 0 {
        q + 1
    } else {
        q
    });
    assert(year / 100 == if year % 100 == 0 {
        c + 1
    } else {
        c
    });
    assert(year / 400 == if year % 400 == 0 {
        f + 1
    } else {
        f
    });
}

/// Seconds make minutes, minutes hours, and hours days.
pub proof fn clocks_carry(civil: Civil)
    requires
        civil.valid(),
    ensures
        civil.hour <= 23,
        civil.minute <= 59,
        civil.second <= 59,
        civil.second_number() == ((time::day_number(
            civil.year as int,
            civil.month as int,
            civil.day as int,
        ) * 24 + civil.hour) * 60 + civil.minute) * 60 + civil.second,
{
}

/// A date that the calendar has becomes the instant at its start, which reads as
/// that date again; one that it lacks becomes none.
pub proof fn dates_read_back(civil: Civil, at: Timestamp, read: Civil)
    requires
        call_ensures(Timestamp::from_civil, (civil,), Some(at)),
        call_ensures(Timestamp::civil, (&at,), read),
    ensures
        civil.valid(),
        at@ == civil.second_number() * 1_000_000_000,
        read == civil,
{
    assert(at@ / 1_000_000_000 == civil.second_number());
    time::calendar_reading_is_unique(read, civil);
}

/// A URI that is written reads back as what it was.
pub proof fn uris_read_back(uri: S3Uri, written: String, read: &str, result: S3Uri)
    requires
        uri::uri_fault(uri@.bucket, uri@.prefix) is None,
        call_ensures(S3Uri::to_text, (&uri,), written),
        read@ == written@,
        call_ensures(S3Uri::parse, (read,), Ok::<S3Uri, UriParseError>(result)),
    ensures
        result@.bucket == uri@.bucket,
        result@.prefix == uri@.prefix,
{
    uri::written_uri_reads_back(uri@);
}

/// A URI names an object unless it names the whole bucket; another object of the
/// bucket is named by its full key.
pub proof fn uris_name_objects(
    uri: S3Uri,
    key: String,
    root: bool,
    named: Option<&str>,
    other: S3Uri,
)
    requires
        call_ensures(S3Uri::is_bucket_root, (&uri,), root),
        call_ensures(S3Uri::object_key, (&uri,), named),
        call_ensures(
            S3Uri::for_object,
            (&uri, key),
            Ok::<S3Uri, UriParseError>(other),
        ),
    ensures
        root <==> uri.prefix@.len() == 0,
        named is None <==> uri.prefix@.len() == 0,
        named matches Some(text) ==> text@ == uri.prefix@,
        other@.bucket == uri.bucket@,
        other@.prefix == key@,
{
}

} // verus!
