//! What downloads promise over their whole course.

use vstd::prelude::*;

use crate::digits;
use crate::download;
use crate::download::{
    advanced, after_steps, begun, requested, ActionView, DownloadStage, DownloadStep, DownloadView,
    EventView, FailureView, IoFailureKind,
};
use crate::error::{StoreErrorKind, StoreErrorView};
use crate::model;
use crate::model::{DownloadProgress, RequestCounts};

verus! {

/// The bytes that were received last, of those that a download took in.
pub open spec fn received_last(
    start: DownloadView,
    counts: RequestCounts,
    steps: Seq<DownloadStep>,
) -> nat
    decreases steps.len(),
{
    if steps.len() == 0 {
        0
    } else {
        let front = steps.drop_last();
        match steps.last() {
            DownloadStep::CameOf(EventView::Received(bytes)) => if bytes > 0 && after_steps(
                start,
                counts,
                front,
            ).0.stage == DownloadStage::Reading {
                bytes as nat
            } else {
                received_last(start, counts, front)
            },
            _ => received_last(start, counts, front),
        }
    }
}

/// The sum of the bytes received whose writing succeeded.
pub open spec fn bytes_written(
    start: DownloadView,
    counts: RequestCounts,
    steps: Seq<DownloadStep>,
) -> nat
    decreases steps.len(),
{
    if steps.len() == 0 {
        0
    } else {
        let front = steps.drop_last();
        let earlier = bytes_written(start, counts, front);
        if steps.last() == DownloadStep::CameOf(EventView::Succeeded) && after_steps(
            start,
            counts,
            front,
        ).0.stage == DownloadStage::Writing {
            earlier + received_last(start, counts, front)
        } else {
            earlier
        }
    }
}

/// Over any course, the bytes that a download counts are those received whose
/// writing succeeded, all of them together, up to the greatest number there is.
pub proof fn bytes_are_those_written(
    prefix: Seq<char>,
    overwrite: bool,
    destination: Seq<char>,
    counts: RequestCounts,
    steps: Seq<DownloadStep>,
)
    ensures
        ({
            let start = begun(prefix, overwrite, destination).0;
            let download = after_steps(start, counts, steps).0;
            let sum = bytes_written(start, counts, steps);
            &&& download.bytes == if sum > u64::MAX {
                u64::MAX as nat
            } else {
                sum
            }
            &&& download.stage == DownloadStage::Writing ==> download.pending == received_last(
                start,
                counts,
                steps,
            )
            &&& download.overwrite == overwrite
            &&& download.destination == destination
        }),
    decreases steps.len(),
{
    if steps.len() > 0 {
        bytes_are_those_written(prefix, overwrite, destination, counts, steps.drop_last());
    }
}

/// The sum of numbers.
pub open spec fn sum_of(values: Seq<u64>) -> int {
    values.fold_left(0, |sum: int, value: u64| sum + value)
}

/// A download after some chunks of the response have been received and written.
pub open spec fn fed(download: DownloadView, chunks: Seq<u64>) -> DownloadView
    decreases chunks.len(),
{
    if chunks.len() == 0 {
        download
    } else {
        let earlier = fed(download, chunks.drop_last());
        let holding = advanced(earlier, EventView::Received(chunks.last())).0;
        advanced(holding, EventView::Succeeded).0
    }
}

proof fn feeding_adds_up(start: DownloadView, chunks: Seq<u64>)
    requires
        start.stage == DownloadStage::Reading,
        start.bytes == 0,
        start.pending == 0,
        forall|i: int| 0 <= i < chunks.len() ==> #[trigger] chunks[i] > 0,
        sum_of(chunks) <= u64::MAX,
    ensures
        fed(start, chunks) == (DownloadView { bytes: sum_of(chunks) as u64, ..start }),
        sum_of(chunks) >= 0,
    decreases chunks.len(),
{
    if chunks.len() > 0 {
        let front = chunks.drop_last();
        assert(chunks.last() == chunks[chunks.len() - 1]);
        assert forall|i: int| 0 <= i < front.len() implies #[trigger] front[i] > 0 by {
            assert(front[i] == chunks[i]);
        }
        assert(sum_of(chunks) == sum_of(front) + chunks.last());
        feeding_adds_up(start, front);
    }
}

/// A download before its request has been sent: the destination has been looked
/// at and is not there, unless it may be overwritten.
pub open spec fn ready(prefix: Seq<char>, overwrite: bool, destination: Seq<char>) -> DownloadView {
    let start = begun(prefix, overwrite, destination).0;
    if overwrite {
        start
    } else {
        advanced(
            start,
            EventView::Failed(FailureView { kind: IoFailureKind::NotFound, detail: Seq::empty() }),
        ).0
    }
}

/// A download whose response has begun.
pub open spec fn responding(
    prefix: Seq<char>,
    overwrite: bool,
    destination: Seq<char>,
    counts: RequestCounts,
    declared: Option<i64>,
    etag: Option<Seq<char>>,
) -> DownloadView {
    let sent = requested(ready(prefix, overwrite, destination), false, counts).0;
    let answered = advanced(sent, EventView::Responded { content_length: declared, etag }).0;
    advanced(answered, EventView::Succeeded).0
}

/// A download whose whole response has been received, written and synced.
pub open spec fn synced(download: DownloadView, chunks: Seq<u64>) -> (
    DownloadView,
    ActionView,
    Option<DownloadProgress>,
) {
    let ended = advanced(fed(download, chunks), EventView::Received(0)).0;
    let flushed = advanced(ended, EventView::Succeeded).0;
    advanced(flushed, EventView::Succeeded)
}

/// The last step of a download that publishes its file.
pub open spec fn published(download: DownloadView, overwrite: bool) -> (
    DownloadView,
    ActionView,
    Option<DownloadProgress>,
) {
    if overwrite {
        advanced(download, EventView::Succeeded)
    } else {
        advanced(advanced(download, EventView::Succeeded).0, EventView::Succeeded)
    }
}

/// A response whose chunks make up its declared length, with every file
/// operation succeeding, is published and finishes with exactly so many bytes: by
/// a link that replaces nothing, or over the destination if that is allowed. One
/// that is shorter or longer than declared fails and is worth another try.
pub proof fn whole_responses_are_published(
    prefix: Seq<char>,
    overwrite: bool,
    destination: Seq<char>,
    counts: RequestCounts,
    declared: Option<i64>,
    etag: Option<Seq<char>>,
    chunks: Seq<u64>,
)
    requires
        prefix.len() > 0,
        forall|i: int| 0 <= i < chunks.len() ==> #[trigger] chunks[i] > 0,
        sum_of(chunks) <= u64::MAX,
    ensures
        ({
            let reading = responding(prefix, overwrite, destination, counts, declared, etag);
            let done = synced(reading, chunks);
            let last = published(done.0, overwrite);
            let sum = sum_of(chunks);
            if declared is Some && declared->0 >= 0 && declared->0 != sum {
                &&& done.1 is Fail
                &&& done.1->Fail_0.kind == StoreErrorKind::InvalidResponse
                &&& done.1->Fail_0.retryable
                &&& done.1->Fail_0.message == "GetObject returned "@ + digits::decimal(sum as nat)
                    + " bytes but declared "@ + digits::decimal(declared->0 as nat)
            } else {
                &&& done.1 == if overwrite {
                    ActionView::Rename
                } else {
                    ActionView::Link
                }
                &&& !overwrite ==> advanced(done.0, EventView::Succeeded).1
                    == ActionView::RemoveTemporary
                &&& last.1 == ActionView::Finish { bytes_transferred: sum as u64, etag }
                &&& last.2 is Some
                &&& (last.2->0).bytes_transferred == sum
                &&& (last.2->0).total_bytes == Some(sum as u64)
                &&& (last.2->0).done
            }
        }),
{
    let reading = responding(prefix, overwrite, destination, counts, declared, etag);
    assert(reading.stage == DownloadStage::Reading);
    feeding_adds_up(reading, chunks);
}

/// Every chunk that is written is reported, as the bytes so far.
pub proof fn every_chunk_is_reported(download: DownloadView, bytes: u64)
    requires
        download.stage == DownloadStage::Reading,
        bytes > 0,
        download.bytes + bytes <= u64::MAX,
    ensures
        ({
            let holding = advanced(download, EventView::Received(bytes));
            let stored = advanced(holding.0, EventView::Succeeded);
            &&& holding.1 == ActionView::Write
            &&& holding.2 is None
            &&& stored.1 == ActionView::Read
            &&& stored.0.bytes == download.bytes + bytes
            &&& stored.2 is Some
            &&& (stored.2->0).bytes_transferred == download.bytes + bytes
            &&& (stored.2->0).total_bytes == download.total
            &&& !(stored.2->0).done
        }),
{
}

/// The percentage, of the whole, is what has been transferred, but never more
/// than all of it. Nothing is known without a length, and an empty object counts
/// as transferred once it is done.
pub proof fn percentage_is_the_share_transferred(transferred: u64, total: Option<u64>, done: bool)
    ensures
        ({
            let percent = model::transfer_percent(transferred, total, done);
            &&& percent is None <==> total is None || (total == Some(0u64) && !done)
            &&& percent matches Some(ratio) ==> ratio.denominator > 0
            &&& percent is Some && transferred <= total->0 && total->0 > 0 ==> (
            percent->0).numerator * total->0 == 100 * transferred * (percent->0).denominator
            &&& percent is Some && (transferred > total->0 || total->0 == 0) ==> (
            percent->0).numerator == 100 * (percent->0).denominator
        }),
{
    if let Some(whole) = total {
        let part = transferred as int;
        assert((100 * part) * (whole as int) == 100 * part * (whole as int));
    }
}

/// A cancellation ends a download up to the point where its file is complete,
/// and is ignored from then on.
pub proof fn cancellation_ends_the_transfer_only(download: DownloadView)
    ensures
        ({
            let step = advanced(download, EventView::Cancelled);
            match download.stage {
                DownloadStage::Requesting | DownloadStage::Responding | DownloadStage::Creating
                | DownloadStage::Reading | DownloadStage::Writing | DownloadStage::Flushing
                | DownloadStage::Syncing => {
                    &&& step.0.stage == DownloadStage::Ended
                    &&& step.1 == ActionView::Fail(
                        StoreErrorView {
                            kind: StoreErrorKind::Cancelled,
                            message: "operation cancelled"@,
                            retryable: false,
                        },
                    )
                    &&& step.2 is None
                },
                _ => step.0 == download && step.2 is None,
            }
        }),
{
}

/// The words for what failed.
pub open spec fn failed_words(stage: DownloadStage) -> Seq<char> {
    match stage {
        DownloadStage::Inspecting => "inspect download destination: "@,
        DownloadStage::Reinspecting => "inspect download destination: "@,
        DownloadStage::Creating => "create temporary download: "@,
        DownloadStage::Reading => "read S3 response: "@,
        DownloadStage::Writing => "write download: "@,
        DownloadStage::Flushing => "flush download: "@,
        DownloadStage::Syncing => "sync download: "@,
        DownloadStage::RemovingTemporary => "remove temporary download: "@,
        DownloadStage::RemovingExisting => "replace existing download: "@,
        _ => "install completed download: "@,
    }
}

/// A file operation that fails ends the download with what failed and why; that
/// something is already there is told apart. Three failures do not end it: a
/// destination that is not there yet is what a new file needs; a destination that
/// may be overwritten but cannot be replaced at once is looked at again; and a
/// download that waits for the service is not concerned.
pub proof fn failed_operations_are_named(download: DownloadView, failure: FailureView)
    ensures
        ({
            let step = advanced(download, EventView::Failed(failure));
            let fault = |stage: DownloadStage, cause: FailureView|
                ActionView::Fail(
                    StoreErrorView {
                        kind: if cause.kind == IoFailureKind::AlreadyExists {
                            StoreErrorKind::AlreadyExists
                        } else {
                            StoreErrorKind::Io
                        },
                        message: failed_words(stage) + cause.detail,
                        retryable: false,
                    },
                );
            let obstructed = failure.kind == IoFailureKind::AlreadyExists || failure.kind
                == IoFailureKind::PermissionDenied;
            &&& step.2 is None
            &&& match download.stage {
                DownloadStage::Requesting | DownloadStage::Responding
                | DownloadStage::Ended => step.0 == download,
                DownloadStage::Inspecting => if failure.kind == IoFailureKind::NotFound {
                    step.1 == ActionView::Request
                } else {
                    step.1 == fault(download.stage, failure)
                },
                DownloadStage::Renaming => if obstructed {
                    &&& step.1 == ActionView::Inspect
                    &&& step.0.obstacle == Some(failure)
                    &&& advanced(step.0, EventView::Succeeded).1 == ActionView::RemoveExisting
                    &&& advanced(
                        advanced(step.0, EventView::Succeeded).0,
                        EventView::Succeeded,
                    ).1 == ActionView::Rename
                } else {
                    step.1 == fault(download.stage, failure)
                },
                DownloadStage::Reinspecting => if failure.kind == IoFailureKind::NotFound
                    && download.obstacle is Some {
                    step.1 == fault(DownloadStage::Renaming, download.obstacle->0)
                } else {
                    step.1 == fault(download.stage, failure)
                },
                _ => step.1 == fault(download.stage, failure),
            }
            &&& step.1 is Fail ==> step.0.stage == DownloadStage::Ended
        }),
{
    words_join(download.stage, failure.detail);
    if download.obstacle is Some {
        words_join(DownloadStage::Renaming, download.obstacle->0.detail);
    }
}

proof fn words_join(stage: DownloadStage, detail: Seq<char>)
    ensures
        download::operation_of(stage) + ": "@ + detail == failed_words(stage) + detail || stage
            == DownloadStage::Requesting || stage == DownloadStage::Responding || stage
            == DownloadStage::Ended,
{
    reveal_strlit(": ");
    reveal_strlit("inspect download destination");
    reveal_strlit("inspect download destination: ");
    reveal_strlit("create temporary download");
    reveal_strlit("create temporary download: ");
    reveal_strlit("read S3 response");
    reveal_strlit("read S3 response: ");
    reveal_strlit("write download");
    reveal_strlit("write download: ");
    reveal_strlit("flush download");
    reveal_strlit("flush download: ");
    reveal_strlit("sync download");
    reveal_strlit("sync download: ");
    reveal_strlit("remove temporary download");
    reveal_strlit("remove temporary download: ");
    reveal_strlit("replace existing download");
    reveal_strlit("replace existing download: ");
    reveal_strlit("install completed download");
    reveal_strlit("install completed download: ");
    assert(download::operation_of(stage) + ": "@ =~= failed_words(stage));
}

/// A download needs an object, a new file needs a free destination, and a
/// service that refuses is believed.
pub proof fn downloads_begin_with_a_look(
    prefix: Seq<char>,
    overwrite: bool,
    destination: Seq<char>,
    counts: RequestCounts,
    refusal: StoreErrorView,
)
    ensures
        ({
            let (start, first) = begun(prefix, overwrite, destination);
            let sent = requested(ready(prefix, overwrite, destination), false, counts);
            &&& prefix.len() == 0 ==> first == ActionView::Fail(
                StoreErrorView {
                    kind: StoreErrorKind::NotFound,
                    message: "download requires a full S3 object URI"@,
                    retryable: false,
                },
            )
            &&& prefix.len() > 0 && !overwrite ==> {
                &&& first == ActionView::Inspect
                &&& advanced(start, EventView::Succeeded).1 == ActionView::Fail(
                    StoreErrorView {
                        kind: StoreErrorKind::AlreadyExists,
                        message: "destination already exists: "@ + destination,
                        retryable: false,
                    },
                )
            }
            &&& prefix.len() > 0 && overwrite ==> first == ActionView::Request
            &&& prefix.len() > 0 ==> {
                &&& sent.1 == ActionView::Send
                &&& sent.2.get_requests == (counts.get_requests + 1) % 0x1_0000_0000_0000_0000
                &&& sent.2.list_requests == counts.list_requests
                &&& advanced(sent.0, EventView::Refused(refusal)).1 == ActionView::Fail(refusal)
            }
        }),
{
}

} // verus!
