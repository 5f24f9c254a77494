//! The course of a download: what to do next after every outcome.

use vstd::prelude::*;

use crate::digits;
use crate::digits::decimal_text;
use crate::error::{StoreError, StoreErrorKind, StoreErrorView};
use crate::ids;
use crate::ids::random_id;
use crate::model;
use crate::model::{DownloadProgress, RequestCounts};
use crate::text;
use crate::text::optional_clone;
use crate::uri::S3Uri;

verus! {

/// Bytes read from a response at a time.
pub const DOWNLOAD_BUFFER_BYTES: usize = 131_072;

/// The requests issued so far.
#[derive(Debug)]
pub struct RequestMeter {
    counted: RequestCounts,
}

impl View for RequestMeter {
    type V = RequestCounts;

    closed spec fn view(&self) -> RequestCounts {
        self.counted
    }
}

impl RequestMeter {
    /// A meter that has counted nothing.
    pub fn new() -> (meter: Self)
        ensures
            meter@ == (RequestCounts { list_requests: 0, get_requests: 0 }),
    {
        RequestMeter { counted: RequestCounts { list_requests: 0, get_requests: 0 } }
    }

    /// Counts one listing page. Counted before dispatch: a request that fails
    /// after reaching S3 is still billable.
    pub fn count_list(&mut self)
        ensures
            final(self)@ == (RequestCounts {
                list_requests: old(self)@.list_requests.wrapping_add(1),
                get_requests: old(self)@.get_requests,
            }),
    {
        let next: u64 = self.counted.list_requests.wrapping_add(1);
        self.counted = RequestCounts {
            list_requests: next,
            get_requests: self.counted.get_requests,
        };
    }

    /// Counts one object fetch.
    pub fn count_get(&mut self)
        ensures
            final(self)@ == (RequestCounts {
                list_requests: old(self)@.list_requests,
                get_requests: old(self)@.get_requests.wrapping_add(1),
            }),
    {
        let next: u64 = self.counted.get_requests.wrapping_add(1);
        self.counted = RequestCounts {
            list_requests: self.counted.list_requests,
            get_requests: next,
        };
    }

    /// The requests counted so far.
    pub fn counts(&self) -> (counts: RequestCounts)
        ensures
            counts == self@,
    {
        self.counted
    }
}

/// The name of the partial file beside a destination.
pub open spec fn partial_name(file_name: Option<Seq<char>>, id: Seq<char>) -> Seq<char> {
    let name = match file_name {
        Some(given) => given,
        None => "download"@,
    };
    "."@ + name + ".s3pulse-"@ + id + ".part"@
}

/// The name of the partial file for a known identifier.
pub fn temporary_name_with(file_name: Option<&str>, id: &str) -> (name: String)
    ensures
        name@ == partial_name(
            match file_name {
                Some(given) => Some(given@),
                None => None,
            },
            id@,
        ),
{
    let given = match file_name {
        Some(given) => given,
        None => "download",
    };
    ".".to_owned().concat(given).concat(".s3pulse-").concat(id).concat(".part")
}

/// A fresh name for a partial file in the destination's directory.
pub fn temporary_name(file_name: Option<&str>) -> (name: String)
    ensures
        exists|id: Seq<char>| #[trigger]
            ids::uuid_shaped(id) && name@ == partial_name(
                match file_name {
                    Some(given) => Some(given@),
                    None => None,
                },
                id,
            ),
{
    let id = random_id();
    temporary_name_with(file_name, id.as_str())
}

/// The kinds of failure of a file operation that make a difference.
#[derive(Clone, Copy, Debug, PartialEq, Eq, Structural)]
pub enum IoFailureKind {
    AlreadyExists,
    PermissionDenied,
    NotFound,
    Other,
}

/// A failed file operation.
#[derive(Clone, Debug, PartialEq, Eq)]
pub struct IoFailure {
    pub kind: IoFailureKind,
    pub detail: String,
}

/// What an [`IoFailure`] says.
pub struct FailureView {
    pub kind: IoFailureKind,
    pub detail: Seq<char>,
}

impl View for IoFailure {
    type V = FailureView;

    open spec fn view(&self) -> FailureView {
        FailureView { kind: self.kind, detail: self.detail@ }
    }
}

/// The error of a failed file operation.
pub open spec fn io_error(operation: Seq<char>, failure: FailureView) -> StoreErrorView {
    StoreErrorView {
        kind: if failure.kind == IoFailureKind::AlreadyExists {
            StoreErrorKind::AlreadyExists
        } else {
            StoreErrorKind::Io
        },
        message: operation + ": "@ + failure.detail,
        retryable: false,
    }
}

fn io_failed(operation: &str, failure: &IoFailure) -> (error: StoreError)
    ensures
        error@ == io_error(operation@, failure@),
{
    StoreError::io(
        operation,
        failure.kind == IoFailureKind::AlreadyExists,
        failure.detail.as_str(),
    )
}

/// What a download is waiting for.
#[derive(Clone, Copy, Debug, PartialEq, Eq, Structural)]
pub enum DownloadStage {
    /// Whether the destination is there.
    Inspecting,
    /// Leave to send the request.
    Requesting,
    /// The response to the request.
    Responding,
    /// The partial file.
    Creating,
    /// The next bytes of the response.
    Reading,
    /// The bytes read being written.
    Writing,
    Flushing,
    Syncing,
    /// The finished file being published without replacing anything.
    Linking,
    RemovingTemporary,
    /// The finished file being published over the destination.
    Renaming,
    /// Whether the destination is what stood in the way.
    Reinspecting,
    RemovingExisting,
    RenamingAgain,
    Ended,
}

/// What a download asks to be done.
#[derive(Clone, Debug, PartialEq)]
pub enum DownloadAction {
    Inspect,
    /// Call [`Download::request`].
    Request,
    /// Send the request.
    Send,
    Create,
    Read,
    Write,
    Flush,
    Sync,
    Link,
    RemoveTemporary,
    Rename,
    RemoveExisting,
    Finish { bytes_transferred: u64, etag: Option<String> },
    Fail(StoreError),
    /// Nothing is left to do.
    Rest,
}

/// What a [`DownloadAction`] says.
pub enum ActionView {
    Inspect,
    Request,
    Send,
    Create,
    Read,
    Write,
    Flush,
    Sync,
    Link,
    RemoveTemporary,
    Rename,
    RemoveExisting,
    Finish { bytes_transferred: u64, etag: Option<Seq<char>> },
    Fail(StoreErrorView),
    Rest,
}

impl View for DownloadAction {
    type V = ActionView;

    open spec fn view(&self) -> ActionView {
        match *self {
            DownloadAction::Inspect => ActionView::Inspect,
            DownloadAction::Request => ActionView::Request,
            DownloadAction::Send => ActionView::Send,
            DownloadAction::Create => ActionView::Create,
            DownloadAction::Read => ActionView::Read,
            DownloadAction::Write => ActionView::Write,
            DownloadAction::Flush => ActionView::Flush,
            DownloadAction::Sync => ActionView::Sync,
            DownloadAction::Link => ActionView::Link,
            DownloadAction::RemoveTemporary => ActionView::RemoveTemporary,
            DownloadAction::Rename => ActionView::Rename,
            DownloadAction::RemoveExisting => ActionView::RemoveExisting,
            DownloadAction::Finish { bytes_transferred, etag } => ActionView::Finish {
                bytes_transferred,
                etag: text::optional_view(etag),
            },
            DownloadAction::Fail(error) => ActionView::Fail(error@),
            DownloadAction::Rest => ActionView::Rest,
        }
    }
}

/// What came of the last action.
#[derive(Clone, Debug, PartialEq)]
pub enum DownloadEvent {
    Cancelled,
    Succeeded,
    Failed(IoFailure),
    /// The service answered the request.
    Responded { content_length: Option<i64>, etag: Option<String> },
    /// The service refused the request.
    Refused(StoreError),
    /// So many bytes of the response were read; none at its end.
    Received(u64),
}

/// What a [`DownloadEvent`] says.
pub enum EventView {
    Cancelled,
    Succeeded,
    Failed(FailureView),
    Responded { content_length: Option<i64>, etag: Option<Seq<char>> },
    Refused(StoreErrorView),
    Received(u64),
}

impl View for DownloadEvent {
    type V = EventView;

    open spec fn view(&self) -> EventView {
        match *self {
            DownloadEvent::Cancelled => EventView::Cancelled,
            DownloadEvent::Succeeded => EventView::Succeeded,
            DownloadEvent::Failed(failure) => EventView::Failed(failure@),
            DownloadEvent::Responded { content_length, etag } => EventView::Responded {
                content_length,
                etag: text::optional_view(etag),
            },
            DownloadEvent::Refused(error) => EventView::Refused(error@),
            DownloadEvent::Received(bytes) => EventView::Received(bytes),
        }
    }
}

/// A download under way.
#[derive(Debug)]
pub struct Download {
    overwrite: bool,
    destination: String,
    stage: DownloadStage,
    bytes: u64,
    pending: u64,
    total: Option<u64>,
    etag: Option<String>,
    obstacle: Option<IoFailure>,
}

/// How far a [`Download`] has come.
pub struct DownloadView {
    pub overwrite: bool,
    pub destination: Seq<char>,
    pub stage: DownloadStage,
    /// Bytes written so far.
    pub bytes: u64,
    /// Bytes read but not written yet.
    pub pending: u64,
    /// The length that the response declared.
    pub total: Option<u64>,
    pub etag: Option<Seq<char>>,
    /// Why the destination could not be replaced at once.
    pub obstacle: Option<FailureView>,
}

pub open spec fn obstacle_view(obstacle: Option<IoFailure>) -> Option<FailureView> {
    match obstacle {
        Some(failure) => Some(failure@),
        None => None,
    }
}

impl View for Download {
    type V = DownloadView;

    closed spec fn view(&self) -> DownloadView {
        DownloadView {
            overwrite: self.overwrite,
            destination: self.destination@,
            stage: self.stage,
            bytes: self.bytes,
            pending: self.pending,
            total: self.total,
            etag: text::optional_view(self.etag),
            obstacle: obstacle_view(self.obstacle),
        }
    }
}

/// What a stage waits for to be done.
pub open spec fn awaited(stage: DownloadStage) -> ActionView {
    match stage {
        DownloadStage::Inspecting | DownloadStage::Reinspecting => ActionView::Inspect,
        DownloadStage::Requesting => ActionView::Request,
        DownloadStage::Responding => ActionView::Send,
        DownloadStage::Creating => ActionView::Create,
        DownloadStage::Reading => ActionView::Read,
        DownloadStage::Writing => ActionView::Write,
        DownloadStage::Flushing => ActionView::Flush,
        DownloadStage::Syncing => ActionView::Sync,
        DownloadStage::Linking => ActionView::Link,
        DownloadStage::RemovingTemporary => ActionView::RemoveTemporary,
        DownloadStage::Renaming | DownloadStage::RenamingAgain => ActionView::Rename,
        DownloadStage::RemovingExisting => ActionView::RemoveExisting,
        DownloadStage::Ended => ActionView::Rest,
    }
}

/// The operation that a stage's failure is reported as.
pub open spec fn operation_of(stage: DownloadStage) -> Seq<char> {
    match stage {
        DownloadStage::Inspecting | DownloadStage::Reinspecting => "inspect download destination"@,
        DownloadStage::Creating => "create temporary download"@,
        DownloadStage::Reading => "read S3 response"@,
        DownloadStage::Writing => "write download"@,
        DownloadStage::Flushing => "flush download"@,
        DownloadStage::Syncing => "sync download"@,
        DownloadStage::RemovingTemporary => "remove temporary download"@,
        DownloadStage::RemovingExisting => "replace existing download"@,
        _ => "install completed download"@,
    }
}

/// Whether a stage belongs to the transfer, which a cancellation ends.
pub open spec fn streaming(stage: DownloadStage) -> bool {
    match stage {
        DownloadStage::Requesting | DownloadStage::Responding | DownloadStage::Creating
        | DownloadStage::Reading | DownloadStage::Writing | DownloadStage::Flushing
        | DownloadStage::Syncing => true,
        _ => false,
    }
}

/// The error of a cancelled operation.
pub open spec fn cancellation() -> StoreErrorView {
    StoreErrorView {
        kind: StoreErrorKind::Cancelled,
        message: "operation cancelled"@,
        retryable: false,
    }
}

/// The error of a response that is shorter or longer than it declared.
pub open spec fn wrong_length(bytes: u64, declared: u64) -> StoreErrorView {
    StoreErrorView {
        kind: StoreErrorKind::InvalidResponse,
        message: "GetObject returned "@ + digits::decimal(bytes as nat) + " bytes but declared "@
            + digits::decimal(declared as nat),
        retryable: true,
    }
}

/// A download in another stage.
pub open spec fn at_stage(download: DownloadView, stage: DownloadStage) -> DownloadView {
    DownloadView { stage, ..download }
}

/// A step without progress to report.
pub open spec fn quiet(download: DownloadView, stage: DownloadStage) -> (
    DownloadView,
    ActionView,
    Option<DownloadProgress>,
) {
    (at_stage(download, stage), awaited(stage), None)
}

/// A step that ends in an error.
pub open spec fn failing(download: DownloadView, error: StoreErrorView) -> (
    DownloadView,
    ActionView,
    Option<DownloadProgress>,
) {
    (at_stage(download, DownloadStage::Ended), ActionView::Fail(error), None)
}

/// The progress after a number of bytes.
pub open spec fn progress_at(bytes: u64, total: Option<u64>, done: bool) -> DownloadProgress {
    DownloadProgress {
        bytes_transferred: bytes,
        total_bytes: total,
        percent: model::transfer_percent(bytes, total, done),
        done,
    }
}

/// The step that ends in success.
pub open spec fn finishing(download: DownloadView) -> (
    DownloadView,
    ActionView,
    Option<DownloadProgress>,
) {
    (
        at_stage(download, DownloadStage::Ended),
        ActionView::Finish { bytes_transferred: download.bytes, etag: download.etag },
        Some(progress_at(download.bytes, Some(download.bytes), true)),
    )
}

/// The next stage after a success that needs nothing else.
pub open spec fn after_success(download: DownloadView) -> (
    DownloadView,
    ActionView,
    Option<DownloadProgress>,
) {
    match download.stage {
        DownloadStage::Inspecting => failing(
            download,
            StoreErrorView {
                kind: StoreErrorKind::AlreadyExists,
                message: "destination already exists: "@ + download.destination,
                retryable: false,
            },
        ),
        DownloadStage::Creating => quiet(download, DownloadStage::Reading),
        DownloadStage::Writing => {
            let sum = download.bytes + download.pending;
            let bytes = if sum > u64::MAX {
                u64::MAX
            } else {
                sum as u64
            };
            (
                DownloadView { stage: DownloadStage::Reading, bytes, pending: 0, ..download },
                ActionView::Read,
                Some(progress_at(bytes, download.total, false)),
            )
        },
        DownloadStage::Flushing => quiet(download, DownloadStage::Syncing),
        DownloadStage::Syncing => if download.total is Some && download.total->0
            != download.bytes {
            failing(download, wrong_length(download.bytes, download.total->0))
        } else if download.overwrite {
            quiet(download, DownloadStage::Renaming)
        } else {
            quiet(download, DownloadStage::Linking)
        },
        DownloadStage::Linking => quiet(download, DownloadStage::RemovingTemporary),
        DownloadStage::RemovingTemporary | DownloadStage::Renaming
        | DownloadStage::RenamingAgain => finishing(download),
        DownloadStage::Reinspecting => quiet(download, DownloadStage::RemovingExisting),
        DownloadStage::RemovingExisting => quiet(download, DownloadStage::RenamingAgain),
        _ => quiet(download, download.stage),
    }
}

/// The next stage after a failed file operation.
pub open spec fn after_failure(download: DownloadView, failure: FailureView) -> (
    DownloadView,
    ActionView,
    Option<DownloadProgress>,
) {
    match download.stage {
        DownloadStage::Requesting | DownloadStage::Responding | DownloadStage::Ended => quiet(
            download,
            download.stage,
        ),
        DownloadStage::Inspecting => if failure.kind == IoFailureKind::NotFound {
            quiet(download, DownloadStage::Requesting)
        } else {
            failing(download, io_error(operation_of(download.stage), failure))
        },
        DownloadStage::Renaming => if failure.kind == IoFailureKind::AlreadyExists || failure.kind
            == IoFailureKind::PermissionDenied {
            (
                DownloadView {
                    stage: DownloadStage::Reinspecting,
                    obstacle: Some(failure),
                    ..download
                },
                ActionView::Inspect,
                None,
            )
        } else {
            failing(download, io_error(operation_of(download.stage), failure))
        },
        DownloadStage::Reinspecting => if failure.kind == IoFailureKind::NotFound
            && download.obstacle is Some {
            failing(
                download,
                io_error(operation_of(DownloadStage::Renaming), download.obstacle->0),
            )
        } else {
            failing(download, io_error(operation_of(download.stage), failure))
        },
        _ => failing(download, io_error(operation_of(download.stage), failure)),
    }
}

/// The requests counted once one more object has been requested.
pub open spec fn with_one_fetch(counts: RequestCounts) -> RequestCounts {
    RequestCounts { get_requests: counts.get_requests.wrapping_add(1), ..counts }
}

/// What asking for leave to send the request does to a download and to the
/// requests counted. A download that does not ask for it is left as it is.
pub open spec fn requested(download: DownloadView, cancelled: bool, counts: RequestCounts) -> (
    DownloadView,
    ActionView,
    RequestCounts,
) {
    if download.stage != DownloadStage::Requesting {
        (download, awaited(download.stage), counts)
    } else if cancelled {
        (
            at_stage(download, DownloadStage::Ended),
            ActionView::Fail(cancellation()),
            counts,
        )
    } else {
        (
            at_stage(download, DownloadStage::Responding),
            ActionView::Send,
            with_one_fetch(counts),
        )
    }
}

/// What an outcome does to a download. An outcome that the stage does not wait
/// for changes nothing.
pub open spec fn advanced(download: DownloadView, event: EventView) -> (
    DownloadView,
    ActionView,
    Option<DownloadProgress>,
) {
    match event {
        EventView::Cancelled => if streaming(download.stage) {
            failing(download, cancellation())
        } else {
            quiet(download, download.stage)
        },
        EventView::Succeeded => after_success(download),
        EventView::Failed(failure) => after_failure(download, failure),
        EventView::Responded { content_length, etag } => if download.stage
            == DownloadStage::Responding {
            (
                DownloadView {
                    stage: DownloadStage::Creating,
                    total: if content_length is Some && content_length->0 >= 0 {
                        Some(content_length->0 as u64)
                    } else {
                        None
                    },
                    etag,
                    ..download
                },
                ActionView::Create,
                None,
            )
        } else {
            quiet(download, download.stage)
        },
        EventView::Refused(error) => if download.stage == DownloadStage::Responding {
            failing(download, error)
        } else {
            quiet(download, download.stage)
        },
        EventView::Received(bytes) => if download.stage != DownloadStage::Reading {
            quiet(download, download.stage)
        } else if bytes == 0 {
            quiet(download, DownloadStage::Flushing)
        } else {
            (
                DownloadView { stage: DownloadStage::Writing, pending: bytes, ..download },
                ActionView::Write,
                None,
            )
        },
    }
}

/// A download before anything has been done, and what to do first.
pub open spec fn begun(prefix: Seq<char>, overwrite: bool, destination: Seq<char>) -> (
    DownloadView,
    ActionView,
) {
    let fresh = DownloadView {
        overwrite,
        destination,
        stage: if prefix.len() == 0 {
            DownloadStage::Ended
        } else if overwrite {
            DownloadStage::Requesting
        } else {
            DownloadStage::Inspecting
        },
        bytes: 0,
        pending: 0,
        total: None,
        etag: None,
        obstacle: None,
    };
    if prefix.len() == 0 {
        (
            fresh,
            ActionView::Fail(
                StoreErrorView {
                    kind: StoreErrorKind::NotFound,
                    message: "download requires a full S3 object URI"@,
                    retryable: false,
                },
            ),
        )
    } else {
        (fresh, awaited(fresh.stage))
    }
}

fn action_of(stage: DownloadStage) -> (action: DownloadAction)
    ensures
        action@ == awaited(stage),
{
    match stage {
        DownloadStage::Inspecting | DownloadStage::Reinspecting => DownloadAction::Inspect,
        DownloadStage::Requesting => DownloadAction::Request,
        DownloadStage::Responding => DownloadAction::Send,
        DownloadStage::Creating => DownloadAction::Create,
        DownloadStage::Reading => DownloadAction::Read,
        DownloadStage::Writing => DownloadAction::Write,
        DownloadStage::Flushing => DownloadAction::Flush,
        DownloadStage::Syncing => DownloadAction::Sync,
        DownloadStage::Linking => DownloadAction::Link,
        DownloadStage::RemovingTemporary => DownloadAction::RemoveTemporary,
        DownloadStage::Renaming | DownloadStage::RenamingAgain => DownloadAction::Rename,
        DownloadStage::RemovingExisting => DownloadAction::RemoveExisting,
        DownloadStage::Ended => DownloadAction::Rest,
    }
}

fn operation_name(stage: DownloadStage) -> (name: &'static str)
    ensures
        name@ == operation_of(stage),
{
    match stage {
        DownloadStage::Inspecting | DownloadStage::Reinspecting => "inspect download destination",
        DownloadStage::Creating => "create temporary download",
        DownloadStage::Reading => "read S3 response",
        DownloadStage::Writing => "write download",
        DownloadStage::Flushing => "flush download",
        DownloadStage::Syncing => "sync download",
        DownloadStage::RemovingTemporary => "remove temporary download",
        DownloadStage::RemovingExisting => "replace existing download",
        _ => "install completed download",
    }
}

impl Download {
    /// A download of an object to a destination, which is given as shown to a
    /// user, and what to do first.
    pub fn start(source: &S3Uri, overwrite: bool, destination: String) -> (result: (
        Download,
        DownloadAction,
    ))
        ensures
            (result.0@, result.1@) == begun(source@.prefix, overwrite, destination@),
    {
        let missing: bool = source.prefix.as_str().is_empty();
        let stage = if missing {
            DownloadStage::Ended
        } else if overwrite {
            DownloadStage::Requesting
        } else {
            DownloadStage::Inspecting
        };
        let download = Download {
            overwrite,
            destination,
            stage,
            bytes: 0,
            pending: 0,
            total: None,
            etag: None,
            obstacle: None,
        };
        let action = if missing {
            DownloadAction::Fail(
                StoreError::new(
                    StoreErrorKind::NotFound,
                    "download requires a full S3 object URI".to_owned(),
                    false,
                ),
            )
        } else {
            action_of(stage)
        };
        (download, action)
    }

    fn go(&mut self, stage: DownloadStage) -> (step: (DownloadAction, Option<DownloadProgress>))
        ensures
            (final(self)@, step.0@, step.1) == quiet(old(self)@, stage),
    {
        self.stage = stage;
        (action_of(stage), None)
    }

    fn fail(&mut self, error: StoreError) -> (step: (DownloadAction, Option<DownloadProgress>))
        ensures
            (final(self)@, step.0@, step.1) == failing(old(self)@, error@),
    {
        self.stage = DownloadStage::Ended;
        (DownloadAction::Fail(error), None)
    }

    fn finish(&mut self) -> (step: (DownloadAction, Option<DownloadProgress>))
        ensures
            (final(self)@, step.0@, step.1) == finishing(old(self)@),
    {
        self.stage = DownloadStage::Ended;
        let action = DownloadAction::Finish {
            bytes_transferred: self.bytes,
            etag: optional_clone(&self.etag),
        };
        (action, Some(DownloadProgress::new(self.bytes, Some(self.bytes), true)))
    }

    fn succeeded(&mut self) -> (step: (DownloadAction, Option<DownloadProgress>))
        ensures
            (final(self)@, step.0@, step.1) == after_success(old(self)@),
    {
        match self.stage {
            DownloadStage::Inspecting => {
                let message = "destination already exists: ".to_owned().concat(
                    self.destination.as_str(),
                );
                self.fail(StoreError::new(StoreErrorKind::AlreadyExists, message, false))
            },
            DownloadStage::Creating => self.go(DownloadStage::Reading),
            DownloadStage::Writing => {
                let bytes: u64 = self.bytes.saturating_add(self.pending);
                self.bytes = bytes;
                self.pending = 0;
                self.stage = DownloadStage::Reading;
                (DownloadAction::Read, Some(DownloadProgress::new(bytes, self.total, false)))
            },
            DownloadStage::Flushing => self.go(DownloadStage::Syncing),
            DownloadStage::Syncing => {
                if let Some(expected) = self.total {
                    if expected != self.bytes {
                        let message = "GetObject returned ".to_owned().concat(
                            decimal_text(self.bytes as u128).as_str(),
                        ).concat(" bytes but declared ").concat(
                            decimal_text(expected as u128).as_str(),
                        );
                        return self.fail(
                            StoreError::new(StoreErrorKind::InvalidResponse, message, true),
                        );
                    }
                }
                if self.overwrite {
                    self.go(DownloadStage::Renaming)
                } else {
                    self.go(DownloadStage::Linking)
                }
            },
            DownloadStage::Linking => self.go(DownloadStage::RemovingTemporary),
            DownloadStage::RemovingTemporary | DownloadStage::Renaming
            | DownloadStage::RenamingAgain => self.finish(),
            DownloadStage::Reinspecting => self.go(DownloadStage::RemovingExisting),
            DownloadStage::RemovingExisting => self.go(DownloadStage::RenamingAgain),
            stage => self.go(stage),
        }
    }

    fn failed(&mut self, failure: IoFailure) -> (step: (DownloadAction, Option<DownloadProgress>))
        ensures
            (final(self)@, step.0@, step.1) == after_failure(old(self)@, failure@),
    {
        let stage = self.stage;
        match stage {
            DownloadStage::Requesting | DownloadStage::Responding | DownloadStage::Ended => {
                self.go(stage)
            },
            DownloadStage::Inspecting => {
                if failure.kind == IoFailureKind::NotFound {
                    self.go(DownloadStage::Requesting)
                } else {
                    self.fail(io_failed(operation_name(stage), &failure))
                }
            },
            DownloadStage::Renaming => {
                if failure.kind == IoFailureKind::AlreadyExists || failure.kind
                    == IoFailureKind::PermissionDenied {
                    self.obstacle = Some(failure);
                    self.stage = DownloadStage::Reinspecting;
                    (DownloadAction::Inspect, None)
                } else {
                    self.fail(io_failed(operation_name(stage), &failure))
                }
            },
            DownloadStage::Reinspecting => {
                let error = match &self.obstacle {
                    Some(obstacle) if failure.kind == IoFailureKind::NotFound => io_failed(
                        operation_name(DownloadStage::Renaming),
                        obstacle,
                    ),
                    _ => io_failed(operation_name(stage), &failure),
                };
                self.fail(error)
            },
            _ => self.fail(io_failed(operation_name(stage), &failure)),
        }
    }

    /// Gives leave to send the request, which is counted now: before it is sent,
    /// because a request that fails after reaching S3 is still billable. A
    /// download that has been cancelled sends none and counts none.
    pub fn request(&mut self, cancelled: bool, meter: &mut RequestMeter) -> (action: DownloadAction)
        ensures
            (final(self)@, action@, final(meter)@) == requested(
                old(self)@,
                cancelled,
                old(meter)@,
            ),
    {
        if self.stage != DownloadStage::Requesting {
            return action_of(self.stage);
        }
        if cancelled {
            return self.fail(StoreError::cancelled()).0;
        }
        meter.count_get();
        self.go(DownloadStage::Responding).0
    }

    /// Takes in what came of the last action; says what to do next and what
    /// progress to report.
    pub fn advance(&mut self, event: DownloadEvent) -> (step: (
        DownloadAction,
        Option<DownloadProgress>,
    ))
        ensures
            (final(self)@, step.0@, step.1) == advanced(old(self)@, event@),
    {
        let stage = self.stage;
        match event {
            DownloadEvent::Cancelled => {
                match stage {
                    DownloadStage::Requesting | DownloadStage::Responding
                    | DownloadStage::Creating | DownloadStage::Reading | DownloadStage::Writing
                    | DownloadStage::Flushing | DownloadStage::Syncing => {
                        self.fail(StoreError::cancelled())
                    },
                    _ => self.go(stage),
                }
            },
            DownloadEvent::Succeeded => self.succeeded(),
            DownloadEvent::Failed(failure) => self.failed(failure),
            DownloadEvent::Responded { content_length, etag } => {
                if stage == DownloadStage::Responding {
                    self.total = match content_length {
                        Some(length) => {
                            if length >= 0 {
                                Some(length as u64)
                            } else {
                                None
                            }
                        },
                        None => None,
                    };
                    self.etag = etag;
                    self.stage = DownloadStage::Creating;
                    (DownloadAction::Create, None)
                } else {
                    self.go(stage)
                }
            },
            DownloadEvent::Refused(error) => {
                if stage == DownloadStage::Responding {
                    self.fail(error)
                } else {
                    self.go(stage)
                }
            },
            DownloadEvent::Received(bytes) => {
                if stage != DownloadStage::Reading {
                    self.go(stage)
                } else if bytes == 0 {
                    self.go(DownloadStage::Flushing)
                } else {
                    self.pending = bytes;
                    self.stage = DownloadStage::Writing;
                    (DownloadAction::Write, None)
                }
            },
        }
    }
}

/// Something that happens to a download.
pub enum DownloadStep {
    /// Leave to send the request was asked for.
    Requested { cancelled: bool },
    /// Something came of an action.
    CameOf(EventView),
}

/// A download, and the requests counted, after a run of steps.
pub open spec fn after_steps(
    start: DownloadView,
    counts: RequestCounts,
    steps: Seq<DownloadStep>,
) -> (DownloadView, RequestCounts)
    decreases steps.len(),
{
    if steps.len() == 0 {
        (start, counts)
    } else {
        let (download, counted) = after_steps(start, counts, steps.drop_last());
        match steps.last() {
            DownloadStep::Requested { cancelled } => {
                let step = requested(download, cancelled, counted);
                (step.0, step.2)
            },
            DownloadStep::CameOf(event) => (advanced(download, event).0, counted),
        }
    }
}

/// A download counts its fetch once, before the request is sent: nothing until
/// then, and one from then on, also if it fails later. A download that finishes
/// has counted one; one that is cancelled before the request has counted none.
pub proof fn fetches_are_counted_once(
    prefix: Seq<char>,
    overwrite: bool,
    destination: Seq<char>,
    counts: RequestCounts,
    steps: Seq<DownloadStep>,
)
    ensures
        ({
            let (download, counted) = after_steps(
                begun(prefix, overwrite, destination).0,
                counts,
                steps,
            );
            &&& match download.stage {
                DownloadStage::Inspecting | DownloadStage::Requesting => counted == counts,
                DownloadStage::Ended => counted == counts || counted == with_one_fetch(counts),
                _ => counted == with_one_fetch(counts),
            }
            &&& download.stage == DownloadStage::Requesting ==> requested(
                download,
                true,
                counted,
            ).2 == counts
            &&& requested(download, false, counted).1 is Send ==> requested(
                download,
                false,
                counted,
            ).2 == with_one_fetch(counts)
            &&& forall|event: EventView| #[trigger]
                advanced(download, event).1 is Finish ==> counted == with_one_fetch(counts)
        }),
    decreases steps.len(),
{
    if steps.len() > 0 {
        fetches_are_counted_once(prefix, overwrite, destination, counts, steps.drop_last());
    }
}

/// What holds of every download at any time: it is published only once every
/// declared byte is there, and replaces a file only where that was asked for.
pub open spec fn consistent(download: DownloadView) -> bool {
    let publishing = match download.stage {
        DownloadStage::Linking | DownloadStage::RemovingTemporary | DownloadStage::Renaming
        | DownloadStage::Reinspecting | DownloadStage::RemovingExisting
        | DownloadStage::RenamingAgain => true,
        _ => false,
    };
    let replacing = match download.stage {
        DownloadStage::Renaming | DownloadStage::Reinspecting | DownloadStage::RemovingExisting
        | DownloadStage::RenamingAgain => true,
        _ => false,
    };
    &&& publishing && download.total is Some ==> download.total->0 == download.bytes
    &&& replacing ==> download.overwrite
    &&& download.stage == DownloadStage::Reinspecting ==> download.obstacle is Some
}

/// A download is consistent from the start and stays so whatever comes.
pub proof fn downloads_stay_consistent(
    download: DownloadView,
    event: EventView,
    cancelled: bool,
    counts: RequestCounts,
    prefix: Seq<char>,
    overwrite: bool,
    destination: Seq<char>,
)
    ensures
        consistent(begun(prefix, overwrite, destination).0),
        consistent(download) ==> consistent(requested(download, cancelled, counts).0),
        consistent(download) ==> consistent(advanced(download, event).0),
{
}

/// A download that finishes has every byte that the response declared, and
/// reports all of them.
pub proof fn finished_downloads_are_complete(download: DownloadView, event: EventView)
    requires
        consistent(download),
        advanced(download, event).1 is Finish,
    ensures
        advanced(download, event).1->bytes_transferred == download.bytes,
        download.total is Some ==> download.total->0 == download.bytes,
        advanced(download, event).2 == Some(
            progress_at(download.bytes, Some(download.bytes), true),
        ),
        advanced(download, event).0.stage == DownloadStage::Ended,
{
}

/// Without leave to overwrite, a download neither renames over the destination
/// nor removes it.
pub proof fn nothing_is_replaced_without_leave(download: DownloadView, event: EventView)
    requires
        consistent(download),
        !download.overwrite,
    ensures
        advanced(download, event).1 !is Rename,
        advanced(download, event).1 !is RemoveExisting,
        !advanced(download, event).0.overwrite,
{
}

/// The bytes reported never decrease.
pub proof fn progress_never_goes_back(download: DownloadView, event: EventView)
    ensures
        advanced(download, event).0.bytes >= download.bytes,
        advanced(download, event).2 matches Some(progress) ==> progress.bytes_transferred
            >= download.bytes,
{
}

} // verus!
