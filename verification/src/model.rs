//! The values that a watcher works with and reports.

use std::path::PathBuf;

use vstd::prelude::*;

use crate::error::{ConfigError, StoreError};
use crate::text;
use crate::text::{is_blank, optional_clone, optional_text_eq, text_eq};
use crate::time::Timestamp;
use crate::uri::S3Uri;

verus! {

/// Seconds between polls unless configured otherwise.
pub const DEFAULT_POLL_INTERVAL_SECONDS: u64 = 30;

/// Objects retained per watcher unless configured otherwise.
pub const DEFAULT_HISTORY_CAPACITY: usize = 10_000;

/// Earlier periods watched beside the current one unless configured otherwise.
pub const DEFAULT_LOOKBACK_PERIODS: u32 = 1;

/// A feed is late once its gap exceeds three halves of the expected interval.
pub const LATE_MULTIPLIER_NUMERATOR: u64 = 3;

/// See [`LATE_MULTIPLIER_NUMERATOR`].
pub const LATE_MULTIPLIER_DENOMINATOR: u64 = 2;

/// The score, in tenths, from which a size counts as an outlier.
pub const SIZE_OUTLIER_SCORE_TENTHS: u64 = 35;

/// The least scale of a size, in percent of the median.
pub const MIN_SIZE_RELATIVE_SCALE_PERCENT: u64 = 10;

/// Rescales a median absolute deviation to be comparable with a standard
/// deviation of normally distributed data, in ten-thousandths.
pub const DEVIATION_SCALE_TEN_THOUSANDTHS: u64 = 14_826;

/// The least number of sizes from which an outlier is judged.
pub const MIN_SIZE_OBSERVATIONS: usize = 8;

/// An owned file-system path of std, carried through without being read.
#[verifier::external_type_specification]
#[verifier::external_body]
pub struct ExPathBuf(std::path::PathBuf);

/// An exact fraction.
#[derive(Clone, Copy, Debug, PartialEq, Eq, Structural)]
pub struct Ratio {
    pub numerator: u128,
    pub denominator: u128,
}

/// What a watcher is asked to do.
#[derive(Clone, Debug, PartialEq, Eq)]
pub struct WatcherConfig {
    pub id: String,
    pub name: String,
    pub target: S3Uri,
    pub profile: Option<String>,
    pub region: Option<String>,
    pub poll_interval_seconds: u64,
    pub expected_interval_seconds: Option<u64>,
    pub max_history: usize,
    /// Earlier periods to also watch when the target carries date placeholders.
    ///
    /// A rollover is not clean: files for yesterday can still land after
    /// midnight. Ignored for a target without placeholders.
    pub lookback_periods: u32,
    /// IANA zone the date placeholders resolve in, for example
    /// `Australia/Sydney`. UTC when absent.
    pub time_zone: Option<String>,
}

/// The first thing wrong with a configuration, if anything.
pub open spec fn config_fault(config: WatcherConfig) -> Option<ConfigError> {
    if text::blank(config.id@) {
        Some(ConfigError::EmptyId)
    } else if text::blank(config.name@) {
        Some(ConfigError::EmptyName)
    } else if config.poll_interval_seconds == 0 {
        Some(ConfigError::ZeroPollInterval)
    } else if config.expected_interval_seconds == Some(0u64) {
        Some(ConfigError::ZeroExpectedInterval)
    } else if config.max_history == 0 {
        Some(ConfigError::ZeroHistoryCapacity)
    } else {
        None
    }
}

impl WatcherConfig {
    /// A configuration with every option at its default.
    pub fn new(id: String, name: String, target: S3Uri) -> (config: Self)
        ensures
            config == (WatcherConfig {
                id,
                name,
                target,
                profile: None,
                region: None,
                poll_interval_seconds: DEFAULT_POLL_INTERVAL_SECONDS,
                expected_interval_seconds: None,
                max_history: DEFAULT_HISTORY_CAPACITY,
                lookback_periods: DEFAULT_LOOKBACK_PERIODS,
                time_zone: None,
            }),
    {
        WatcherConfig {
            id,
            name,
            target,
            profile: None,
            region: None,
            poll_interval_seconds: DEFAULT_POLL_INTERVAL_SECONDS,
            expected_interval_seconds: None,
            max_history: DEFAULT_HISTORY_CAPACITY,
            lookback_periods: DEFAULT_LOOKBACK_PERIODS,
            time_zone: None,
        }
    }

    /// Refuses a configuration that cannot be watched.
    pub fn validate(&self) -> (result: Result<(), ConfigError>)
        ensures
            match result {
                Ok(()) => config_fault(*self) is None,
                Err(error) => config_fault(*self) == Some(error),
            },
    {
        if is_blank(self.id.as_str()) {
            return Err(ConfigError::EmptyId);
        }
        if is_blank(self.name.as_str()) {
            return Err(ConfigError::EmptyName);
        }
        if self.poll_interval_seconds == 0 {
            return Err(ConfigError::ZeroPollInterval);
        }
        if let Some(seconds) = self.expected_interval_seconds {
            if seconds == 0 {
                return Err(ConfigError::ZeroExpectedInterval);
            }
        }
        if self.max_history == 0 {
            return Err(ConfigError::ZeroHistoryCapacity);
        }
        Ok(())
    }
}

/// One object of a listing.
#[derive(Debug, PartialEq, Eq)]
pub struct S3Object {
    pub key: String,
    pub last_modified: Timestamp,
    pub size: u64,
    pub etag: Option<String>,
    pub storage_class: Option<String>,
}

/// What an [`S3Object`] says; `at` is its arrival in nanoseconds.
pub struct ObjectView {
    pub key: Seq<char>,
    pub at: int,
    pub size: u64,
    pub etag: Option<Seq<char>>,
    pub storage_class: Option<Seq<char>>,
}

impl View for S3Object {
    type V = ObjectView;

    open spec fn view(&self) -> ObjectView {
        ObjectView {
            key: self.key@,
            at: self.last_modified@,
            size: self.size,
            etag: text::optional_view(self.etag),
            storage_class: text::optional_view(self.storage_class),
        }
    }
}

impl Clone for S3Object {
    fn clone(&self) -> (copy: Self)
        ensures
            copy@ == self@,
    {
        S3Object {
            key: self.key.clone(),
            last_modified: self.last_modified,
            size: self.size,
            etag: optional_clone(&self.etag),
            storage_class: optional_clone(&self.storage_class),
        }
    }
}

impl S3Object {
    /// Whether two observations say the same of the same object.
    pub fn is_identical(&self, other: &S3Object) -> (same: bool)
        ensures
            same == (self@ == other@),
    {
        text_eq(self.key.as_str(), other.key.as_str()) && self.last_modified.is_same(
            &other.last_modified,
        ) && self.size == other.size && optional_text_eq(&self.etag, &other.etag)
            && optional_text_eq(&self.storage_class, &other.storage_class)
    }
}

/// What the objects of a sequence say.
pub open spec fn objects_view(objects: Seq<S3Object>) -> Seq<ObjectView> {
    objects.map_values(|object: S3Object| object@)
}

/// A copy of a list of objects.
pub fn clone_objects(objects: &Vec<S3Object>) -> (copy: Vec<S3Object>)
    ensures
        objects_view(copy@) == objects_view(objects@),
{
    let mut copy: Vec<S3Object> = Vec::new();
    let mut i: usize = 0;
    while i < objects.len()
        invariant
            i <= objects@.len(),
            copy@.len() == i,
            forall|j: int| 0 <= j < i ==> (#[trigger] copy@[j])@ == objects@[j]@,
        decreases objects@.len() - i,
    {
        copy.push(objects[i].clone());
        i += 1;
    }
    assert(objects_view(copy@) =~= objects_view(objects@));
    copy
}

/// How an object came to be reported.
#[derive(Clone, Copy, Debug, PartialEq, Eq, Structural)]
pub enum ObjectChangeKind {
    Added,
    Updated,
}

/// One new or changed object.
#[derive(Debug, PartialEq, Eq)]
pub struct ObjectChange {
    pub kind: ObjectChangeKind,
    pub object: S3Object,
    pub previous: Option<S3Object>,
}

/// What an [`ObjectChange`] says.
pub struct ChangeView {
    pub kind: ObjectChangeKind,
    pub object: ObjectView,
    pub previous: Option<ObjectView>,
}

impl View for ObjectChange {
    type V = ChangeView;

    open spec fn view(&self) -> ChangeView {
        ChangeView {
            kind: self.kind,
            object: self.object@,
            previous: match self.previous {
                Some(object) => Some(object@),
                None => None,
            },
        }
    }
}

impl Clone for ObjectChange {
    fn clone(&self) -> (copy: Self)
        ensures
            copy@ == self@,
    {
        ObjectChange {
            kind: self.kind,
            object: self.object.clone(),
            previous: match &self.previous {
                Some(object) => Some(object.clone()),
                None => None,
            },
        }
    }
}

/// What the changes of a sequence say.
pub open spec fn changes_view(changes: Seq<ObjectChange>) -> Seq<ChangeView> {
    changes.map_values(|change: ObjectChange| change@)
}

/// What one listing did to a history.
#[derive(Debug, PartialEq, Eq)]
pub struct HistoryUpdate {
    pub changes: Vec<ObjectChange>,
    pub evicted: Vec<S3Object>,
}

/// The objects of the changes of one kind, in order.
pub open spec fn changed_objects(changes: Seq<ChangeView>, kind: ObjectChangeKind) -> Seq<
    ObjectView,
> {
    changes.filter(|change: ChangeView| change.kind == kind).map_values(
        |change: ChangeView| change.object,
    )
}

impl HistoryUpdate {
    fn of_kind(&self, kind: ObjectChangeKind) -> (objects: Vec<&S3Object>)
        ensures
            objects@.map_values(|object: &S3Object| object@) == changed_objects(
                changes_view(self.changes@),
                kind,
            ),
    {
        let ghost changes = changes_view(self.changes@);
        let ghost wanted = |change: ChangeView| change.kind == kind;
        let mut objects: Vec<&S3Object> = Vec::new();
        let mut i: usize = 0;
        assert(changes.take(0).filter(wanted) =~= Seq::empty());
        while i < self.changes.len()
            invariant
                i <= self.changes@.len(),
                changes == changes_view(self.changes@),
                wanted == (|change: ChangeView| change.kind == kind),
                objects@.map_values(|object: &S3Object| object@) == changes.take(i as int).filter(
                    wanted,
                ).map_values(|change: ChangeView| change.object),
            decreases self.changes@.len() - i,
        {
            let change = &self.changes[i];
            let ghost before = changes.take(i as int).filter(wanted);
            let ghost after = changes.take(i + 1).filter(wanted);
            proof {
                assert(changes.take(i + 1).drop_last() =~= changes.take(i as int));
                assert(changes.take(i + 1).last() == change@);
                reveal(Seq::filter);
            }
            if change.kind == kind {
                let ghost earlier = objects@;
                objects.push(&change.object);
                assert(after == before.push(change@));
                assert(objects@.map_values(|object: &S3Object| object@) =~= earlier.map_values(
                    |object: &S3Object| object@,
                ).push(change@.object));
                assert(after.map_values(|change: ChangeView| change.object) =~= before.map_values(
                    |change: ChangeView| change.object,
                ).push(change@.object));
            } else {
                assert(after == before);
            }
            i += 1;
        }
        assert(changes.take(i as int) =~= changes);
        objects
    }

    /// The objects seen for the first time.
    pub fn added(&self) -> (objects: Vec<&S3Object>)
        ensures
            objects@.map_values(|object: &S3Object| object@) == changed_objects(
                changes_view(self.changes@),
                ObjectChangeKind::Added,
            ),
    {
        self.of_kind(ObjectChangeKind::Added)
    }

    /// The objects whose metadata changed.
    pub fn updated(&self) -> (objects: Vec<&S3Object>)
        ensures
            objects@.map_values(|object: &S3Object| object@) == changed_objects(
                changes_view(self.changes@),
                ObjectChangeKind::Updated,
            ),
    {
        self.of_kind(ObjectChangeKind::Updated)
    }

    /// Whether nothing changed and nothing was evicted.
    pub fn is_empty(&self) -> (result: bool)
        ensures
            result == (self.changes@.len() == 0 && self.evicted@.len() == 0),
    {
        self.changes.len() == 0 && self.evicted.len() == 0
    }
}

/// The time between two consecutive arrivals.
#[derive(Clone, Debug, PartialEq)]
pub struct ArrivalInterval {
    pub previous_key: String,
    pub key: String,
    pub previous_arrival: Timestamp,
    pub arrival: Timestamp,
    pub seconds: Ratio,
}

/// What an [`ArrivalInterval`] says.
pub struct IntervalView {
    pub previous_key: Seq<char>,
    pub key: Seq<char>,
    pub previous_arrival: int,
    pub arrival: int,
    pub seconds: Ratio,
}

impl View for ArrivalInterval {
    type V = IntervalView;

    open spec fn view(&self) -> IntervalView {
        IntervalView {
            previous_key: self.previous_key@,
            key: self.key@,
            previous_arrival: self.previous_arrival@,
            arrival: self.arrival@,
            seconds: self.seconds,
        }
    }
}

/// Where an expected interval comes from.
#[derive(Clone, Copy, Debug, PartialEq, Eq, Structural)]
pub enum CadenceSource {
    Configured,
    Learned,
}

/// Whether arrivals keep time.
#[derive(Clone, Copy, Debug, PartialEq, Eq, Structural)]
pub enum FeedHealthStatus {
    Unknown,
    Healthy,
    Late,
}

/// How an arrival's size compares with the feed's recent norm.
///
/// A second, orthogonal axis to [`FeedHealthStatus`]: a feed can arrive exactly
/// on time and still be broken.
#[derive(Clone, Copy, Debug, PartialEq, Eq, Structural)]
pub enum SizeStatus {
    /// Too few observations to judge, or no reference size.
    Unknown,
    Normal,
    /// Zero bytes where the feed normally carries content.
    Empty,
    Small,
    Large,
}

/// One rollup across both health axes, ordered worst-last, so the worst feed in
/// a set is the greatest.
#[derive(Clone, Copy, Debug, PartialEq, Eq, PartialOrd, Ord, Structural)]
pub enum HealthSeverity {
    Unknown,
    Okay,
    Warning,
    Critical,
}

impl HealthSeverity {
    /// The place of a severity in the order, worst last.
    pub open spec fn spec_rank(self) -> int {
        match self {
            HealthSeverity::Unknown => 0,
            HealthSeverity::Okay => 1,
            HealthSeverity::Warning => 2,
            HealthSeverity::Critical => 3,
        }
    }

    /// The place of the severity in the order, worst last.
    pub fn rank(&self) -> (rank: u8)
        ensures
            rank == self.spec_rank(),
    {
        match self {
            HealthSeverity::Unknown => 0,
            HealthSeverity::Okay => 1,
            HealthSeverity::Warning => 2,
            HealthSeverity::Critical => 3,
        }
    }
}

/// Timing and size health of a feed. Durations are exact fractions of a second.
#[derive(Clone, Copy, Debug, PartialEq)]
pub struct FeedHealth {
    pub status: FeedHealthStatus,
    pub cadence_source: Option<CadenceSource>,
    pub expected_interval_seconds: Option<Ratio>,
    pub late_after_seconds: Option<Ratio>,
    pub current_gap_seconds: Option<Ratio>,
    /// The instant the feed became late: the last arrival plus the threshold,
    /// in whole milliseconds. Present only while late.
    ///
    /// This is a pure derivation rather than recorded state, so it is stable
    /// for the whole episode and can identify it.
    pub late_since: Option<Timestamp>,
    /// How far past the threshold the feed is. Present only while late.
    pub overdue_seconds: Option<Ratio>,
    pub size_status: SizeStatus,
    pub severity: HealthSeverity,
}

/// What a [`FeedHealth`] says.
pub struct HealthView {
    pub status: FeedHealthStatus,
    pub cadence_source: Option<CadenceSource>,
    pub expected_interval_seconds: Option<Ratio>,
    pub late_after_seconds: Option<Ratio>,
    pub current_gap_seconds: Option<Ratio>,
    pub late_since: Option<int>,
    pub overdue_seconds: Option<Ratio>,
    pub size_status: SizeStatus,
    pub severity: HealthSeverity,
}

impl View for FeedHealth {
    type V = HealthView;

    open spec fn view(&self) -> HealthView {
        HealthView {
            status: self.status,
            cadence_source: self.cadence_source,
            expected_interval_seconds: self.expected_interval_seconds,
            late_after_seconds: self.late_after_seconds,
            current_gap_seconds: self.current_gap_seconds,
            late_since: instant(self.late_since),
            overdue_seconds: self.overdue_seconds,
            size_status: self.size_status,
            severity: self.severity,
        }
    }
}

/// The nanoseconds of an optional instant.
pub open spec fn instant(at: Option<Timestamp>) -> Option<int> {
    match at {
        Some(moment) => Some(moment@),
        None => None,
    }
}

/// Arrival statistics of a history. Durations and rates are exact fractions.
#[derive(Clone, Copy, Debug, PartialEq)]
pub struct ArrivalStatistics {
    pub as_of: Timestamp,
    pub object_count: usize,
    pub interval_count: usize,
    pub first_arrival: Option<Timestamp>,
    pub last_arrival: Option<Timestamp>,
    pub mean_interval_seconds: Option<Ratio>,
    pub median_interval_seconds: Option<Ratio>,
    pub p95_interval_seconds: Option<Ratio>,
    pub largest_gap_seconds: Option<Ratio>,
    pub current_gap_seconds: Option<Ratio>,
    pub files_per_hour: Option<Ratio>,
    pub files_per_day: Option<Ratio>,
    pub health: FeedHealth,
}

/// What an [`ArrivalStatistics`] says.
pub struct StatisticsView {
    pub as_of: int,
    pub object_count: nat,
    pub interval_count: nat,
    pub first_arrival: Option<int>,
    pub last_arrival: Option<int>,
    pub mean_interval_seconds: Option<Ratio>,
    pub median_interval_seconds: Option<Ratio>,
    pub p95_interval_seconds: Option<Ratio>,
    pub largest_gap_seconds: Option<Ratio>,
    pub current_gap_seconds: Option<Ratio>,
    pub files_per_hour: Option<Ratio>,
    pub files_per_day: Option<Ratio>,
    pub health: HealthView,
}

impl View for ArrivalStatistics {
    type V = StatisticsView;

    open spec fn view(&self) -> StatisticsView {
        StatisticsView {
            as_of: self.as_of@,
            object_count: self.object_count as nat,
            interval_count: self.interval_count as nat,
            first_arrival: instant(self.first_arrival),
            last_arrival: instant(self.last_arrival),
            mean_interval_seconds: self.mean_interval_seconds,
            median_interval_seconds: self.median_interval_seconds,
            p95_interval_seconds: self.p95_interval_seconds,
            largest_gap_seconds: self.largest_gap_seconds,
            current_gap_seconds: self.current_gap_seconds,
            files_per_hour: self.files_per_hour,
            files_per_day: self.files_per_day,
            health: self.health@,
        }
    }
}

/// A history as one value.
#[derive(Debug, PartialEq)]
pub struct HistorySnapshot {
    /// Newest arrivals first; equal timestamps are ordered by key.
    pub objects: Vec<S3Object>,
    /// Oldest interval first, suitable for plotting directly.
    pub intervals: Vec<ArrivalInterval>,
    pub statistics: ArrivalStatistics,
}

/// What a [`HistorySnapshot`] says.
pub struct SnapshotView {
    pub objects: Seq<ObjectView>,
    pub intervals: Seq<IntervalView>,
    pub statistics: StatisticsView,
}

impl View for HistorySnapshot {
    type V = SnapshotView;

    open spec fn view(&self) -> SnapshotView {
        SnapshotView {
            objects: objects_view(self.objects@),
            intervals: self.intervals@.map_values(|interval: ArrivalInterval| interval@),
            statistics: self.statistics@,
        }
    }
}

/// How to reach S3.
#[derive(Clone, Debug, PartialEq, Eq)]
pub struct AwsS3Options {
    pub profile: Option<String>,
    pub region: Option<String>,
}

/// Billable S3 requests a store has issued since it was created.
///
/// These are counts, not money: pricing varies by region, storage class and
/// over time.
#[derive(Clone, Copy, Debug, PartialEq, Eq, Structural)]
pub struct RequestCounts {
    /// ListObjectsV2 calls, counted once per page rather than once per poll,
    /// because each page is separately billable.
    pub list_requests: u64,
    /// GetObject calls issued for downloads.
    pub get_requests: u64,
}

impl Default for RequestCounts {
    fn default() -> (counts: Self)
        ensures
            counts == (RequestCounts { list_requests: 0, get_requests: 0 }),
    {
        RequestCounts { list_requests: 0, get_requests: 0 }
    }
}

/// One object to fetch and where to put it.
#[derive(Debug, PartialEq, Eq)]
pub struct DownloadRequest {
    pub source: S3Uri,
    pub destination: PathBuf,
    pub overwrite: bool,
}

impl DownloadRequest {
    /// A request that does not replace an existing file.
    pub fn new(source: S3Uri, destination: PathBuf) -> (request: Self)
        ensures
            request == (DownloadRequest { source, destination, overwrite: false }),
    {
        DownloadRequest { source, destination, overwrite: false }
    }
}

/// How far a download has come.
#[derive(Clone, Copy, Debug, PartialEq)]
pub struct DownloadProgress {
    pub bytes_transferred: u64,
    pub total_bytes: Option<u64>,
    pub percent: Option<Ratio>,
    pub done: bool,
}

/// The percentage that a transfer has reached, from 0 to 100.
pub open spec fn transfer_percent(transferred: u64, total: Option<u64>, done: bool) -> Option<
    Ratio,
> {
    match total {
        Some(0) => if done {
            Some(Ratio { numerator: 100, denominator: 1 })
        } else {
            None
        },
        Some(bytes) => Some(
            Ratio {
                numerator: (100 * (if transferred < bytes {
                    transferred
                } else {
                    bytes
                })) as u128,
                denominator: bytes as u128,
            },
        ),
        None => None,
    }
}

impl DownloadProgress {
    /// The progress after a number of bytes.
    pub fn new(bytes_transferred: u64, total_bytes: Option<u64>, done: bool) -> (progress: Self)
        ensures
            progress == (DownloadProgress {
                bytes_transferred,
                total_bytes,
                percent: transfer_percent(bytes_transferred, total_bytes, done),
                done,
            }),
    {
        let percent = match total_bytes {
            Some(total) => {
                if total == 0 {
                    if done {
                        Some(Ratio { numerator: 100, denominator: 1 })
                    } else {
                        None
                    }
                } else {
                    let reached: u64 = if bytes_transferred < total {
                        bytes_transferred
                    } else {
                        total
                    };
                    Some(Ratio { numerator: 100 * (reached as u128), denominator: total as u128 })
                }
            },
            None => None,
        };
        DownloadProgress { bytes_transferred, total_bytes, percent, done }
    }
}

/// A transfer never reports more than its whole, and reports the whole once
/// every byte is there.
pub proof fn percent_stays_within_the_whole(transferred: u64, total: u64, done: bool)
    requires
        total > 0,
    ensures
        transfer_percent(transferred, Some(total), done) matches Some(percent)
            && percent.denominator == total && percent.numerator <= 100 * percent.denominator,
        transferred >= total ==> transfer_percent(transferred, Some(total), done)
            == Some(Ratio { numerator: (100 * total) as u128, denominator: total as u128 }),
{
}

/// A finished download.
#[derive(Debug, PartialEq, Eq)]
pub struct DownloadResult {
    pub source: S3Uri,
    pub destination: PathBuf,
    pub bytes_transferred: u64,
    pub etag: Option<String>,
}

/// A completed poll.
#[derive(Debug, PartialEq)]
pub struct PollResult {
    pub polled_at: Timestamp,
    /// Objects retained from the listing after applying the watcher limit;
    /// this is not the bucket's total key count when a prefix exceeds it.
    pub listed_object_count: usize,
    pub update: HistoryUpdate,
    pub snapshot: HistorySnapshot,
}

/// What a polling loop reports.
#[derive(Debug, PartialEq)]
pub enum WatcherEvent {
    Started { watcher_id: String, at: Timestamp },
    PollCompleted { watcher_id: String, result: Box<PollResult> },
    PollFailed { watcher_id: String, at: Timestamp, error: StoreError },
    Stopped { watcher_id: String, at: Timestamp },
}

} // verus!
