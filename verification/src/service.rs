//! The backend's methods: their parameters, how they are checked, and their
//! results.

use std::sync::Arc;

use vstd::prelude::*;

use crate::digits;
use crate::digits::decimal_text;
use crate::model::{
    ArrivalStatistics, FeedHealth, Ratio, RequestCounts, S3Object, DEFAULT_LOOKBACK_PERIODS,
};
use crate::protocol;
use crate::protocol::ErrorObject;
use crate::text;
use crate::text::{is_blank, text_eq};
use crate::time::Timestamp;

verus! {

/// The version of the protocol.
pub const PROTOCOL_VERSION: u32 = 1;

/// Seconds between polls unless given.
pub const DEFAULT_POLL_INTERVAL_SECONDS: u64 = 30;

/// Objects retained unless given.
pub const DEFAULT_HISTORY_LIMIT: usize = 10_000;

/// The most objects that a watcher retains.
pub const MAX_HISTORY_LIMIT: usize = 10_000;

/// The most objects in one response, so that a protocol line stays bounded.
pub const MAX_RESPONSE_OBJECTS: usize = 1_000;

/// Seconds between polls unless given.
pub fn default_poll_interval() -> (seconds: u64)
    ensures
        seconds == DEFAULT_POLL_INTERVAL_SECONDS,
{
    DEFAULT_POLL_INTERVAL_SECONDS
}

/// Objects retained unless given.
pub fn default_history_limit() -> (limit: usize)
    ensures
        limit == DEFAULT_HISTORY_LIMIT,
{
    DEFAULT_HISTORY_LIMIT
}

/// Earlier periods watched unless given.
pub fn default_lookback_periods() -> (periods: u32)
    ensures
        periods == DEFAULT_LOOKBACK_PERIODS,
{
    DEFAULT_LOOKBACK_PERIODS
}

/// Parameters of `watch.start`.
#[derive(Clone, Debug)]
pub struct WatchStartParams {
    pub watcher: WatchDefinition,
}

/// A feed to watch. Only the target is required.
#[derive(Clone, Debug)]
pub struct WatchDefinition {
    pub id: Option<String>,
    pub name: Option<String>,
    pub target: String,
    pub profile: Option<String>,
    pub region: Option<String>,
    pub poll_interval_seconds: u64,
    pub expected_interval_seconds: Option<u64>,
    pub history_limit: usize,
    /// Earlier periods to also watch when the target carries date placeholders.
    pub lookback_periods: u32,
    /// IANA zone the date placeholders resolve in. UTC when absent.
    pub time_zone: Option<String>,
}

/// The first thing wrong with a definition, if anything.
pub open spec fn definition_fault(definition: WatchDefinition) -> Option<Seq<char>> {
    if text::blank(definition.target@) {
        Some("watcher.target cannot be empty"@)
    } else if definition.poll_interval_seconds == 0 {
        Some("watcher.pollIntervalSeconds must be greater than zero"@)
    } else if definition.history_limit == 0 {
        Some("watcher.historyLimit must be greater than zero"@)
    } else if definition.history_limit > MAX_HISTORY_LIMIT {
        Some("watcher.historyLimit cannot exceed "@ + digits::decimal(MAX_HISTORY_LIMIT as nat))
    } else if definition.id is Some && text::blank(definition.id->0@) {
        Some("watcher.id cannot be empty"@)
    } else if definition.expected_interval_seconds == Some(0u64) {
        Some("watcher.expectedIntervalSeconds must be greater than zero"@)
    } else {
        None
    }
}

/// Whether a check passed, or failed with the given explanation.
pub open spec fn checked(result: Result<(), ErrorObject>, fault: Option<Seq<char>>) -> bool {
    match result {
        Ok(()) => fault is None,
        Err(error) => fault is Some && error@ == protocol::params_error(fault->0),
    }
}

impl WatchDefinition {
    /// A definition with every option at its default.
    pub fn new(target: String) -> (definition: Self)
        ensures
            definition == (WatchDefinition {
                id: None,
                name: None,
                target,
                profile: None,
                region: None,
                poll_interval_seconds: DEFAULT_POLL_INTERVAL_SECONDS,
                expected_interval_seconds: None,
                history_limit: DEFAULT_HISTORY_LIMIT,
                lookback_periods: DEFAULT_LOOKBACK_PERIODS,
                time_zone: None,
            }),
    {
        WatchDefinition {
            id: None,
            name: None,
            target,
            profile: None,
            region: None,
            poll_interval_seconds: default_poll_interval(),
            expected_interval_seconds: None,
            history_limit: default_history_limit(),
            lookback_periods: default_lookback_periods(),
            time_zone: None,
        }
    }

    /// Refuses a definition that cannot be watched.
    pub fn validate(&self) -> (result: Result<(), ErrorObject>)
        ensures
            checked(result, definition_fault(*self)),
    {
        if is_blank(self.target.as_str()) {
            return Err(ErrorObject::invalid_params("watcher.target cannot be empty"));
        }
        if self.poll_interval_seconds == 0 {
            return Err(
                ErrorObject::invalid_params(
                    "watcher.pollIntervalSeconds must be greater than zero",
                ),
            );
        }
        if self.history_limit == 0 {
            return Err(
                ErrorObject::invalid_params("watcher.historyLimit must be greater than zero"),
            );
        }
        if self.history_limit > MAX_HISTORY_LIMIT {
            let message = "watcher.historyLimit cannot exceed ".to_owned().concat(
                decimal_text(MAX_HISTORY_LIMIT as u128).as_str(),
            );
            return Err(ErrorObject::invalid_params(message.as_str()));
        }
        if let Some(id) = &self.id {
            if is_blank(id.as_str()) {
                return Err(ErrorObject::invalid_params("watcher.id cannot be empty"));
            }
        }
        if let Some(seconds) = self.expected_interval_seconds {
            if seconds == 0 {
                return Err(
                    ErrorObject::invalid_params(
                        "watcher.expectedIntervalSeconds must be greater than zero",
                    ),
                );
            }
        }
        Ok(())
    }
}

/// Parameters of methods on one watcher.
#[derive(Clone, Debug)]
pub struct WatcherIdParams {
    pub watcher_id: String,
}

/// Parameters of `watch.status`; all watchers without an identifier.
#[derive(Clone, Debug)]
pub struct WatchStatusParams {
    pub watcher_id: Option<String>,
}

impl Default for WatchStatusParams {
    fn default() -> (params: Self)
        ensures
            params.watcher_id is None,
    {
        WatchStatusParams { watcher_id: None }
    }
}

/// Parameters of `objects.list`.
#[derive(Clone, Debug)]
pub struct ObjectsListParams {
    pub watcher_id: String,
    pub limit: Option<usize>,
}

/// Parameters of `statistics.history`.
#[derive(Clone, Debug)]
pub struct StatisticsHistoryParams {
    pub watcher_id: String,
    pub limit: Option<usize>,
}

/// Parameters of `object.download`.
#[derive(Clone, Debug)]
pub struct ObjectDownloadParams {
    pub watcher_id: String,
    pub download_id: Option<String>,
    pub key: String,
    pub destination: String,
    pub overwrite: bool,
}

/// The state of a watcher.
#[derive(Clone, Copy, Debug, PartialEq, Eq, Structural)]
pub enum WatchState {
    Starting,
    Running,
    Stopping,
    Stopped,
    Error,
}

/// Result of `watch.start` and `watch.stop`.
#[derive(Clone, Debug)]
pub struct WatchStartResult {
    pub watcher_id: String,
    pub status: WatchState,
}

/// What is known of one watcher.
#[derive(Clone, Debug)]
pub struct WatcherStatus {
    pub watcher_id: String,
    pub name: String,
    pub target: String,
    pub status: WatchState,
    pub object_count: usize,
    pub request_counts: RequestCounts,
    /// Present once the watcher has completed a poll.
    pub health: Option<FeedHealth>,
    pub last_poll_at: Option<String>,
    pub error: Option<String>,
}

/// Result of `watch.status`.
#[derive(Clone, Debug)]
pub struct WatchStatusResult {
    pub watchers: Vec<WatcherStatus>,
}

/// Result of `objects.list`.
#[derive(Debug)]
pub struct ObjectsListResult {
    pub watcher_id: String,
    pub objects: Vec<S3Object>,
}

/// Result of `statistics.frequency`; no statistics before the first poll.
#[derive(Debug)]
pub struct StatisticsResult {
    pub watcher_id: String,
    pub statistics: Option<ArrivalStatistics>,
    pub request_counts: RequestCounts,
}

/// One arrival of a timeline.
#[derive(Clone, Debug, PartialEq)]
pub struct ArrivalSample {
    pub key: String,
    pub last_modified: Timestamp,
    pub interval_seconds: Option<Ratio>,
}

/// Result of `statistics.history`.
#[derive(Debug)]
pub struct StatisticsHistoryResult {
    pub watcher_id: String,
    pub samples: Vec<ArrivalSample>,
}

/// Result of `object.download`.
#[derive(Clone, Debug)]
pub struct DownloadResult {
    pub watcher_id: String,
    pub download_id: String,
    pub destination: String,
    pub bytes: u64,
}

/// The handler of the backend's methods.
pub struct S3PulseRpc<R> {
    runtime: Arc<R>,
}

impl<R> S3PulseRpc<R> {
    /// What carries the methods out.
    pub closed spec fn runtime_view(&self) -> R {
        *self.runtime
    }

    /// A handler for a runtime.
    pub fn new(runtime: Arc<R>) -> (handler: Self)
        ensures
            handler.runtime_view() == *runtime,
    {
        S3PulseRpc { runtime }
    }

    /// What carries the methods out.
    pub fn runtime(&self) -> (runtime: &Arc<R>)
        ensures
            **runtime == self.runtime_view(),
    {
        &self.runtime
    }
}

/// The methods of the backend.
#[derive(Clone, Copy, Debug, PartialEq, Eq, Structural)]
pub enum Method {
    SystemVersion,
    WatchStart,
    WatchStop,
    WatchStatus,
    ObjectsList,
    StatisticsFrequency,
    StatisticsHistory,
    ObjectDownload,
}

/// The method of a name.
pub open spec fn method_called(name: Seq<char>) -> Option<Method> {
    if name == "system.version"@ {
        Some(Method::SystemVersion)
    } else if name == "watch.start"@ {
        Some(Method::WatchStart)
    } else if name == "watch.stop"@ {
        Some(Method::WatchStop)
    } else if name == "watch.status"@ {
        Some(Method::WatchStatus)
    } else if name == "objects.list"@ {
        Some(Method::ObjectsList)
    } else if name == "statistics.frequency"@ {
        Some(Method::StatisticsFrequency)
    } else if name == "statistics.history"@ {
        Some(Method::StatisticsHistory)
    } else if name == "object.download"@ {
        Some(Method::ObjectDownload)
    } else {
        None
    }
}

/// The method of a name.
pub fn find_method(name: &str) -> (result: Result<Method, ErrorObject>)
    ensures
        match result {
            Ok(method) => method_called(name@) == Some(method),
            Err(error) => method_called(name@) is None && error@ == protocol::plain_error(
                ErrorObject::METHOD_NOT_FOUND,
                "Method not found: "@ + name@,
            ),
        },
{
    if text_eq(name, "system.version") {
        Ok(Method::SystemVersion)
    } else if text_eq(name, "watch.start") {
        Ok(Method::WatchStart)
    } else if text_eq(name, "watch.stop") {
        Ok(Method::WatchStop)
    } else if text_eq(name, "watch.status") {
        Ok(Method::WatchStatus)
    } else if text_eq(name, "objects.list") {
        Ok(Method::ObjectsList)
    } else if text_eq(name, "statistics.frequency") {
        Ok(Method::StatisticsFrequency)
    } else if text_eq(name, "statistics.history") {
        Ok(Method::StatisticsHistory)
    } else if text_eq(name, "object.download") {
        Ok(Method::ObjectDownload)
    } else {
        Err(ErrorObject::method_not_found(name))
    }
}

/// What the backend says of itself.
#[derive(Clone, Debug)]
pub struct VersionInfo {
    pub name: String,
    pub version: String,
    pub protocol_version: u32,
    pub methods: Vec<&'static str>,
    pub notifications: Vec<&'static str>,
    pub cancellation: bool,
}

/// The names of the methods.
pub open spec fn method_names() -> Seq<Seq<char>> {
    seq![
        "system.version"@,
        "watch.start"@,
        "watch.stop"@,
        "watch.status"@,
        "objects.list"@,
        "statistics.frequency"@,
        "statistics.history"@,
        "object.download"@,
    ]
}

/// The names of the notifications.
pub open spec fn notification_names() -> Seq<Seq<char>> {
    seq![
        "objects.added"@,
        "watch.statusChanged"@,
        "statistics.updated"@,
        "download.progress"@,
        "watch.error"@,
    ]
}

/// Answers `system.version`.
pub fn system_version(version: &str) -> (info: VersionInfo)
    ensures
        info.name@ == "s3pulse"@,
        info.version@ == version@,
        info.protocol_version == PROTOCOL_VERSION,
        info.methods@.map_values(|name: &'static str| name@) == method_names(),
        info.notifications@.map_values(|name: &'static str| name@) == notification_names(),
        info.cancellation,
{
    let methods: Vec<&'static str> = vec![
        "system.version",
        "watch.start",
        "watch.stop",
        "watch.status",
        "objects.list",
        "statistics.frequency",
        "statistics.history",
        "object.download",
    ];
    let notifications: Vec<&'static str> = vec![
        "objects.added",
        "watch.statusChanged",
        "statistics.updated",
        "download.progress",
        "watch.error",
    ];
    proof {
        assert(methods@.map_values(|name: &'static str| name@) =~= method_names());
        assert(notifications@.map_values(|name: &'static str| name@) =~= notification_names());
    }
    VersionInfo {
        name: "s3pulse".to_owned(),
        version: version.to_owned(),
        protocol_version: PROTOCOL_VERSION,
        methods,
        notifications,
        cancellation: true,
    }
}

/// Exactly the advertised methods are there.
pub proof fn advertised_methods_are_served(name: Seq<char>)
    ensures
        method_names().contains(name) <==> method_called(name) is Some,
{
    let names = method_names();
    assert(names[0] == "system.version"@ && names[1] == "watch.start"@ && names[2] == "watch.stop"@
        && names[3] == "watch.status"@ && names[4] == "objects.list"@ && names[5]
        == "statistics.frequency"@ && names[6] == "statistics.history"@ && names[7]
        == "object.download"@);
    if names.contains(name) {
        let i = choose|i: int| 0 <= i < names.len() && names[i] == name;
        assert(names.len() == 8);
        assert(i == 0 || i == 1 || i == 2 || i == 3 || i == 4 || i == 5 || i == 6 || i == 7);
    }
}

/// What is wrong with an identifier in parameters.
pub open spec fn watcher_id_fault(watcher_id: Seq<char>) -> Option<Seq<char>> {
    if text::blank(watcher_id) {
        Some("watcherId cannot be empty"@)
    } else {
        None
    }
}

/// Refuses a blank identifier.
pub fn validate_watcher_id(watcher_id: &str) -> (result: Result<(), ErrorObject>)
    ensures
        checked(result, watcher_id_fault(watcher_id@)),
{
    if is_blank(watcher_id) {
        Err(ErrorObject::invalid_params("watcherId cannot be empty"))
    } else {
        Ok(())
    }
}

/// What is wrong with a limit in parameters.
pub open spec fn limit_fault(limit: usize) -> Option<Seq<char>> {
    if limit == 0 {
        Some("limit must be greater than zero"@)
    } else if limit > MAX_RESPONSE_OBJECTS {
        Some("limit cannot exceed "@ + digits::decimal(MAX_RESPONSE_OBJECTS as nat))
    } else {
        None
    }
}

/// Refuses a limit of zero or beyond what a response may hold.
pub fn validate_limit(limit: usize) -> (result: Result<(), ErrorObject>)
    ensures
        checked(result, limit_fault(limit)),
{
    if limit == 0 {
        return Err(ErrorObject::invalid_params("limit must be greater than zero"));
    }
    if limit > MAX_RESPONSE_OBJECTS {
        let message = "limit cannot exceed ".to_owned().concat(
            decimal_text(MAX_RESPONSE_OBJECTS as u128).as_str(),
        );
        return Err(ErrorObject::invalid_params(message.as_str()));
    }
    Ok(())
}

/// A method with its parameters.
#[derive(Debug)]
pub enum Call {
    SystemVersion,
    WatchStart(WatchStartParams),
    WatchStop(WatcherIdParams),
    WatchStatus(WatchStatusParams),
    ObjectsList(ObjectsListParams),
    StatisticsFrequency(WatcherIdParams),
    StatisticsHistory(StatisticsHistoryParams),
    ObjectDownload(ObjectDownloadParams),
}

/// What the runtime is asked for.
#[derive(Debug)]
pub enum Operation {
    SystemVersion,
    WatchStart(WatchDefinition),
    WatchStop { watcher_id: String },
    WatchStatus { watcher_id: Option<String> },
    ObjectsList { watcher_id: String, limit: usize },
    StatisticsFrequency { watcher_id: String },
    StatisticsHistory { watcher_id: String, limit: usize },
    ObjectDownload(ObjectDownloadParams),
}

/// A limit that is not given is the greatest.
pub open spec fn effective_limit(limit: Option<usize>) -> usize {
    match limit {
        Some(given) => given,
        None => MAX_RESPONSE_OBJECTS,
    }
}

/// The first of two faults.
pub open spec fn either_fault(first: Option<Seq<char>>, second: Option<Seq<char>>) -> Option<
    Seq<char>,
> {
    if first is Some {
        first
    } else {
        second
    }
}

/// What is wrong with a download's own parameters.
pub open spec fn download_fault(params: ObjectDownloadParams) -> Option<Seq<char>> {
    if text::blank(params.key@) {
        Some("key cannot be empty"@)
    } else if params.download_id is Some && text::blank(params.download_id->0@) {
        Some("downloadId cannot be empty"@)
    } else if params.destination@.len() == 0 {
        Some("destination cannot be empty"@)
    } else {
        None
    }
}

/// The first thing wrong with a call, if anything.
pub open spec fn call_fault(call: Call) -> Option<Seq<char>> {
    match call {
        Call::SystemVersion => None,
        Call::WatchStart(params) => definition_fault(params.watcher),
        Call::WatchStop(params) => watcher_id_fault(params.watcher_id@),
        Call::WatchStatus(params) => match params.watcher_id {
            Some(watcher_id) => watcher_id_fault(watcher_id@),
            None => None,
        },
        Call::ObjectsList(params) => either_fault(
            watcher_id_fault(params.watcher_id@),
            limit_fault(effective_limit(params.limit)),
        ),
        Call::StatisticsFrequency(params) => watcher_id_fault(params.watcher_id@),
        Call::StatisticsHistory(params) => either_fault(
            watcher_id_fault(params.watcher_id@),
            limit_fault(effective_limit(params.limit)),
        ),
        Call::ObjectDownload(params) => either_fault(
            watcher_id_fault(params.watcher_id@),
            download_fault(params),
        ),
    }
}

/// What a call asks the runtime for.
pub open spec fn operation_of(call: Call) -> Operation {
    match call {
        Call::SystemVersion => Operation::SystemVersion,
        Call::WatchStart(params) => Operation::WatchStart(params.watcher),
        Call::WatchStop(params) => Operation::WatchStop { watcher_id: params.watcher_id },
        Call::WatchStatus(params) => Operation::WatchStatus { watcher_id: params.watcher_id },
        Call::ObjectsList(params) => Operation::ObjectsList {
            watcher_id: params.watcher_id,
            limit: effective_limit(params.limit),
        },
        Call::StatisticsFrequency(params) => Operation::StatisticsFrequency {
            watcher_id: params.watcher_id,
        },
        Call::StatisticsHistory(params) => Operation::StatisticsHistory {
            watcher_id: params.watcher_id,
            limit: effective_limit(params.limit),
        },
        Call::ObjectDownload(params) => Operation::ObjectDownload(params),
    }
}

/// Checks a call before the runtime sees it.
pub fn check_call(call: Call) -> (result: Result<Operation, ErrorObject>)
    ensures
        match result {
            Ok(operation) => call_fault(call) is None && operation == operation_of(call),
            Err(error) => call_fault(call) is Some && error@ == protocol::params_error(
                call_fault(call)->0,
            ),
        },
{
    match call {
        Call::SystemVersion => Ok(Operation::SystemVersion),
        Call::WatchStart(params) => {
            if let Err(error) = params.watcher.validate() {
                return Err(error);
            }
            Ok(Operation::WatchStart(params.watcher))
        },
        Call::WatchStop(params) => {
            if let Err(error) = validate_watcher_id(params.watcher_id.as_str()) {
                return Err(error);
            }
            Ok(Operation::WatchStop { watcher_id: params.watcher_id })
        },
        Call::WatchStatus(params) => {
            if let Some(watcher_id) = &params.watcher_id {
                if let Err(error) = validate_watcher_id(watcher_id.as_str()) {
                    return Err(error);
                }
            }
            Ok(Operation::WatchStatus { watcher_id: params.watcher_id })
        },
        Call::ObjectsList(params) => {
            match check_limited(params.watcher_id.as_str(), params.limit) {
                Ok(limit) => Ok(Operation::ObjectsList { watcher_id: params.watcher_id, limit }),
                Err(error) => Err(error),
            }
        },
        Call::StatisticsFrequency(params) => {
            if let Err(error) = validate_watcher_id(params.watcher_id.as_str()) {
                return Err(error);
            }
            Ok(Operation::StatisticsFrequency { watcher_id: params.watcher_id })
        },
        Call::StatisticsHistory(params) => {
            match check_limited(params.watcher_id.as_str(), params.limit) {
                Ok(limit) => Ok(
                    Operation::StatisticsHistory { watcher_id: params.watcher_id, limit },
                ),
                Err(error) => Err(error),
            }
        },
        Call::ObjectDownload(params) => {
            if let Err(error) = validate_watcher_id(params.watcher_id.as_str()) {
                return Err(error);
            }
            if is_blank(params.key.as_str()) {
                return Err(ErrorObject::invalid_params("key cannot be empty"));
            }
            if let Some(download_id) = &params.download_id {
                if is_blank(download_id.as_str()) {
                    return Err(ErrorObject::invalid_params("downloadId cannot be empty"));
                }
            }
            if params.destination.as_str().is_empty() {
                return Err(ErrorObject::invalid_params("destination cannot be empty"));
            }
            Ok(Operation::ObjectDownload(params))
        },
    }
}

fn check_limited(watcher_id: &str, limit: Option<usize>) -> (result: Result<usize, ErrorObject>)
    ensures
        ({
            let fault = either_fault(
                watcher_id_fault(watcher_id@),
                limit_fault(effective_limit(limit)),
            );
            match result {
                Ok(effective) => fault is None && effective == effective_limit(limit),
                Err(error) => fault is Some && error@ == protocol::params_error(fault->0),
            }
        }),
{
    if let Err(error) = validate_watcher_id(watcher_id) {
        return Err(error);
    }
    let effective: usize = match limit {
        Some(given) => given,
        None => MAX_RESPONSE_OBJECTS,
    };
    if let Err(error) = validate_limit(effective) {
        return Err(error);
    }
    Ok(effective)
}

/// Every limit that reaches the runtime keeps a response within bounds.
pub proof fn responses_stay_bounded(call: Call)
    requires
        call_fault(call) is None,
    ensures
        operation_of(call) matches Operation::ObjectsList { limit, .. } ==> 0 < limit
            <= MAX_RESPONSE_OBJECTS,
        operation_of(call) matches Operation::StatisticsHistory { limit, .. } ==> 0 < limit
            <= MAX_RESPONSE_OBJECTS,
        operation_of(call) matches Operation::WatchStart(definition) ==> 0
            < definition.history_limit <= MAX_HISTORY_LIMIT,
{
}

} // verus!
