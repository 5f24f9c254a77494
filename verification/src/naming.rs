//! The names, codes and defaults by which clients know the library.

use vstd::prelude::*;

use crate::cli;
use crate::conduct::says_something;
use crate::digits;
use crate::download;
use crate::error::{
    ConfigError, FailureFields, StoreError, StoreErrorView, TemplateError, UriParseError,
    WatcherError,
};
use crate::model;
use crate::model::{
    CadenceSource, ChangeView, FeedHealthStatus, HealthSeverity, ObjectChangeKind, S3Object,
    WatcherConfig,
};
use crate::output;
use crate::output::DurationTexts;
use crate::protocol::{
    DataView, ErrorObject, ErrorResponse, Notification, RequestId, SuccessResponse,
};
use crate::runtime;
use crate::runtime::Sessions;
use crate::service;
use crate::service::{Method, ObjectDownloadParams, VersionInfo, WatchDefinition};
use crate::store;
use crate::store::EntryView;
use crate::text;
use crate::time;
use crate::time::Timestamp;
use crate::uri::S3Uri;
use crate::wording;

verus! {

/// A watcher that says nothing else polls every 30 seconds, retains 10,000
/// objects, and looks at one earlier period.
pub proof fn configurations_have_defaults(
    id: String,
    name: String,
    target: S3Uri,
    config: WatcherConfig,
)
    requires
        call_ensures(WatcherConfig::new, (id, name, target), config),
    ensures
        config.id == id,
        config.name == name,
        config.target == target,
        config.profile is None,
        config.region is None,
        config.poll_interval_seconds == 30,
        config.expected_interval_seconds is None,
        config.max_history == 10_000,
        config.lookback_periods == 1,
        config.time_zone is None,
{
}

/// A definition that says nothing else asks for the same as a configuration
/// that says nothing else.
pub proof fn definitions_have_defaults(
    target: String,
    definition: WatchDefinition,
    seconds: u64,
    limit: usize,
    periods: u32,
)
    requires
        call_ensures(WatchDefinition::new, (target,), definition),
        call_ensures(service::default_poll_interval, (), seconds),
        call_ensures(service::default_history_limit, (), limit),
        call_ensures(service::default_lookback_periods, (), periods),
    ensures
        definition.id is None,
        definition.name is None,
        definition.target == target,
        definition.profile is None,
        definition.region is None,
        definition.poll_interval_seconds == 30,
        definition.expected_interval_seconds is None,
        definition.history_limit == 10_000,
        definition.lookback_periods == 1,
        definition.time_zone is None,
        seconds == 30,
        limit == 10_000,
        periods == 1,
{
}

/// The errors of the protocol carry the codes of JSON-RPC, those of the backend
/// codes of its own, and each says in its message what kind it is.
pub proof fn errors_carry_their_codes(text: &str, failure: &StoreError, error: ErrorObject)
    ensures
        call_ensures(ErrorObject::parse_error, (text,), error) ==> {
            &&& error@.code == -32700
            &&& error@.message == "Parse error"@
            &&& error@.data == Some(DataView::Detail(text@))
        },
        call_ensures(ErrorObject::invalid_request, (text,), error) ==> {
            &&& error@.code == -32600
            &&& error@.message == text@
            &&& error@.data is None
        },
        call_ensures(ErrorObject::method_not_found, (text,), error) ==> {
            &&& error@.code == -32601
            &&& error@.message == "Method not found: "@ + text@
            &&& error@.data is None
        },
        call_ensures(ErrorObject::invalid_params, (text,), error) ==> {
            &&& error@.code == -32602
            &&& error@.message == "Invalid params"@
            &&& error@.data == Some(DataView::Detail(text@))
        },
        call_ensures(ErrorObject::internal, (text,), error) ==> {
            &&& error@.code == -32603
            &&& error@.message == "Internal error"@
            &&& error@.data == Some(DataView::Detail(text@))
        },
        call_ensures(ErrorObject::cancelled, (), error) ==> {
            &&& error@.code == -32800
            &&& error@.message == "Request cancelled"@
            &&& error@.data is None
        },
        call_ensures(ErrorObject::backend, (text,), error) ==> {
            &&& error@.code == -32010
            &&& error@.message == "S3 operation failed"@
            &&& error@.data == Some(DataView::Detail(text@))
        },
        call_ensures(ErrorObject::store, (failure,), error) ==> {
            &&& error@.code == -32010
            &&& error@.message == failure.message@
            &&& error@.data == Some(
                DataView::Store {
                    kind: failure.kind,
                    message: failure.message@,
                    retryable: failure.retryable,
                },
            )
        },
{
}

/// Every message says that it is of version 2.0 and what it is about.
pub proof fn messages_state_the_version<T>(
    id: &RequestId,
    value: serde_json::Value,
    error: ErrorObject,
    method: &str,
    params: T,
    success: SuccessResponse,
    failure: ErrorResponse,
    notification: Notification<T>,
)
    requires
        call_ensures(SuccessResponse::new, (id, value), success),
        call_ensures(ErrorResponse::new, (id, error), failure),
        call_ensures(Notification::<T>::new, (method, params), notification),
    ensures
        success.jsonrpc@ == "2.0"@,
        *success.id == *id,
        success.result == value,
        failure.jsonrpc@ == "2.0"@,
        *failure.id == *id,
        failure.error == error,
        notification.jsonrpc@ == "2.0"@,
        notification.method@ == method@,
        notification.params == params,
{
}

/// An identifier is shown with its type; identifiers are the same if they are of
/// one type and one value.
pub proof fn identifiers_are_shown_with_their_type(
    id: &RequestId,
    other: &RequestId,
    text: String,
    same: bool,
)
    requires
        call_ensures(RequestId::to_text, (id,), text),
        call_ensures(RequestId::is_same, (id, other), same),
    ensures
        id matches RequestId::Number(value) ==> text@ == "number:"@ + digits::signed_decimal(
            *value as int,
        ),
        id matches RequestId::String(value) ==> text@ == "string:"@ + value@,
        id is Null ==> text@ == "null"@,
        id matches RequestId::Number(a) ==> (same <==> (other matches RequestId::Number(b) && *a
            == *b)),
        id matches RequestId::String(a) ==> (same <==> (other matches RequestId::String(b) && a@
            == b@)),
        id is Null ==> (same <==> other is Null),
{
}

/// Each method is found by its one name, and no other name is.
pub proof fn methods_are_found_by_name(name: &str, result: Result<Method, ErrorObject>)
    requires
        call_ensures(service::find_method, (name,), result),
    ensures
        name@ == "system.version"@ ==> result is Ok && result->Ok_0 is SystemVersion,
        name@ == "watch.start"@ ==> result is Ok && result->Ok_0 is WatchStart,
        name@ == "watch.stop"@ ==> result is Ok && result->Ok_0 is WatchStop,
        name@ == "watch.status"@ ==> result is Ok && result->Ok_0 is WatchStatus,
        name@ == "objects.list"@ ==> result is Ok && result->Ok_0 is ObjectsList,
        name@ == "statistics.frequency"@ ==> result is Ok && result->Ok_0 is StatisticsFrequency,
        name@ == "statistics.history"@ ==> result is Ok && result->Ok_0 is StatisticsHistory,
        name@ == "object.download"@ ==> result is Ok && result->Ok_0 is ObjectDownload,
        result is Ok ==> {
            ||| name@ == "system.version"@
            ||| name@ == "watch.start"@
            ||| name@ == "watch.stop"@
            ||| name@ == "watch.status"@
            ||| name@ == "objects.list"@
            ||| name@ == "statistics.frequency"@
            ||| name@ == "statistics.history"@
            ||| name@ == "object.download"@
        },
        result matches Err(error) ==> error@.code == -32601 && error@.message
            == "Method not found: "@ + name@,
{
    reveal_strlit("system.version");
    reveal_strlit("watch.start");
    reveal_strlit("watch.stop");
    reveal_strlit("watch.status");
    reveal_strlit("objects.list");
    reveal_strlit("statistics.frequency");
    reveal_strlit("statistics.history");
    reveal_strlit("object.download");
    assert("watch.status"@[2] == 't');
    assert("objects.list"@[2] == 'j');
    assert("watch.start"@.len() == 11);
    assert("watch.stop"@.len() == 10);
    assert("watch.status"@.len() == 12);
    assert("objects.list"@.len() == 12);
    assert("system.version"@.len() == 14);
    assert("object.download"@.len() == 15);
    assert("statistics.frequency"@.len() == 20);
    assert("statistics.history"@.len() == 18);
}

/// The version answer names the program, its protocol, all methods and all
/// notifications.
pub proof fn versions_name_everything(version: &str, info: VersionInfo)
    requires
        call_ensures(service::system_version, (version,), info),
    ensures
        info.name@ == "s3pulse"@,
        info.version@ == version@,
        info.protocol_version == 1,
        info.cancellation,
        info.methods@.len() == 8,
        info.methods@[0]@ == "system.version"@,
        info.methods@[1]@ == "watch.start"@,
        info.methods@[2]@ == "watch.stop"@,
        info.methods@[3]@ == "watch.status"@,
        info.methods@[4]@ == "objects.list"@,
        info.methods@[5]@ == "statistics.frequency"@,
        info.methods@[6]@ == "statistics.history"@,
        info.methods@[7]@ == "object.download"@,
        info.notifications@.len() == 5,
        info.notifications@[0]@ == "objects.added"@,
        info.notifications@[1]@ == "watch.statusChanged"@,
        info.notifications@[2]@ == "statistics.updated"@,
        info.notifications@[3]@ == "download.progress"@,
        info.notifications@[4]@ == "watch.error"@,
{
    let methods = info.methods@.map_values(|name: &'static str| name@);
    let notifications = info.notifications@.map_values(|name: &'static str| name@);
    assert(methods.len() == 8 && notifications.len() == 5);
    assert(methods[0] == info.methods@[0]@);
    assert(methods[1] == info.methods@[1]@);
    assert(methods[2] == info.methods@[2]@);
    assert(methods[3] == info.methods@[3]@);
    assert(methods[4] == info.methods@[4]@);
    assert(methods[5] == info.methods@[5]@);
    assert(methods[6] == info.methods@[6]@);
    assert(methods[7] == info.methods@[7]@);
    assert(notifications[0] == info.notifications@[0]@);
    assert(notifications[1] == info.notifications@[1]@);
    assert(notifications[2] == info.notifications@[2]@);
    assert(notifications[3] == info.notifications@[3]@);
    assert(notifications[4] == info.notifications@[4]@);
}

/// Each category of failure has one stable name, which goes out with the message
/// and with whether it is worth another try.
pub proof fn failures_have_stable_names(error: &StoreError, fields: FailureFields)
    requires
        call_ensures(StoreError::fields, (error,), fields),
    ensures
        fields.message@ == error.message@,
        fields.retryable == error.retryable,
        error.kind is Authentication ==> fields.code@ == "credentials"@,
        error.kind is AccessDenied ==> fields.code@ == "accessDenied"@,
        error.kind is NotFound ==> fields.code@ == "notFound"@,
        error.kind is Network ==> fields.code@ == "network"@,
        error.kind is Cancelled ==> fields.code@ == "cancelled"@,
        error.kind is AlreadyExists ==> fields.code@ == "alreadyExists"@,
        error.kind is InvalidResponse ==> fields.code@ == "invalidResponse"@,
        error.kind is Io ==> fields.code@ == "io"@,
        error.kind is Other ==> fields.code@ == "other"@,
{
}

/// A cancelled operation says so; a failed file operation says which one and
/// why, and tells a file in the way from anything else. Neither is worth another
/// try.
pub proof fn local_failures_say_what_failed(
    operation: &str,
    exists_already: bool,
    detail: &str,
    cancelled: StoreError,
    failed: StoreError,
)
    requires
        call_ensures(StoreError::cancelled, (), cancelled),
        call_ensures(StoreError::io, (operation, exists_already, detail), failed),
    ensures
        cancelled.kind is Cancelled,
        cancelled.message@ == "operation cancelled"@,
        !cancelled.retryable,
        exists_already ==> failed.kind is AlreadyExists,
        !exists_already ==> failed.kind is Io,
        failed.message@ == operation@ + ": "@ + detail@,
        !failed.retryable,
{
}

/// What a user is told of a URI, a template or a configuration that will not do.
pub proof fn refusals_are_put_into_words(
    uri: &UriParseError,
    template: &TemplateError,
    config: &ConfigError,
    watcher: &WatcherError,
    message: String,
)
    ensures
        call_ensures(UriParseError::message, (uri,), message) ==> {
            &&& uri is InvalidScheme ==> message@ == "S3 URI must start with s3://"@
            &&& uri is MissingBucket ==> message@ == "S3 URI is missing a bucket name"@
            &&& uri matches UriParseError::InvalidBucket(bucket) ==> message@
                == "invalid S3 bucket name: "@ + bucket@
            &&& uri is InvalidKey ==> message@
                == "S3 object key/prefix contains a control character"@
        },
        call_ensures(TemplateError::message, (template,), message) ==> {
            &&& template matches TemplateError::UnknownPlaceholder(name) ==> message@
                == "unknown date placeholder {"@ + name@
                + "}; use yyyy, yy, MM, M, dd, d, HH or H"@
            &&& template is MinutesNotMonths ==> message@
                == "{mm} means minutes, not months; use {MM} for a zero-padded month"@
            &&& template is UnclosedPlaceholder ==> message@
                == "a date placeholder is missing its closing brace"@
            &&& template is UnmatchedBrace ==> message@
                == "unmatched } in the target; write }} for a literal brace"@
            &&& template matches TemplateError::UnknownTimeZone(name) ==> message@
                == "unknown time zone: "@ + name@
                + "; use an IANA name such as Australia/Sydney or UTC"@
        },
        call_ensures(ConfigError::message, (config,), message) ==> {
            &&& config is EmptyId ==> message@ == "watcher id cannot be empty"@
            &&& config is EmptyName ==> message@ == "watcher name cannot be empty"@
            &&& config is ZeroPollInterval ==> message@
                == "poll interval must be greater than zero"@
            &&& config is ZeroExpectedInterval ==> message@
                == "expected interval must be greater than zero when configured"@
            &&& config is ZeroHistoryCapacity ==> message@
                == "history capacity must be greater than zero"@
        },
        call_ensures(WatcherError::message, (watcher,), message) ==> {
            &&& watcher matches WatcherError::InvalidConfig(error) ==> message@ == error.text()
            &&& watcher matches WatcherError::InvalidTemplate(error) ==> message@ == error@.text()
            &&& watcher is EventChannelClosed ==> message@ == "watcher event receiver was closed"@
        },
{
}

/// A partial file is hidden beside its destination, under the destination's name
/// and an identifier of its own.
pub proof fn partial_files_are_hidden(file_name: &str, id: &str, named: String, unnamed: String)
    requires
        call_ensures(download::temporary_name_with, (Some(file_name), id), named),
        call_ensures(download::temporary_name_with, (None::<&str>, id), unnamed),
    ensures
        named@ == seq!['.'] + file_name@ + ".s3pulse-"@ + id@ + ".part"@,
        unnamed@ == ".download.s3pulse-"@ + id@ + ".part"@,
{
    reveal_strlit(".");
    reveal_strlit("download");
    reveal_strlit(".s3pulse-");
    reveal_strlit(".download.s3pulse-");
    assert("."@ =~= seq!['.']);
    assert("."@ + "download"@ + ".s3pulse-"@ =~= ".download.s3pulse-"@);
}

/// Severities are ranked from unknown over okay and warning to critical.
pub proof fn severities_are_ranked(severity: &HealthSeverity, rank: u8)
    requires
        call_ensures(HealthSeverity::rank, (severity,), rank),
    ensures
        severity is Unknown <==> rank == 0,
        severity is Okay <==> rank == 1,
        severity is Warning <==> rank == 2,
        severity is Critical <==> rank == 3,
{
}

/// A report says how the feed is and where the cadence comes from, with a capital
/// letter.
pub proof fn reports_say_how_the_feed_is(
    count: nat,
    last_arrival: Option<int>,
    status: FeedHealthStatus,
    source: Option<CadenceSource>,
    durations: DurationTexts,
    name: &str,
    text: String,
)
    requires
        call_ensures(output::title_case, (name,), text),
    ensures
        ({
            let report = output::statistics_report(count, last_arrival, status, source, durations);
            &&& status is Unknown && name@ == "unknown"@ ==> report[7]
                == "Health           Unknown"@
            &&& status is Healthy && name@ == "healthy"@ ==> report[7]
                == "Health           Healthy"@
            &&& status is Late && name@ == "late"@ ==> report[7] == "Health           Late"@
            &&& durations.expected_interval matches Some(expected) ==> {
                let head = "Expected cadence "@ + expected@;
                &&& source is None ==> report[8] == head
                &&& source == Some(CadenceSource::Configured) && name@ == "configured"@
                    ==> report[8] == head + " (Configured)"@
                &&& source == Some(CadenceSource::Learned) && name@ == "learned"@ ==> report[8]
                    == head + " (Learned)"@
            }
        }),
{
    reveal_strlit("unknown");
    reveal_strlit("healthy");
    reveal_strlit("late");
    reveal_strlit("configured");
    reveal_strlit("learned");
    reveal_strlit("Health           ");
    reveal_strlit("Health           Unknown");
    reveal_strlit("Health           Healthy");
    reveal_strlit("Health           Late");
    reveal_strlit(" (");
    reveal_strlit(")");
    reveal_strlit("");
    reveal_strlit(" (Configured)");
    reveal_strlit(" (Learned)");
    let report = output::statistics_report(count, last_arrival, status, source, durations);
    let health = "Health           "@ + text@;
    if name@ == "unknown"@ {
        assert(health =~= "Health           Unknown"@);
    } else if name@ == "healthy"@ {
        assert(health =~= "Health           Healthy"@);
    } else if name@ == "late"@ {
        assert(health =~= "Health           Late"@);
    }
    if let Some(expected) = durations.expected_interval {
        let head = "Expected cadence "@ + expected@;
        let told = " ("@ + text@ + ")"@;
        if name@ == "configured"@ {
            assert(told =~= " (Configured)"@);
        } else if name@ == "learned"@ {
            assert(told =~= " (Learned)"@);
        }
        assert(head + ""@ =~= head);
    }
}

/// Additions and alterations are picked out of the changes in their order.
pub proof fn changes_are_picked_by_kind(
    changes: Seq<ChangeView>,
    next: ChangeView,
    kind: ObjectChangeKind,
)
    ensures
        model::changed_objects(Seq::empty(), kind).len() == 0,
        next.kind == kind ==> model::changed_objects(changes.push(next), kind)
            == model::changed_objects(changes, kind).push(next.object),
        next.kind != kind ==> model::changed_objects(changes.push(next), kind)
            == model::changed_objects(changes, kind),
{
    reveal(Seq::filter);
    let longer = changes.push(next);
    assert(longer.drop_last() =~= changes);
    assert(model::changed_objects(Seq::empty(), kind) =~= Seq::empty());
    if next.kind == kind {
        assert(model::changed_objects(longer, kind) =~= model::changed_objects(changes, kind).push(
            next.object,
        ));
    }
}

/// Whoever gives no duration, an unusable history limit, or an object without a
/// usable name is told so.
pub proof fn command_lines_are_refused_in_words(
    given: &str,
    duration: String,
    limit: String,
    source: &S3Uri,
    destination: String,
    now: &Timestamp,
    last: u64,
    window: String,
)
    ensures
        call_ensures(cli::parse_duration, (given,), Err::<u64, String>(duration))
            && given@.len() == 0 ==> duration@ == "duration cannot be empty"@,
        call_ensures(cli::parse_history_limit, (given,), Err::<usize, String>(limit)) ==> limit@
            == "history limit must be between 1 and 100000"@ || limit@
            == "invalid history limit: "@ + given@,
        call_ensures(cli::default_destination, (source,), Err::<String, String>(destination))
            ==> destination@ == if cli::file_name_of(source@.prefix).len() == 0 {
            "download requires a full S3 object URI"@
        } else {
            "object name is unsafe as a default path; provide an explicit destination"@
        },
        call_ensures(cli::history_cutoff, (now, last), Err::<Timestamp, String>(window)) ==> last
            > 9_223_372_036_854_775 && window@
            == "Source duration value is out of range for the target type"@,
{
    reveal_strlit("history limit must be between 1 and ");
    reveal_strlit("history limit must be between 1 and 100000");
    assert(digits::decimal(100_000) =~= seq!['1', '0', '0', '0', '0', '0']) by {
        reveal_with_fuel(digits::in_base, 7);
    }
    assert("history limit must be between 1 and "@ + digits::decimal(100_000)
        =~= "history limit must be between 1 and 100000"@);
    if given@.len() == 0 {
        assert(text::trimmed(given@) =~= given@);
    }
}

/// A download that was cancelled says so, whatever it had brought.
pub proof fn cancelled_downloads_say_so<T>(result: T, outcome: Result<T, String>)
    requires
        call_ensures(
            cli::download_outcome::<T>,
            (Ok::<T, StoreError>(result), true),
            outcome,
        ),
    ensures
        outcome is Err,
        (outcome->Err_0)@ == "download cancelled"@,
{
}

/// An arrival is printed with its time of day, its size and its key, and with the
/// time since the one before where there is one.
pub proof fn arrivals_are_printed(object: &S3Object, delta: &str, first: String, later: String)
    requires
        call_ensures(output::print_arrival, (object, None::<&str>), first),
        call_ensures(output::print_arrival, (object, Some(delta)), later),
    ensures
        later@ == first@ + "  Δ "@ + delta@,
        first@ == time::clock_text(time::civil_of(object@.at / 1_000_000_000)) + "  "@
            + output::right_aligned(output::bytes_text(object.size as nat), 10) + "  "@
            + output::shown(object@.key),
{
    reveal_strlit("");
    let line = time::clock_text(time::civil_of(object@.at / 1_000_000_000)) + "  "@
        + output::right_aligned(output::bytes_text(object.size as nat), 10) + "  "@ + output::shown(
        object@.key,
    );
    assert(line + ""@ =~= line);
    assert(line + ("  Δ "@ + delta@) =~= line + "  Δ "@ + delta@);
}

/// Parameters that will not do are named, with the greatest value allowed where
/// there is one.
pub proof fn parameters_are_refused_in_words(
    definition: WatchDefinition,
    limit: usize,
    params: ObjectDownloadParams,
)
    ensures
        limit > 1_000 ==> service::limit_fault(limit) == Some("limit cannot exceed 1000"@),
        says_something(definition.target@) && definition.poll_interval_seconds > 0 ==> {
            let fault = service::definition_fault(definition);
            let sized = 1 <= definition.history_limit <= 10_000;
            let unnamed = definition.id is Some && !says_something((definition.id->0)@);
            &&& definition.history_limit > 10_000 ==> fault == Some(
                "watcher.historyLimit cannot exceed 10000"@,
            )
            &&& sized && unnamed ==> fault == Some("watcher.id cannot be empty"@)
            &&& sized && !unnamed && definition.expected_interval_seconds == Some(0u64) ==> fault
                == Some("watcher.expectedIntervalSeconds must be greater than zero"@)
        },
        says_something(params.key@) && params.download_id is Some && !says_something(
            (params.download_id->0)@,
        ) ==> service::download_fault(params) == Some("downloadId cannot be empty"@),
{
    reveal_strlit("limit cannot exceed ");
    reveal_strlit("limit cannot exceed 1000");
    reveal_strlit("watcher.historyLimit cannot exceed ");
    reveal_strlit("watcher.historyLimit cannot exceed 10000");
    assert(digits::decimal(1_000) =~= seq!['1', '0', '0', '0']) by {
        reveal_with_fuel(digits::in_base, 7);
    }
    assert(digits::decimal(10_000) =~= seq!['1', '0', '0', '0', '0']) by {
        reveal_with_fuel(digits::in_base, 7);
    }
    assert("limit cannot exceed "@ + digits::decimal(1_000) =~= "limit cannot exceed 1000"@);
    assert("watcher.historyLimit cannot exceed "@ + digits::decimal(10_000)
        =~= "watcher.historyLimit cannot exceed 10000"@);
}

/// A backend that is full says how many watchers it takes; a key that does not lie
/// under the watcher's prefix is refused as such.
pub proof fn the_backend_refuses_in_words(sessions: Sessions, id: Seq<char>, key: Seq<char>)
    ensures
        !sessions.contains_key(id) && sessions.dom().len() >= 32 ==> {
            let fault = runtime::registration_fault(sessions, id);
            &&& fault is Some
            &&& (fault->0).code == -32003
            &&& (fault->0).message == "Watcher limit reached (32)"@
            &&& (fault->0).data is None
        },
        sessions.contains_key(id) ==> {
            let fault = runtime::registration_fault(sessions, id);
            &&& fault is Some
            &&& (fault->0).code == -32002
            &&& (fault->0).message == "Watcher already exists: "@ + id
        },
        sessions.contains_key(id) && !(exists|after: Seq<char>|
            key == #[trigger] (sessions[id].target.prefix + after)) ==> {
            let fault = runtime::plan_fault(sessions, id, key);
            &&& fault is Some
            &&& (fault->0).code == -32602
            &&& (fault->0).data == Some(DataView::Detail("key is outside the watcher's prefix"@))
        },
{
    reveal_strlit("Watcher limit reached (");
    reveal_strlit(")");
    reveal_strlit("Watcher limit reached (32)");
    assert(digits::decimal(32) =~= seq!['3', '2']) by {
        reveal_with_fuel(digits::in_base, 7);
    }
    assert("Watcher limit reached ("@ + digits::decimal(32) + ")"@
        =~= "Watcher limit reached (32)"@);
    let prefix = sessions[id].target.prefix;
    wording::occurrences_split_a_text(key, prefix);
    if prefix.len() == 0 {
        assert(key =~= prefix + key);
    }
}

/// An entry or a page that the service should not have sent is described, by its
/// key where it has one.
pub proof fn invalid_responses_are_described(entry: EntryView, entries: Seq<EntryView>)
    ensures
        entry.key is None ==> complains(
            store::read_entry(entry),
            "ListObjectsV2 returned an object without a key"@,
        ),
        entry.key matches Some(key) ==> {
            let result = store::read_entry(entry);
            &&& entry.last_modified is None ==> complains(
                result,
                "ListObjectsV2 returned "@ + key + " without LastModified"@,
            )
            &&& entry.last_modified matches Some((seconds, nanos)) ==> {
                let known = nanos < 1_000_000_000 && -8_334_601_228_800 <= seconds
                    <= 8_210_266_876_799;
                &&& !known ==> complains(result, "invalid LastModified for "@ + key)
                &&& known && entry.size is Some && entry.size->0 < 0 ==> complains(
                    result,
                    "ListObjectsV2 returned a negative size for "@ + key,
                )
            }
        },
        store::read_entries(entries) is Ok ==> complains(
            store::read_page(entries, Some(true), None),
            "ListObjectsV2 was truncated but returned no continuation token"@,
        ),
{
}

/// Whether a reading is refused in the given words.
pub open spec fn complains<T>(result: Result<T, StoreErrorView>, message: Seq<char>) -> bool {
    result is Err && (result->Err_0).message == message
}

} // verus!
