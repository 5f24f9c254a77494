//! How the backend promises to conduct itself: what it refuses and why, what it
//! announces, and how its watchers go about their work.

use vstd::prelude::*;

use crate::error::{ConfigError, StoreError, StoreErrorView, WatcherFault};
use crate::model;
use crate::model::{PollResult, RequestCounts, S3Object, WatcherConfig};
use crate::periods;
use crate::protocol;
use crate::protocol::{DataView, ErrorObjectView, IdView, RequestId};
use crate::runtime;
use crate::runtime::{NoticeView, SessionView, Sessions};
use crate::service;
use crate::service::{Call, Method, ObjectDownloadParams, Operation, WatchDefinition, WatchState};
use crate::template;
use crate::text;
use crate::time;
use crate::time::Civil;
use crate::transport;
use crate::transport::{AdmissionView, ConnectionView, LineView};
use crate::uri;
use crate::uri::UriView;
use crate::watcher;
use crate::watcher::{LifecycleView, RunActionView, RunSignal, RunStage};
use crate::wording;

verus! {

/// Whether a text says something.
pub open spec fn says_something(value: Seq<char>) -> bool {
    exists|i: int| 0 <= i < value.len() && !text::white_space(#[trigger] value[i])
}

proof fn blank_texts_say_nothing(value: Seq<char>)
    ensures
        text::blank(value) <==> !says_something(value),
{
}

/// Whether a limit is not given or from 1 to 1,000.
pub open spec fn within_a_thousand(limit: Option<usize>) -> bool {
    limit matches Some(given) ==> 1 <= given <= 1_000
}

/// A call is carried out exactly if it names what it is about and asks for no
/// more than the backend gives.
pub proof fn sound_calls_are_carried_out(call: Call)
    ensures
        service::call_fault(call) is None <==> match call {
            Call::SystemVersion => true,
            Call::WatchStart(params) => {
                let watcher = params.watcher;
                &&& says_something(watcher.target@)
                &&& watcher.poll_interval_seconds > 0
                &&& 1 <= watcher.history_limit <= 10_000
                &&& watcher.id matches Some(id) ==> says_something(id@)
                &&& watcher.expected_interval_seconds matches Some(seconds) ==> seconds > 0
            },
            Call::WatchStop(params) => says_something(params.watcher_id@),
            Call::WatchStatus(params) => params.watcher_id matches Some(id) ==> says_something(
                id@,
            ),
            Call::ObjectsList(params) => says_something(params.watcher_id@) && within_a_thousand(
                params.limit,
            ),
            Call::StatisticsFrequency(params) => says_something(params.watcher_id@),
            Call::StatisticsHistory(params) => says_something(params.watcher_id@)
                && within_a_thousand(params.limit),
            Call::ObjectDownload(params) => {
                &&& says_something(params.watcher_id@)
                &&& says_something(params.key@)
                &&& params.download_id matches Some(id) ==> says_something(id@)
                &&& params.destination@.len() > 0
            },
        },
{
    match call {
        Call::WatchStart(params) => {
            blank_texts_say_nothing(params.watcher.target@);
            if params.watcher.id is Some {
                blank_texts_say_nothing((params.watcher.id->0)@);
            }
        },
        Call::WatchStatus(params) => {
            if params.watcher_id is Some {
                blank_texts_say_nothing((params.watcher_id->0)@);
            }
        },
        Call::ObjectDownload(params) => {
            blank_texts_say_nothing(params.key@);
            if params.download_id is Some {
                blank_texts_say_nothing((params.download_id->0)@);
            }
        },
        _ => {},
    }
}

/// What is wrong with a call is said of the part that is wrong.
pub proof fn refusals_name_the_part(
    watcher_id: Seq<char>,
    limit: usize,
    definition: WatchDefinition,
    params: ObjectDownloadParams,
)
    ensures
        !says_something(watcher_id) ==> service::watcher_id_fault(watcher_id) == Some(
            "watcherId cannot be empty"@,
        ),
        limit == 0 ==> service::limit_fault(limit) == Some("limit must be greater than zero"@),
        !says_something(definition.target@) ==> service::definition_fault(definition) == Some(
            "watcher.target cannot be empty"@,
        ),
        says_something(definition.target@) && definition.poll_interval_seconds == 0
            ==> service::definition_fault(definition) == Some(
            "watcher.pollIntervalSeconds must be greater than zero"@,
        ),
        says_something(definition.target@) && definition.poll_interval_seconds > 0
            && definition.history_limit == 0 ==> service::definition_fault(definition) == Some(
            "watcher.historyLimit must be greater than zero"@,
        ),
        !says_something(params.key@) ==> service::download_fault(params) == Some(
            "key cannot be empty"@,
        ),
        says_something(params.key@) && params.destination@.len() == 0 && params.download_id is None
            ==> service::download_fault(params) == Some("destination cannot be empty"@),
{
    blank_texts_say_nothing(watcher_id);
    blank_texts_say_nothing(definition.target@);
    blank_texts_say_nothing(params.key@);
}

/// What is carried out is what the call asks for; a limit that is not given is
/// 1,000.
pub proof fn calls_are_carried_out_as_asked(call: Call)
    ensures
        match (call, service::operation_of(call)) {
            (Call::SystemVersion, Operation::SystemVersion) => true,
            (Call::WatchStart(params), Operation::WatchStart(watcher)) => watcher
                == params.watcher,
            (Call::WatchStop(params), Operation::WatchStop { watcher_id }) => watcher_id
                == params.watcher_id,
            (Call::WatchStatus(params), Operation::WatchStatus { watcher_id }) => watcher_id
                == params.watcher_id,
            (Call::ObjectsList(params), Operation::ObjectsList { watcher_id, limit }) => {
                &&& watcher_id == params.watcher_id
                &&& params.limit matches Some(given) ==> limit == given
                &&& params.limit is None ==> limit == 1_000
            },
            (
                Call::StatisticsFrequency(params),
                Operation::StatisticsFrequency { watcher_id },
            ) => watcher_id == params.watcher_id,
            (Call::StatisticsHistory(params), Operation::StatisticsHistory { watcher_id, limit }) => {
                &&& watcher_id == params.watcher_id
                &&& params.limit matches Some(given) ==> limit == given
                &&& params.limit is None ==> limit == 1_000
            },
            (Call::ObjectDownload(params), Operation::ObjectDownload(asked)) => asked == params,
            _ => false,
        },
{
}

/// Every method answers to its own name.
pub proof fn methods_answer_to_their_names()
    ensures
        service::method_called("system.version"@) == Some(Method::SystemVersion),
        service::method_called("watch.start"@) == Some(Method::WatchStart),
        service::method_called("watch.stop"@) == Some(Method::WatchStop),
        service::method_called("watch.status"@) == Some(Method::WatchStatus),
        service::method_called("objects.list"@) == Some(Method::ObjectsList),
        service::method_called("statistics.frequency"@) == Some(Method::StatisticsFrequency),
        service::method_called("statistics.history"@) == Some(Method::StatisticsHistory),
        service::method_called("object.download"@) == Some(Method::ObjectDownload),
{
    reveal_strlit("system.version");
    reveal_strlit("watch.start");
    reveal_strlit("watch.stop");
    reveal_strlit("watch.status");
    reveal_strlit("objects.list");
    reveal_strlit("statistics.frequency");
    reveal_strlit("statistics.history");
    reveal_strlit("object.download");
    assert("system.version"@.len() == 14 && "watch.start"@.len() == 11 && "watch.stop"@.len()
        == 10);
    assert("watch.status"@.len() == 12 && "objects.list"@.len() == 12);
    assert("statistics.frequency"@.len() == 20 && "statistics.history"@.len() == 18);
    assert("object.download"@.len() == 15);
    assert("watch.status"@[0] == 'w' && "objects.list"@[0] == 'o');
}

/// Errors have the codes that clients know.
pub proof fn errors_have_known_codes(error: StoreErrorView, detail: Seq<char>, id: Seq<char>)
    ensures
        protocol::cancelled_error().code == -32800,
        protocol::params_error(detail).code == -32602,
        protocol::params_error(detail).data == Some(DataView::Detail(detail)),
        protocol::store_error(error).code == -32010,
        protocol::store_error(error).message == error.message,
        protocol::store_error(error).data == Some(
            DataView::Store {
                kind: error.kind,
                message: error.message,
                retryable: error.retryable,
            },
        ),
        runtime::not_found(id).code == -32001,
        runtime::not_found(id).message == "Watcher not found: "@ + id,
{
}

/// A request starts exactly if it is one, is new, does not cancel another and
/// there is room. Else whoever can be answered is told why: with the request's own
/// identifier, or with none if it is malformed and has none.
pub proof fn requests_start_where_there_is_room(
    connection: ConnectionView,
    version: Seq<char>,
    id: Option<RequestId>,
    method: Seq<char>,
)
    ensures
        ({
            let sound = version == "2.0"@ && method.len() > 0;
            let cancels = method == "$/cancelRequest"@;
            let room = connection.running < connection.limit;
            let repeated = id is Some && connection.in_flight.contains((id->0)@);
            let admitted = transport::admission(connection, version, id, method);
            &&& admitted is Start <==> sound && !cancels && room && !repeated
            &&& admitted is Cancel <==> sound && cancels
            &&& admitted is Ignore <==> sound && !cancels && !room && id is None
            &&& admitted matches AdmissionView::Reply { id: to, error } ==> {
                &&& to == match id {
                    Some(given) => given@,
                    None => IdView::Null,
                }
                &&& !sound ==> error.code == -32600
                &&& sound ==> id is Some
                &&& sound && !room ==> error.code == -32000
                &&& sound && room ==> error.code == -32600
            }
        }),
{
}

/// A request that starts counts and is in flight; one that does not changes
/// nothing. The end of one makes room, its answer frees its identifier.
pub proof fn requests_are_accounted_for(
    connection: ConnectionView,
    version: Seq<char>,
    id: Option<RequestId>,
    method: Seq<char>,
    other: IdView,
)
    ensures
        ({
            let admitted = transport::admission(connection, version, id, method);
            let after = transport::after_admission(connection, admitted, id);
            &&& after.limit == connection.limit
            &&& admitted is Start ==> after.running == connection.running + 1
            &&& admitted is Start ==> (after.in_flight.contains(other)
                <==> connection.in_flight.contains(other) || id is Some && (id->0)@ == other)
            &&& admitted !is Start ==> after == connection
        }),
{
    let admitted = transport::admission(connection, version, id, method);
    let after = transport::after_admission(connection, admitted, id);
    if admitted is Start && id is Some {
        let longer = connection.in_flight.push((id->0)@);
        assert(longer[longer.len() - 1] == (id->0)@);
        if connection.in_flight.contains(other) {
            let i = choose|i: int|
                0 <= i < connection.in_flight.len() && connection.in_flight[i] == other;
            assert(longer[i] == other);
        }
        if longer.contains(other) && (id->0)@ != other {
            let i = choose|i: int| 0 <= i < longer.len() && longer[i] == other;
            assert(connection.in_flight[i] == other);
        }
    }
}

/// A line ends with the first newline, which belongs to it. It is complete if it
/// has at most 8 MiB and else too large, however it arrived.
pub proof fn lines_end_with_a_newline(line: Seq<u8>, rest: Seq<u8>, held: Seq<u8>)
    requires
        forall|i: int| 0 <= i < line.len() ==> #[trigger] line[i] != 10,
    ensures
        ({
            let whole = line.push(10);
            let chunk = whole + rest;
            let after = transport::held_after(Some(held), whole);
            &&& transport::line_part(chunk) == whole
            &&& transport::newline_at(chunk) == line.len()
            &&& transport::line_part(line) == line
            &&& transport::newline_at(line) == line.len()
            &&& transport::ended(after) == if held.len() + whole.len() <= 8 * 1_024 * 1_024 {
                LineView::Complete(held + whole)
            } else {
                LineView::TooLarge
            }
            &&& transport::held_after(None, whole) is None
        }),
{
    let whole = line.push(10);
    let chunk = whole + rest;
    assert(chunk =~= line + (seq![10u8] + rest));
    no_newline(line);
    transport::chunking_does_not_matter(None, line, seq![10u8] + rest);
    let tail = seq![10u8] + rest;
    assert(tail[0] == 10);
    assert(transport::line_part(tail) =~= seq![10u8]);
    assert(line + seq![10u8] =~= whole);
}

proof fn no_newline(line: Seq<u8>)
    requires
        forall|i: int| 0 <= i < line.len() ==> #[trigger] line[i] != 10,
    ensures
        transport::newline_at(line) == line.len(),
    decreases line.len(),
{
    if line.len() > 0 {
        let rest = line.skip(1);
        assert(line[0] != 10);
        assert forall|i: int| 0 <= i < rest.len() implies #[trigger] rest[i] != 10 by {
            assert(rest[i] == line[i + 1]);
        }
        no_newline(rest);
    }
}

/// A line that cannot be read is answered with why: it is too long, or no JSON.
pub proof fn unreadable_lines_are_explained(
    line: LineView,
    outcome: Result<serde_json::Value, Seq<char>>,
)
    ensures
        ({
            let fault = transport::line_fault(line, outcome);
            &&& line is TooLarge ==> fault is Some && (fault->0).code == -32600
            &&& line is Complete && outcome is Err ==> fault == Some(
                ErrorObjectView {
                    code: (-32700) as i32,
                    message: "Parse error"@,
                    data: Some(DataView::Detail(outcome->Err_0)),
                },
            )
            &&& line is Complete && outcome is Ok ==> fault is None
            &&& line is Eof ==> fault is None
        }),
{
}

/// A watcher can be registered exactly if its identifier is free and fewer than
/// 32 watch already; else it is said which of the two.
pub proof fn registration_needs_a_free_name_and_room(sessions: Sessions, watcher_id: Seq<char>)
    ensures
        ({
            let fault = runtime::registration_fault(sessions, watcher_id);
            let taken = sessions.contains_key(watcher_id);
            &&& fault is None <==> !taken && sessions.dom().len() < 32
            &&& taken ==> fault is Some && (fault->0).code == -32002 && (fault->0).message
                == "Watcher already exists: "@ + watcher_id
            &&& !taken && fault is Some ==> (fault->0).code == -32003
        }),
{
}

/// A start goes ahead unless it was cancelled, cannot be registered, has no store
/// or makes no sense. A setting that it leaves open is that of the backend.
pub proof fn starts_go_ahead_unless_hindered(
    sessions: Sessions,
    definition: WatchDefinition,
    watcher_id: Seq<char>,
    cancelled: bool,
    config: WatcherConfig,
    store: Result<(), String>,
    profile: Option<Seq<char>>,
    region: Option<Seq<char>>,
)
    ensures
        runtime::start_fault(sessions, definition, watcher_id, cancelled) is None <==> !cancelled
            && runtime::registration_fault(sessions, watcher_id) is None && uri::read_uri(
            definition.target@,
        ) is Ok,
        runtime::launch_fault(sessions, config, store, cancelled) is None <==> store is Ok
            && !cancelled && watcher::watcher_fault(config) is None && runtime::registration_fault(
            sessions,
            config.id@,
        ) is None,
        cancelled ==> runtime::start_fault(sessions, definition, watcher_id, cancelled) is Some && (
        runtime::start_fault(sessions, definition, watcher_id, cancelled)->0).code == -32800,
        store is Err ==> runtime::launch_fault(sessions, config, store, cancelled) is Some && (
        runtime::launch_fault(sessions, config, store, cancelled)->0).code == -32010,
        runtime::configures(config, definition, watcher_id, profile, region) ==> {
            &&& config.id@ == watcher_id
            &&& definition.profile is None ==> text::optional_view(config.profile) == profile
            &&& definition.profile matches Some(given) ==> text::optional_view(config.profile)
                == Some(given@)
            &&& definition.region is None ==> text::optional_view(config.region) == region
            &&& definition.region matches Some(given) ==> text::optional_view(config.region)
                == Some(given@)
            &&& definition.name matches Some(given) ==> config.name@ == given@
            &&& definition.name is None ==> config.name@ == uri::uri_text(config.target@)
            &&& config.poll_interval_seconds == definition.poll_interval_seconds
            &&& config.expected_interval_seconds == definition.expected_interval_seconds
            &&& config.max_history == definition.history_limit
            &&& config.lookback_periods == definition.lookback_periods
            &&& text::optional_view(config.time_zone) == text::optional_view(definition.time_zone)
        },
{
}

/// Whether a key lies under a prefix.
pub open spec fn lies_under(key: Seq<char>, prefix: Seq<char>) -> bool {
    exists|rest: Seq<char>| key == #[trigger] (prefix + rest)
}

/// Only what lies under a watcher's prefix can be downloaded through it, and only
/// what names an object.
pub proof fn downloads_stay_under_the_prefix(
    sessions: Sessions,
    watcher_id: Seq<char>,
    key: Seq<char>,
)
    ensures
        ({
            let fault = runtime::plan_fault(sessions, watcher_id, key);
            let target = sessions[watcher_id].target;
            &&& fault is None <==> sessions.contains_key(watcher_id) && lies_under(
                key,
                target.prefix,
            ) && uri::uri_fault(target.bucket, key) is None
            &&& !sessions.contains_key(watcher_id) ==> fault is Some && (fault->0).code == -32001
            &&& sessions.contains_key(watcher_id) && fault is Some ==> (fault->0).code == -32602
        }),
{
    let target = sessions[watcher_id].target;
    wording::occurrences_split_a_text(key, target.prefix);
    if target.prefix.len() == 0 {
        assert(key =~= target.prefix + key);
    }
}

/// A bucket is named by 1 to 255 bytes without white space, control characters,
/// slashes, question and number signs, and is no directory; a key holds no control
/// characters.
pub proof fn uris_name_buckets_and_keys(bucket: Seq<char>, prefix: Seq<char>)
    ensures
        uri::uri_fault(bucket, prefix) is None <==> {
            &&& 1 <= bucket.len()
            &&& vstd::utf8::encode_utf8(bucket).len() <= 255
            &&& bucket != "."@
            &&& bucket != ".."@
            &&& forall|i: int|
                0 <= i < bucket.len() ==> !text::white_space(#[trigger] bucket[i])
                    && !text::control(bucket[i]) && bucket[i] != '/' && bucket[i] != '\\'
                    && bucket[i] != '?' && bucket[i] != '#'
            &&& forall|i: int| 0 <= i < prefix.len() ==> !text::control(#[trigger] prefix[i])
        },
{
    if !uri::has_unsafe(bucket) {
        assert forall|i: int| 0 <= i < bucket.len() implies !text::white_space(#[trigger] bucket[i])
            && !text::control(bucket[i]) && bucket[i] != '/' && bucket[i] != '\\' && bucket[i]
            != '?' && bucket[i] != '#' by {
            assert(!uri::unsafe_in_bucket(bucket[i]));
        }
    }
}

/// A good poll is announced by what changed, in order and without gaps, and then
/// by the statistics; first of all, if the watcher had failed, that it runs again.
/// A failed poll is announced by its error and that the watcher has failed.
pub proof fn polls_are_announced(
    watcher_id: Seq<char>,
    state: WatchState,
    counts: RequestCounts,
    outcome: Result<PollResult, StoreError>,
)
    ensures
        ({
            let notices = runtime::poll_notices(watcher_id, state, counts, outcome);
            match outcome {
                Ok(poll) => {
                    &&& notices.len() > 0
                    &&& notices.last() == NoticeView::StatisticsUpdated {
                        watcher_id,
                        statistics: poll.snapshot.statistics@,
                        request_counts: counts,
                    }
                    &&& runtime::unbatched(notices) == model::changes_view(poll.update.changes@)
                    &&& notices[0] is StatusChanged <==> state == WatchState::Error
                    &&& state == WatchState::Error ==> notices[0] == NoticeView::StatusChanged {
                        watcher_id,
                        status: WatchState::Running,
                    }
                },
                Err(error) => notices == seq![
                    NoticeView::WatchFailed { watcher_id, error: error@ },
                    NoticeView::StatusChanged { watcher_id, status: WatchState::Error },
                ],
            }
        }),
{
    if let Ok(poll) = outcome {
        let changes = model::changes_view(poll.update.changes@);
        let batches = runtime::batched(watcher_id, changes);
        let notices = runtime::poll_notices(watcher_id, state, counts, outcome);
        runtime::batches_hold_every_change(watcher_id, changes);
        let last = NoticeView::StatisticsUpdated {
            watcher_id,
            statistics: poll.snapshot.statistics@,
            request_counts: counts,
        };
        unbatching_skips_others(batches, last);
        if state == WatchState::Error {
            assert(notices.skip(1) =~= batches.push(last));
        } else {
            assert(notices =~= batches.push(last));
            if batches.len() > 0 {
                assert(notices[0] == batches[0]);
            }
        }
    }
}

proof fn unbatching_skips_others(batches: Seq<NoticeView>, last: NoticeView)
    requires
        last !is ObjectsAdded,
    ensures
        runtime::unbatched(batches.push(last)) == runtime::unbatched(batches),
    decreases batches.len(),
{
    let all = batches.push(last);
    if batches.len() == 0 {
        assert(all.skip(1) =~= Seq::empty());
        reveal_with_fuel(runtime::unbatched, 2);
    } else {
        assert(all.skip(1) =~= batches.skip(1).push(last));
        assert(all[0] == batches[0]);
        unbatching_skips_others(batches.skip(1), last);
    }
}

/// A good poll replaces what is known of a watcher; a failed one leaves it and
/// its date, and notes what went wrong. Neither changes which watcher it is.
pub proof fn polls_are_recorded(
    session: SessionView,
    counts: RequestCounts,
    outcome: Result<PollResult, StoreError>,
)
    ensures
        ({
            let after = runtime::polled_session(session, counts, outcome);
            &&& after.serial == session.serial
            &&& after.name == session.name
            &&& after.target == session.target
            &&& after.request_counts == counts
            &&& match outcome {
                Ok(poll) => {
                    &&& after.snapshot == Some(poll.snapshot@)
                    &&& after.last_poll_at == Some(poll.polled_at@)
                    &&& after.state == WatchState::Running
                    &&& after.error is None
                },
                Err(error) => {
                    &&& after.snapshot == session.snapshot
                    &&& after.last_poll_at == session.last_poll_at
                    &&& after.state == WatchState::Error
                    &&& after.error == Some(error.message@)
                },
            }
        }),
{
}

/// The last of a sequence, as many as asked for, are its end.
pub proof fn the_last_are_the_end<T>(sequence: Seq<T>, limit: Option<usize>, i: int)
    ensures
        ({
            let last = runtime::last_of(sequence, limit);
            &&& last.len() == if limit is Some && limit->0 < sequence.len() {
                limit->0 as nat
            } else {
                sequence.len()
            }
            &&& 0 <= i < last.len() ==> last[i] == sequence[sequence.len() - last.len() + i]
        }),
{
}

/// A configuration is sound exactly if it has a name and an identifier, polls at
/// an interval, expects arrivals at one if at any, and remembers something.
pub proof fn sound_configurations_are_accepted(config: WatcherConfig)
    ensures
        model::config_fault(config) is None <==> {
            &&& says_something(config.id@)
            &&& says_something(config.name@)
            &&& config.poll_interval_seconds > 0
            &&& config.expected_interval_seconds matches Some(seconds) ==> seconds > 0
            &&& config.max_history > 0
        },
        !says_something(config.id@) ==> model::config_fault(config) == Some(ConfigError::EmptyId),
        says_something(config.id@) && !says_something(config.name@) ==> model::config_fault(config)
            == Some(ConfigError::EmptyName),
        watcher::watcher_fault(config) is None <==> {
            &&& model::config_fault(config) is None
            &&& template::read_template(config.target@.prefix) is Ok
            &&& config.time_zone matches Some(zone) ==> time::zone_listed(zone@)
        },
{
    blank_texts_say_nothing(config.id@);
    blank_texts_say_nothing(config.name@);
}

/// A watcher that runs polls at once, tells what came of it, pauses for its
/// interval and polls again; a cancellation makes it announce its stop and end.
pub proof fn watchers_poll_and_pause(
    outcome: Result<PollResult, StoreError>,
    watcher_id: Seq<char>,
    interval: u64,
    at: int,
    cancelled: bool,
)
    ensures
        watcher::run_step(
            RunStage::Announcing,
            RunSignal::Sent { cancelled: false },
            watcher_id,
            interval,
            at,
        ) == Some((RunStage::Polling, RunActionView::Poll)),
        watcher::run_step(
            RunStage::Polling,
            RunSignal::Polled(outcome),
            watcher_id,
            interval,
            at,
        ) == Some(
            (
                RunStage::Reporting,
                RunActionView::Send(
                    match outcome {
                        Ok(result) => LifecycleView::PollCompleted { watcher_id, result },
                        Err(error) => LifecycleView::PollFailed { watcher_id, at, error: error@ },
                    },
                ),
            ),
        ),
        watcher::run_step(
            RunStage::Reporting,
            RunSignal::Sent { cancelled },
            watcher_id,
            interval,
            at,
        ) == Some((RunStage::Waiting, RunActionView::Sleep { seconds: interval })),
        watcher::run_step(RunStage::Waiting, RunSignal::Slept, watcher_id, interval, at) == Some(
            (RunStage::Polling, RunActionView::Poll),
        ),
        forall|stage: RunStage| #[trigger]
            watcher::run_step(stage, RunSignal::Cancelled, watcher_id, interval, at)
                == if stage == RunStage::Polling || stage == RunStage::Waiting {
                Some(
                    (
                        RunStage::Stopping,
                        RunActionView::Send(LifecycleView::Stopped { watcher_id, at }),
                    ),
                )
            } else {
                None
            },
        watcher::run_step(
            RunStage::Stopping,
            RunSignal::Sent { cancelled },
            watcher_id,
            interval,
            at,
        ) == Some((RunStage::Ended, RunActionView::Return(None))),
        forall|stage: RunStage|
            (stage == RunStage::Announcing || stage == RunStage::Reporting || stage
                == RunStage::Stopping) ==> #[trigger] watcher::run_step(
                stage,
                RunSignal::ChannelClosed,
                watcher_id,
                interval,
                at,
            ) == Some(
                (RunStage::Ended, RunActionView::Return(Some(WatcherFault::EventChannelClosed))),
            ),
{
}

/// The objects of several listings are those of each, one listing after the
/// other.
pub proof fn listings_are_taken_in_turn(listings: Seq<Vec<S3Object>>, next: Vec<S3Object>)
    ensures
        watcher::all_listed(Seq::<Vec<S3Object>>::empty()).len() == 0,
        watcher::all_listed(listings.push(next)) == watcher::all_listed(listings)
            + next@.map_values(|object: S3Object| object@),
{
    assert(listings.push(next).drop_last() =~= listings);
}

/// A watcher looks first at the period of now: what its target writes on the date
/// that UTC, or its own zone's clock, shows. All that it looks at lies in its
/// bucket.
pub proof fn watchers_look_at_the_current_period_first(config: WatcherConfig, at: int, now: Civil)
    requires
        now.valid(),
        now.second_number() == at / 1_000_000_000 + match config.time_zone {
            Some(zone) => time::zone_offset(zone@, at / 1_000_000_000),
            None => 0,
        },
        template::read_template(config.target@.prefix) is Ok,
        template::finest(template::read_template(config.target@.prefix)->Ok_0) is Some,
    ensures
        watcher::watched_targets(config, at).len() > 0,
        watcher::watched_targets(config, at)[0] == (UriView {
            bucket: config.target@.bucket,
            prefix: template::written(
                template::read_template(config.target@.prefix)->Ok_0,
                now,
            ),
        }),
{
    let tokens = template::read_template(config.target@.prefix)->Ok_0;
    let lookback = config.lookback_periods as nat;
    match config.time_zone {
        None => {
            periods::earlier_periods_are_written_as_of_their_date(
                tokens,
                at,
                now,
                now,
                0,
                lookback,
            );
            template::resolved_prefixes_cover_the_lookback(tokens, at, lookback);
        },
        Some(zone) => {
            periods::zoned_periods_are_written_as_of_their_date(
                tokens,
                at,
                zone@,
                now,
                now,
                0,
                lookback,
            );
            template::zoned_prefixes_cover_the_lookback(tokens, at, lookback, zone@);
        },
    }
}

} // verus!
