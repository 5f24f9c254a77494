//! What the calls of the library come to, whatever they are given.

use vstd::prelude::*;

use crate::arrivals;
use crate::arrivals::newer;
use crate::cadence;
use crate::cli;
use crate::cli::{Arrival, ByArrival, QueryArgs, WatchArgs};
use crate::download;
use crate::download::{Download, DownloadAction};
use crate::error;
use crate::error::{StoreError, StoreErrorView, UriFault, UriParseError};
use crate::history;
use crate::history::{NewestFirst, RollingHistory};
use crate::model;
use crate::model::{
    ArrivalInterval, ArrivalStatistics, CadenceSource, HistorySnapshot, ObjectChange,
    ObjectChangeKind, ObjectView, S3Object, SizeStatus, WatcherConfig,
};
use crate::output;
use crate::protocol;
use crate::protocol::{ErrorObject, RequestId};
use crate::runtime;
use crate::runtime::{CoreRuntime, DownloadPlan};
use crate::service;
use crate::service::{Call, ObjectDownloadParams, ObjectsListResult, Operation};
use crate::sorting;
use crate::sorting::Order;
use crate::statistics;
use crate::store;
use crate::store::ListedEntry;
use crate::template;
use crate::template::{DateTemplate, Field};
use crate::time;
use crate::time::{Civil, Timestamp, Zone};
use crate::transport;
use crate::transport::{Answer, ShutdownStep};
use crate::uri;
use crate::uri::{S3Uri, UriView};
use crate::watcher;
use crate::watcher::{LifecycleView, PollingWatcher, RunAction, RunActionView, WatcherRun};

verus! {

/// The newest objects, as many as asked for, come newest first, and none that is
/// left out is newer than one that is shown.
pub proof fn the_newest_objects_are_shown(
    objects: Vec<S3Object>,
    limit: usize,
    result: Vec<S3Object>,
    i: int,
    j: int,
    other: S3Object,
)
    requires
        call_ensures(cli::newest_objects, (objects, limit), result),
    ensures
        result@.len() == if limit < objects@.len() {
            limit as nat
        } else {
            objects@.len()
        },
        0 <= i < result@.len() ==> objects@.contains(result@[i]),
        0 <= i < j < result@.len() ==> !newer(result@[j]@, result@[i]@),
        0 <= i < result@.len() && objects@.contains(other) && !result@.contains(other) ==> !newer(
            other@,
            result@[i]@,
        ),
{
    first_in_order(objects@, limit as nat, i, j, other);
}

proof fn first_in_order(objects: Seq<S3Object>, limit: nat, i: int, j: int, other: S3Object)
    ensures
        ({
            let result = history::first(sorting::sorted::<S3Object, NewestFirst>(objects), limit);
            &&& result.len() == if limit < objects.len() {
                limit
            } else {
                objects.len()
            }
            &&& 0 <= i < result.len() ==> objects.contains(result[i])
            &&& 0 <= i < j < result.len() ==> !newer(result[j]@, result[i]@)
            &&& 0 <= i < result.len() && objects.contains(other) && !result.contains(other)
                ==> !newer(other@, result[i]@)
        }),
{
    let all = sorting::sorted::<S3Object, NewestFirst>(objects);
    let result = history::first(all, limit);
    sorting::sorted_is_in_order::<S3Object, NewestFirst>(objects);
    if 0 <= i < result.len() {
        assert(all.contains(all[i]));
        assert(objects.contains(all[i]));
        if i < j < result.len() {
            assert(!NewestFirst::before(all[j], all[i]));
            arrivals::texts_are_ordered_as_in_a_dictionary(all[j]@.key, all[i]@.key);
        }
        if objects.contains(other) && !result.contains(other) {
            assert(all.contains(other));
            let k = choose|k: int| 0 <= k < all.len() && all[k] == other;
            if k < result.len() {
                assert(result[k] == other);
            }
            assert(!NewestFirst::before(all[k], all[i]));
            arrivals::texts_are_ordered_as_in_a_dictionary(all[k]@.key, all[i]@.key);
        }
    }
}

/// Recent objects are those since an instant, newest first and as many as asked
/// for; none since then is left out that is newer than one shown, and none at all
/// while there is room.
pub proof fn recent_objects_are_within_the_window(
    objects: Vec<S3Object>,
    cutoff: Timestamp,
    limit: usize,
    result: Vec<S3Object>,
    i: int,
    j: int,
    other: S3Object,
)
    requires
        call_ensures(cli::recent_objects, (objects, &cutoff, limit), result),
    ensures
        result@.len() <= limit,
        0 <= i < result@.len() ==> objects@.contains(result@[i]) && result@[i]@.at >= cutoff@,
        0 <= i < j < result@.len() ==> !newer(result@[j]@, result@[i]@),
        objects@.contains(other) && other@.at >= cutoff@ && !result@.contains(other) ==> {
            &&& result@.len() == limit
            &&& 0 <= i < result@.len() ==> !newer(other@, result@[i]@)
        },
{
    let wanted = |object: S3Object| object.last_modified@ >= cutoff@;
    let recent = objects@.filter(wanted);
    first_in_order(recent, limit as nat, i, j, other);
    broadcast use vstd::seq_lib::group_filter_ensures;

    if 0 <= i < result@.len() {
        let k = choose|k: int| 0 <= k < recent.len() && recent[k] == result@[i];
        assert(wanted(recent[k]));
        objects@.lemma_filter_contains_rev(wanted, recent[k]);
    }
    if objects@.contains(other) && other@.at >= cutoff@ && !result@.contains(other) {
        let k = choose|k: int| 0 <= k < objects@.len() && objects@[k] == other;
        assert(wanted(objects@[k]));
        assert(recent.contains(other));
        if recent.len() <= limit {
            sorting::sorted_is_in_order::<S3Object, NewestFirst>(recent);
            assert(sorting::sorted::<S3Object, NewestFirst>(recent).contains(other));
        }
    }
}

/// A window of recent seconds begins so many seconds ago.
pub proof fn windows_reach_back(now: Timestamp, last: u64, cutoff: Timestamp)
    requires
        call_ensures(cli::history_cutoff, (&now, last), Ok::<Timestamp, String>(cutoff)),
    ensures
        now@ - cutoff@ == 1_000_000_000 * last,
{
}

/// A watch announces every change once, oldest arrival first, with the whole
/// milliseconds since the arrival before it; the first counts from the one
/// announced last, if any.
pub proof fn arrivals_are_announced_in_turn(
    changes: Vec<ObjectChange>,
    previous: Option<Timestamp>,
    announced: (Vec<Arrival>, Option<Timestamp>),
    i: int,
)
    requires
        call_ensures(cli::announce, (changes, previous), announced),
    ensures
        announced.0@.len() == changes@.len(),
        announced.0@.len() > 0 ==> announced.1 is Some && (announced.1->0)@
            == announced.0@.last().object@.at,
        announced.0@.len() == 0 ==> announced.1 is Some == previous is Some,
        0 <= i < announced.0@.len() ==> exists|k: int|
            {
                &&& 0 <= k < changes@.len()
                &&& (#[trigger] changes@[k]).object == announced.0@[i].object
                &&& changes@[k].kind == ObjectChangeKind::Added ==> announced.0@[i].event@
                    == "object.added"@
                &&& changes@[k].kind == ObjectChangeKind::Updated ==> announced.0@[i].event@
                    == "object.updated"@
            },
        0 < i < announced.0@.len() ==> {
            let before = announced.0@[i - 1].object@.at;
            let at = announced.0@[i].object@.at;
            &&& before <= at
            &&& announced.0@[i].since_previous is Some
            &&& at - before < 1_000_000 * 0x1_0000_0000_0000_0000 ==> (
            announced.0@[i].since_previous->0) == cadence::wait_between(before, at)
        },
        0 == i < announced.0@.len() ==> (announced.0@[i].since_previous is Some
            <==> previous is Some),
{
    let ordered = sorting::sorted::<ObjectChange, ByArrival>(changes@);
    sorting::sorted_is_in_order::<ObjectChange, ByArrival>(changes@);
    if 0 <= i < ordered.len() {
        assert(ordered.contains(ordered[i]));
        assert(changes@.contains(ordered[i]));
        let k = choose|k: int| 0 <= k < changes@.len() && changes@[k] == ordered[i];
        let before = match previous {
            Some(at) => Some(at@),
            None => None,
        };
        assert(cli::announces(announced.0@[i], ordered[i], cli::arrival_before(ordered, before, i)));
        assert(changes@[k].object == announced.0@[i].object);
        if i > 0 {
            assert(cli::announces(
                announced.0@[i - 1],
                ordered[i - 1],
                cli::arrival_before(ordered, before, i - 1),
            ));
            assert(!ByArrival::before(ordered[i], ordered[i - 1]));
        }
    }
    if ordered.len() > 0 {
        let last = ordered.len() - 1;
        let before = match previous {
            Some(at) => Some(at@),
            None => None,
        };
        assert(cli::announces(
            announced.0@[last],
            ordered[last],
            cli::arrival_before(ordered, before, last),
        ));
    }
}

/// The statistics of a history are those of its objects, oldest first, at the
/// instant asked for; a cadence that is asked for goes before the configured one.
pub proof fn statistics_are_of_the_history(
    history: RollingHistory,
    as_of: Timestamp,
    asked: Option<u64>,
    result: ArrivalStatistics,
)
    requires
        call_ensures(RollingHistory::statistics_at, (&history, as_of, asked), result),
    ensures
        result@ == statistics::statistics_of(
            history::oldest_listing(history@),
            as_of@,
            if asked is Some {
                asked
            } else {
                history.cadence()
            },
        ),
        asked matches Some(seconds) && seconds > 0 ==> {
            &&& result.health.cadence_source == Some(CadenceSource::Configured)
            &&& result.health.expected_interval_seconds is Some
            &&& cadence::is_millis(result.health.expected_interval_seconds->0, 1_000 * asked->0)
        },
{
}

/// A snapshot shows a history as it is: its objects, newest first, the intervals
/// between them, oldest first, and their statistics.
pub proof fn snapshots_show_the_history(
    history: RollingHistory,
    as_of: Timestamp,
    asked: Option<u64>,
    snapshot: HistorySnapshot,
    result: ArrivalStatistics,
)
    requires
        call_ensures(RollingHistory::snapshot_at, (&history, as_of, asked), snapshot),
        call_ensures(RollingHistory::statistics_at, (&history, as_of, asked), result),
    ensures
        snapshot.statistics@ == result@,
        model::objects_view(snapshot.objects@) == history::newest_listing(history@),
        snapshot@.intervals == statistics::intervals_of(history::oldest_listing(history@)),
{
}

/// The statistics and the verdict on sizes that are computed of some objects are
/// those that hold of them.
pub proof fn statistics_are_of_the_arrivals(
    objects: Vec<S3Object>,
    as_of: Timestamp,
    configured: Option<u64>,
    result: ArrivalStatistics,
    intervals: Vec<ArrivalInterval>,
    status: SizeStatus,
)
    requires
        call_ensures(statistics::statistics_for, (&objects, as_of, configured), result),
        call_ensures(statistics::intervals_for, (&objects,), intervals),
        call_ensures(statistics::classify_newest_size, (&objects,), status),
    ensures
        result@ == statistics::statistics_of(
            objects@.map_values(|object: S3Object| object@),
            as_of@,
            configured,
        ),
        intervals@.map_values(|interval: ArrivalInterval| interval@) == statistics::intervals_of(
            objects@.map_values(|object: S3Object| object@),
        ),
        status == statistics::size_status_of(objects@.map_values(|object: S3Object| object@)),
        result.health.size_status == status,
{
}

/// What a template is resolved to are the prefixes of its periods, on the clock of
/// UTC or of a zone; a text without placeholders is none.
pub proof fn templates_resolve_to_their_periods(
    prefix: &str,
    template: DateTemplate,
    at: Timestamp,
    lookback: u32,
    zone: Zone,
    here: Vec<String>,
    there: Vec<String>,
)
    requires
        call_ensures(
            DateTemplate::parse,
            (prefix,),
            Ok::<Option<DateTemplate>, crate::error::TemplateError>(Some(template)),
        ),
        call_ensures(DateTemplate::resolve, (&template, at, lookback), here),
        call_ensures(DateTemplate::resolve_in, (&template, at, lookback, &zone), there),
    ensures
        ({
            let tokens = template::read_template(prefix@);
            &&& tokens is Ok
            &&& template::finest(tokens->Ok_0) is Some
            &&& here@.map_values(|text: String| text@) == template::resolved(
                tokens->Ok_0,
                at@,
                lookback as nat,
            )
            &&& there@.map_values(|text: String| text@) == template::resolved_in(
                tokens->Ok_0,
                at@,
                lookback as nat,
                zone@,
            )
        }),
{
}

/// A placeholder is rendered as it is written.
pub proof fn placeholders_are_rendered(name: &str, field: Field, civil: Civil, rendered: String)
    requires
        call_ensures(Field::parse, (name,), Some(field)),
        call_ensures(Field::render, (field, &civil), rendered),
    ensures
        template::field_named(name@) == Some(field),
        rendered@ == field.text(civil),
{
}

/// A watcher, and a query from the command line, resolve a target to URIs in its
/// bucket.
pub proof fn targets_resolve_in_their_bucket(
    watcher: PollingWatcher,
    at: Timestamp,
    targets: Vec<S3Uri>,
    target: S3Uri,
    lookback: u32,
    queried: Vec<S3Uri>,
)
    requires
        call_ensures(PollingWatcher::resolve_targets, (&watcher, at), targets),
        call_ensures(
            cli::resolve_targets,
            (&target, at, lookback),
            Ok::<Vec<S3Uri>, String>(queried),
        ),
    ensures
        targets@.map_values(|uri: S3Uri| uri@) == watcher::watched_targets(
            watcher.configuration(),
            at@,
        ),
        ({
            let tokens = template::read_template(target@.prefix);
            &&& tokens is Ok
            &&& template::finest(tokens->Ok_0) is Some ==> queried@.map_values(|uri: S3Uri| uri@)
                == uri::in_bucket(
                target@.bucket,
                template::resolved(tokens->Ok_0, at@, lookback as nat),
            )
            &&& template::finest(tokens->Ok_0) is None ==> queried@.map_values(|uri: S3Uri| uri@)
                == seq![target@]
        }),
{
    assert(uri::in_bucket(target@.bucket, seq![target@.prefix]) =~= seq![target@]);
}

/// What is read from a text, and what is written of a URI, are as the texts are
/// read and written.
pub proof fn texts_are_read_as_stated(
    value: &str,
    parsed: S3Uri,
    written: String,
    seconds: u64,
    limit: usize,
    source: S3Uri,
    name: String,
)
    ensures
        call_ensures(S3Uri::parse, (value,), Ok::<S3Uri, UriParseError>(parsed)) ==> uri::read_uri(
            value@,
        ) == Ok::<UriView, UriFault>(parsed@),
        call_ensures(S3Uri::to_text, (&parsed,), written) ==> written@ == uri::uri_text(parsed@),
        call_ensures(cli::parse_duration, (value,), Ok::<u64, String>(seconds))
            ==> cli::read_duration(value@) == Ok::<nat, Seq<char>>(seconds as nat),
        call_ensures(cli::parse_history_limit, (value,), Ok::<usize, String>(limit))
            ==> cli::read_history_limit(value@) == Ok::<nat, Seq<char>>(limit as nat),
        call_ensures(cli::default_destination, (&source,), Ok::<String, String>(name)) ==> {
            &&& name@ == cli::file_name_of(source@.prefix)
            &&& cli::portable(name@)
            &&& name@.len() > 0
        },
{
}

/// What is shown of sizes, texts, objects and statistics is as it is shown.
pub proof fn output_is_shown_as_stated(
    bytes: u64,
    size: String,
    value: &str,
    shown: String,
    objects: Vec<S3Object>,
    lines: Vec<String>,
    object: S3Object,
    line: String,
)
    requires
        call_ensures(output::format_bytes, (bytes,), size),
        call_ensures(output::terminal_text, (value,), shown),
        call_ensures(output::print_objects, (&objects,), lines),
        call_ensures(output::print_arrival, (&object, None::<&str>), line),
    ensures
        size@ == output::bytes_text(bytes as nat),
        shown@ == output::shown(value@),
        lines@.map_values(|line: String| line@) == output::object_table(
            model::objects_view(objects@),
        ),
        exists|before: Seq<char>|
            line@ == #[trigger] (before + "  "@ + output::shown(object@.key)),
{
    let before = time::clock_text(time::civil_of(object@.at / 1_000_000_000)) + "  "@
        + output::right_aligned(output::bytes_text(object.size as nat), 10);
    reveal_strlit("");
    assert(line@ =~= before + "  "@ + output::shown(object@.key));
}

/// A failed call becomes the error that its words tell.
pub proof fn failed_calls_become_errors(
    operation: &str,
    code: &str,
    messages: Vec<String>,
    named: StoreError,
    unnamed: StoreError,
)
    requires
        call_ensures(StoreError::aws, (operation, Some(code), None::<&str>, &messages), named),
        call_ensures(StoreError::aws, (operation, None::<&str>, None::<&str>, &messages), unnamed),
    ensures
        named@ == error::service_failure(
            operation@,
            code@,
            None,
            error::chain_text(messages@),
        ),
        unnamed@ == error::service_failure(
            operation@,
            Seq::empty(),
            None,
            error::chain_text(messages@),
        ),
{
}

/// An entry of a listing becomes the object that it reads as, or its error.
pub proof fn entries_become_objects(
    entry: ListedEntry,
    object: S3Object,
    other: ListedEntry,
    fault: StoreError,
)
    requires
        call_ensures(store::listed_object, (entry,), Ok::<S3Object, StoreError>(object)),
        call_ensures(store::listed_object, (other,), Err::<S3Object, StoreError>(fault)),
    ensures
        store::read_entry(entry@) == Ok::<ObjectView, StoreErrorView>(object@),
        store::read_entry(other@) == Err::<ObjectView, StoreErrorView>(fault@),
{
}

/// A call that is checked is carried out as asked, or refused for its fault.
pub proof fn checked_calls_are_as_asked(call: Call, operation: Operation, fault: ErrorObject)
    ensures
        call_ensures(service::check_call, (call,), Ok::<Operation, ErrorObject>(operation))
            ==> service::call_fault(call) is None && operation == service::operation_of(call),
        call_ensures(service::check_call, (call,), Err::<Operation, ErrorObject>(fault))
            ==> service::call_fault(call) is Some && fault@ == protocol::params_error(
            service::call_fault(call)->0,
        ),
{
}

/// A request is answered once, with its result or its error, under its own
/// identifier; a notification is not answered.
pub proof fn requests_are_answered(
    id: RequestId,
    value: serde_json::Value,
    fault: ErrorObject,
    good: Option<Answer>,
    bad: Option<Answer>,
    none: Option<Answer>,
)
    requires
        call_ensures(
            transport::answer_to,
            (Some(id), Ok::<serde_json::Value, ErrorObject>(value)),
            good,
        ),
        call_ensures(
            transport::answer_to,
            (Some(id), Err::<serde_json::Value, ErrorObject>(fault)),
            bad,
        ),
        call_ensures(
            transport::answer_to,
            (None::<RequestId>, Ok::<serde_json::Value, ErrorObject>(value)),
            none,
        ),
    ensures
        good == Some(Answer::Success { id, result: value }),
        bad == Some(Answer::Failure { id, error: fault }),
        none is None,
{
}

/// A cancelled request that still succeeds is answered with its result; any other
/// is answered that it was cancelled.
pub proof fn cancelled_requests_are_settled<T>(
    finished: Option<Result<T, ErrorObject>>,
    answer: Result<T, ErrorObject>,
)
    requires
        call_ensures(transport::settle_cancelled::<T>, (finished,), answer),
    ensures
        finished is Some && finished->0 is Ok ==> answer is Ok && answer->Ok_0 == (
        finished->0)->Ok_0,
        finished is None || finished->0 is Err ==> answer is Err && (answer->Err_0)@.code == -32800,
{
}

/// Once input has ended, requests that run may finish; only when the time for it
/// is over are they cancelled, and nothing is cancelled if nothing runs.
pub proof fn running_requests_may_finish(running: usize, over: bool, step: ShutdownStep)
    requires
        call_ensures(transport::shutdown_step, (running, over), step),
    ensures
        step == ShutdownStep::Done <==> running == 0,
        step == ShutdownStep::CancelAll <==> running > 0 && over,
{
}

/// A download from the command line ends with what came of it, unless it was
/// cancelled although it succeeded.
pub proof fn command_line_downloads_end<T>(
    result: Result<T, StoreError>,
    cancelled: bool,
    outcome: Result<T, String>,
)
    requires
        call_ensures(cli::download_outcome::<T>, (result, cancelled), outcome),
    ensures
        outcome is Ok <==> result is Ok && !cancelled,
        outcome is Ok ==> outcome->Ok_0 == result->Ok_0,
        result is Err ==> (outcome->Err_0)@ == (result->Err_0).message@,
{
}

/// The commands watch and query what they are asked to.
pub proof fn commands_are_configured_as_asked(
    target: S3Uri,
    profile: Option<String>,
    region: Option<String>,
    watch: WatchArgs,
    query: QueryArgs,
    watched: WatcherConfig,
    queried: WatcherConfig,
)
    requires
        call_ensures(cli::watch_config, (target, profile, region, &watch), watched),
        call_ensures(cli::stats_config, (target, profile, region, &query), queried),
    ensures
        watched.id@ == "cli"@ && queried.id@ == "stats"@,
        watched.name@ == uri::uri_text(target@) && queried.name@ == watched.name@,
        watched.target == target && queried.target == target,
        watched.profile == profile && queried.profile == profile,
        watched.region == region && queried.region == region,
        watched.poll_interval_seconds == watch.interval && queried.poll_interval_seconds == 30,
        watched.time_zone is None && queried.time_zone is None,
        watched.expected_interval_seconds == watch.expected_interval,
        watched.max_history == watch.history_limit && queried.max_history == query.limit,
        watched.lookback_periods == watch.lookback && queried.lookback_periods == query.lookback,
        queried.expected_interval_seconds is None,
{
}

/// The backend lists the newest of what a watcher's last poll showed, newest
/// first and as many as asked for.
pub proof fn the_backend_lists_the_newest<F>(
    backend: CoreRuntime<F>,
    watcher_id: String,
    limit: usize,
    list: ObjectsListResult,
    i: int,
    j: int,
)
    requires
        call_ensures(
            CoreRuntime::<F>::objects_list,
            (&backend, watcher_id, Some(limit)),
            Ok::<ObjectsListResult, ErrorObject>(list),
        ),
    ensures
        backend@.contains_key(watcher_id@),
        list.watcher_id@ == watcher_id@,
        list.objects@.len() <= limit,
        0 <= i < j < list.objects@.len() ==> !newer(list.objects@[j]@, list.objects@[i]@),
        backend@[watcher_id@].snapshot matches Some(snapshot) ==> {
            &&& list.objects@.len() == if limit < snapshot.objects.len() {
                limit as nat
            } else {
                snapshot.objects.len()
            }
            &&& 0 <= i < list.objects@.len() ==> snapshot.objects.contains(list.objects@[i]@)
        },
        backend@[watcher_id@].snapshot is None ==> list.objects@.len() == 0,
{
    let held = choose|objects: Seq<S3Object>|
        {
            &&& model::objects_view(objects) == match backend@[watcher_id@].snapshot {
                Some(snapshot) => snapshot.objects,
                None => Seq::empty(),
            }
            &&& list.objects@ == #[trigger] runtime::listed_objects(objects, Some(limit))
        };
    assert(model::objects_view(held).len() == held.len());
    first_in_order(held, limit as nat, i, j, arbitrary());
    if 0 <= i < list.objects@.len() {
        let k = choose|k: int| 0 <= k < held.len() && held[k] == list.objects@[i];
        assert(model::objects_view(held)[k] == list.objects@[i]@);
    }
}

/// A download is planned for an object in the watcher's bucket, under the name
/// that was given or a random one.
pub proof fn downloads_are_planned_in_the_bucket<F>(
    backend: CoreRuntime<F>,
    params: ObjectDownloadParams,
    plan: DownloadPlan,
)
    requires
        call_ensures(
            CoreRuntime::<F>::object_download,
            (&backend, &params),
            Ok::<DownloadPlan, ErrorObject>(plan),
        ),
    ensures
        runtime::plan_fault(backend@, params.watcher_id@, params.key@) is None,
        plan.source@.bucket == backend@[params.watcher_id@].target.bucket,
        plan.source@.prefix == params.key@,
        params.download_id matches Some(id) ==> plan.download_id@ == id@,
{
}

/// A watcher that begins to run says so first.
pub proof fn running_begins_with_a_word(
    config: WatcherConfig,
    at: Timestamp,
    begun: (WatcherRun, RunAction),
)
    requires
        call_ensures(WatcherRun::start, (&config, at), begun),
    ensures
        begun.1@ == RunActionView::Send(
            LifecycleView::Started { watcher_id: config.id@, at: at@ },
        ),
        begun.0.pause() == config.poll_interval_seconds,
        begun.0.id() == config.id@,
{
}

/// A download begins as its course does.
pub proof fn downloads_begin_as_stated(
    source: S3Uri,
    overwrite: bool,
    destination: String,
    begun: (Download, DownloadAction),
)
    requires
        call_ensures(Download::start, (&source, overwrite, destination), begun),
    ensures
        (begun.0@, begun.1@) == download::begun(source@.prefix, overwrite, destination@),
{
}

} // verus!
