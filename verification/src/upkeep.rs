//! What calls leave behind in what the library keeps.

use vstd::prelude::*;

use crate::arrivals;
use crate::arrivals::newer;
use crate::conduct;
use crate::download;
use crate::download::{
    ActionView, Download, DownloadAction, DownloadEvent, DownloadStage, RequestMeter,
};
use crate::error::{ConfigError, StoreError, StoreErrorKind};
use crate::history::RollingHistory;
use crate::model;
use crate::model::{
    ChangeView, DownloadProgress, HistoryUpdate, PollResult, RequestCounts, S3Object,
};
use crate::protocol::{DataView, ErrorObject, IdView, Request, RequestId};
use crate::retention;
use crate::runtime;
use crate::runtime::{CoreRuntime, Notice, NoticeView, Sessions, StartPlan};
use crate::service::{WatchStartResult, WatchState};
use crate::store::{ListPage, Listing, ListingStep};
use crate::text;
use crate::time::Timestamp;
use crate::transport;
use crate::transport::{Admission, Connection, LineReader, LineView, ProtocolLine};
use crate::watcher::{PollingWatcher, RunAction, RunSignal, WatcherRun};

verus! {

/// Whether two states of a backend differ in one watcher at most.
pub open spec fn others_stay(before: Sessions, after: Sessions, watcher_id: Seq<char>) -> bool {
    forall|other: Seq<char>|
        #![trigger before.contains_key(other)]
        #![trigger after.contains_key(other)]
        other != watcher_id ==> (before.contains_key(other) <==> after.contains_key(other)) && (
        before.contains_key(other) ==> before[other] == after[other])
}

/// Whether the watcher of an identifier is still the one that was started.
pub open spec fn still_there(sessions: Sessions, watcher_id: Seq<char>, serial: u64) -> bool {
    sessions.contains_key(watcher_id) && sessions[watcher_id].serial == serial
}

/// Changes are announced in batches of 250; only the last one may be smaller.
pub proof fn batches_are_full(watcher_id: Seq<char>, changes: Seq<ChangeView>, i: int)
    ensures
        ({
            let batches = runtime::batched(watcher_id, changes);
            &&& changes.len() <= 250 * batches.len() < changes.len() + 250
            &&& 0 <= i < batches.len() ==> batches[i] == (NoticeView::ObjectsAdded {
                watcher_id,
                changes: changes.subrange(
                    250 * i,
                    if i + 1 < batches.len() {
                        250 * i + 250
                    } else {
                        changes.len() as int
                    },
                ),
            })
        }),
    decreases changes.len(),
{
    let batches = runtime::batched(watcher_id, changes);
    if changes.len() == 0 {
    } else if changes.len() <= 250 {
        assert(changes.subrange(0, changes.len() as int) =~= changes);
    } else {
        let later = changes.skip(250);
        let rest = runtime::batched(watcher_id, later);
        batches_are_full(watcher_id, later, i - 1);
        assert(batches.len() == rest.len() + 1);
        assert(changes.take(250) =~= changes.subrange(0, 250));
        if 0 < i < batches.len() {
            assert(batches[i] == rest[i - 1]);
            let end = if i < rest.len() {
                250 * i
            } else {
                later.len() as int
            };
            assert(later.subrange(250 * (i - 1), end) =~= changes.subrange(
                250 * i,
                end + 250,
            ));
        }
    }
}

/// A watcher that is launched runs from then on under its identifier, with
/// nothing seen, asked or failed yet; it was not there before, it made the
/// number of watchers at most 32, and no other watcher changed.
pub proof fn launched_watchers_run<F>(
    backend: &mut CoreRuntime<F>,
    plan: StartPlan,
    store: Result<(), String>,
    cancelled: bool,
    watcher: PollingWatcher,
    serial: u64,
)
    requires
        call_ensures(
            CoreRuntime::<F>::launch,
            (backend, plan, store, cancelled),
            Ok::<(PollingWatcher, u64), ErrorObject>((watcher, serial)),
        ),
    ensures
        store is Ok,
        !cancelled,
        !old(backend)@.contains_key(plan.config.id@),
        final(backend)@.contains_key(plan.config.id@),
        final(backend)@.dom().len() <= 32,
        others_stay(old(backend)@, final(backend)@, plan.config.id@),
        ({
            let session = final(backend)@[plan.config.id@];
            &&& session.serial == serial
            &&& session.name == plan.config.name@
            &&& session.target == plan.config.target@
            &&& session.snapshot is None
            &&& session.state is Running
            &&& session.last_poll_at is None
            &&& session.error is None
            &&& session.request_counts.list_requests == 0
            &&& session.request_counts.get_requests == 0
        }),
        watcher.configuration() == plan.config,
        forall|key: Seq<char>| !(#[trigger] watcher.known().contains_key(key)),
        final(backend).upcoming() == (serial + 1) % 0x1_0000_0000_0000_0000,
{
}

/// A launch that is refused leaves every watcher as it was.
pub proof fn refused_launches_change_nothing<F>(
    backend: &mut CoreRuntime<F>,
    plan: StartPlan,
    store: Result<(), String>,
    cancelled: bool,
    error: ErrorObject,
)
    requires
        call_ensures(
            CoreRuntime::<F>::launch,
            (backend, plan, store, cancelled),
            Err::<(PollingWatcher, u64), ErrorObject>(error),
        ),
    ensures
        final(backend)@ == old(backend)@,
        final(backend).upcoming() == old(backend).upcoming(),
        store matches Err(message) ==> {
            &&& error@.code == -32010
            &&& error@.message == "S3 operation failed"@
            &&& error@.data == Some(DataView::Detail(message@))
        },
        store is Ok && cancelled ==> error@.code == -32800 && error@.message
            == "Request cancelled"@,
{
}

/// A confirmed start is told as it is; one that was cancelled meanwhile takes
/// its watcher back, and no other.
pub proof fn starts_are_confirmed_or_taken_back<F>(
    backend: &mut CoreRuntime<F>,
    watcher_id: String,
    serial: u64,
    cancelled: bool,
    result: Result<(WatchStartResult, Notice), ErrorObject>,
)
    requires
        call_ensures(
            CoreRuntime::<F>::confirm_start,
            (backend, watcher_id, serial, cancelled),
            result,
        ),
    ensures
        result is Err <==> cancelled,
        others_stay(old(backend)@, final(backend)@, watcher_id@),
        result matches Ok((started, notice)) ==> {
            &&& started.watcher_id@ == watcher_id@
            &&& started.status is Running
            &&& notice@ == (NoticeView::StatusChanged {
                watcher_id: watcher_id@,
                status: WatchState::Running,
            })
            &&& final(backend)@ == old(backend)@
        },
        result matches Err(error) ==> error@.code == -32800 && error@.message
            == "Request cancelled"@ && error@.data is None,
        cancelled && still_there(old(backend)@, watcher_id@, serial)
            ==> !final(backend)@.contains_key(watcher_id@),
        cancelled && !still_there(old(backend)@, watcher_id@, serial) ==> final(backend)@ == old(
            backend,
        )@,
{
}

/// Stopping a watcher takes it away, unless another one has taken its place;
/// the other watchers stay.
pub proof fn stopped_watchers_are_gone<F>(
    backend: &mut CoreRuntime<F>,
    watcher_id: String,
    serial: u64,
    result: WatchStartResult,
)
    requires
        call_ensures(CoreRuntime::<F>::watch_stop, (backend, watcher_id, serial), result),
    ensures
        result.watcher_id@ == watcher_id@,
        result.status is Stopped,
        others_stay(old(backend)@, final(backend)@, watcher_id@),
        still_there(old(backend)@, watcher_id@, serial) ==> !final(backend)@.contains_key(
            watcher_id@,
        ),
        !still_there(old(backend)@, watcher_id@, serial) ==> final(backend)@ == old(backend)@,
{
}

/// A stop is announced for the watcher, which stays with all that is known of it
/// but for its state.
pub proof fn stops_are_announced<F>(
    backend: &mut CoreRuntime<F>,
    watcher_id: &str,
    serial: u64,
    notice: Notice,
)
    requires
        call_ensures(CoreRuntime::<F>::announce_stop, (backend, watcher_id, serial), notice),
    ensures
        notice@ == (NoticeView::StatusChanged {
            watcher_id: watcher_id@,
            status: WatchState::Stopped,
        }),
        others_stay(old(backend)@, final(backend)@, watcher_id@),
        still_there(old(backend)@, watcher_id@, serial) ==> only_the_state_differs(
            old(backend)@,
            final(backend)@,
            watcher_id@,
        ) && final(backend)@[watcher_id@].state is Stopped,
        !still_there(old(backend)@, watcher_id@, serial) ==> final(backend)@ == old(backend)@,
{
}

/// Whether a watcher is known before and after, alike but for its state.
pub open spec fn only_the_state_differs(
    before: Sessions,
    after: Sessions,
    watcher_id: Seq<char>,
) -> bool {
    let (was, is) = (before[watcher_id], after[watcher_id]);
    &&& before.contains_key(watcher_id)
    &&& after.contains_key(watcher_id)
    &&& is.serial == was.serial
    &&& is.name == was.name
    &&& is.target == was.target
    &&& is.snapshot == was.snapshot
    &&& is.last_poll_at == was.last_poll_at
    &&& is.error == was.error
    &&& is.request_counts == was.request_counts
}

/// A task that ends marks its own watcher as stopped, and nothing else.
pub proof fn ended_tasks_are_marked<F>(backend: &mut CoreRuntime<F>, watcher_id: &str, serial: u64)
    requires
        call_ensures(CoreRuntime::<F>::record_stopped, (backend, watcher_id, serial), ()),
    ensures
        others_stay(old(backend)@, final(backend)@, watcher_id@),
        still_there(old(backend)@, watcher_id@, serial) ==> only_the_state_differs(
            old(backend)@,
            final(backend)@,
            watcher_id@,
        ) && final(backend)@[watcher_id@].state is Stopped,
        !still_there(old(backend)@, watcher_id@, serial) ==> final(backend)@ == old(backend)@,
{
}

/// Counted requests are noted with their watcher, and nothing else changes.
pub proof fn requests_are_noted<F>(
    backend: &mut CoreRuntime<F>,
    watcher_id: &str,
    serial: u64,
    counts: RequestCounts,
)
    requires
        call_ensures(CoreRuntime::<F>::note_requests, (backend, watcher_id, serial, counts), ()),
    ensures
        others_stay(old(backend)@, final(backend)@, watcher_id@),
        !still_there(old(backend)@, watcher_id@, serial) ==> final(backend)@ == old(backend)@,
        still_there(old(backend)@, watcher_id@, serial) ==> {
            let (was, is) = (old(backend)@[watcher_id@], final(backend)@[watcher_id@]);
            &&& final(backend)@.contains_key(watcher_id@)
            &&& is.request_counts == counts
            &&& is.serial == was.serial
            &&& is.name == was.name
            &&& is.target == was.target
            &&& is.snapshot == was.snapshot
            &&& is.state == was.state
            &&& is.last_poll_at == was.last_poll_at
            &&& is.error == was.error
        },
{
}

/// A poll that succeeds leaves its snapshot and instant with its watcher, which
/// runs without an error; one that fails leaves the message and keeps what was
/// seen before. A watcher that has been replaced is left alone.
pub proof fn polls_leave_their_mark<F>(
    backend: &mut CoreRuntime<F>,
    watcher_id: &str,
    serial: u64,
    counts: RequestCounts,
    outcome: Result<PollResult, StoreError>,
    notices: Vec<Notice>,
)
    requires
        call_ensures(
            CoreRuntime::<F>::record_poll,
            (backend, watcher_id, serial, counts, outcome),
            notices,
        ),
    ensures
        others_stay(old(backend)@, final(backend)@, watcher_id@),
        !still_there(old(backend)@, watcher_id@, serial) ==> final(backend)@ == old(backend)@
            && notices@.len() == 0,
        still_there(old(backend)@, watcher_id@, serial) ==> {
            let (was, is) = (old(backend)@[watcher_id@], final(backend)@[watcher_id@]);
            &&& final(backend)@.contains_key(watcher_id@)
            &&& is.request_counts == counts
            &&& is.serial == was.serial
            &&& is.name == was.name
            &&& is.target == was.target
            &&& outcome matches Ok(poll) ==> {
                &&& is.snapshot == Some(poll.snapshot@)
                &&& is.last_poll_at == Some(poll.polled_at@)
                &&& is.state is Running
                &&& is.error is None
            }
            &&& outcome matches Err(error) ==> {
                &&& is.snapshot == was.snapshot
                &&& is.last_poll_at == was.last_poll_at
                &&& is.state is Error
                &&& is.error == Some(error.message@)
            }
        },
{
}

/// An update keeps what was last seen of every object while there is room, the
/// newest where there is not, and reports additions, alterations and evictions
/// as such. The capacity and the cadence stay.
pub proof fn updates_are_reported(
    history: &mut RollingHistory,
    objects: Vec<S3Object>,
    update: HistoryUpdate,
    i: int,
    key: Seq<char>,
    other: Seq<char>,
)
    requires
        retention::well_keyed(old(history)@),
        call_ensures(RollingHistory::upsert_many, (history, objects), update),
    ensures
        final(history).limit() == old(history).limit(),
        final(history).cadence() == old(history).cadence(),
        final(history)@.dom().len() <= old(history).limit(),
        final(history)@.contains_key(key) ==> {
            let kept = final(history)@[key];
            &&& kept.key == key
            &&& (exists|k: int| 0 <= k < objects@.len() && (#[trigger] objects@[k])@ == kept) || (
            old(history)@.contains_key(key) && old(history)@[key] == kept)
        },
        final(history)@.contains_key(key) && old(history)@.contains_key(other)
            && !final(history)@.contains_key(other) && (forall|k: int|
            0 <= k < objects@.len() ==> (#[trigger] objects@[k])@.key != other) ==> newer(
            final(history)@[key],
            old(history)@[other],
        ),
        0 <= i < update.changes@.len() ==> {
            let change = update.changes@[i]@;
            &&& final(history)@.contains_key(change.object.key)
            &&& final(history)@[change.object.key] == change.object
            &&& change.kind is Added <==> !old(history)@.contains_key(change.object.key)
            &&& change.kind is Added ==> change.previous is None
            &&& change.kind is Updated ==> change.previous == Some(
                old(history)@[change.object.key],
            ) && change.previous != Some(change.object)
        },
        final(history)@.contains_key(key) && !(old(history)@.contains_key(key)
            && old(history)@[key] == final(history)@[key]) ==> exists|k: int|
            0 <= k < update.changes@.len() && (#[trigger] update.changes@[k])@.object
                == final(history)@[key],
        0 <= i < update.evicted@.len() ==> {
            let gone = update.evicted@[i]@;
            &&& old(history)@.contains_key(gone.key)
            &&& !final(history)@.contains_key(gone.key)
        },
        old(history)@.contains_key(key) && !final(history)@.contains_key(key) ==> exists|k: int|
            0 <= k < update.evicted@.len() && (#[trigger] update.evicted@[k])@.key == key,
{
    let listing = model::objects_view(objects@);
    let capacity = old(history).limit() as nat;
    let was = old(history)@;
    let known = crate::history::known_after(was, listing);
    retention::known_is_well_keyed(was, listing);
    retention::history_holds_last_observations(was, listing, capacity, key);
    crate::history::contents_are_observations(listing);
    retention::changes_are_new_or_different(was, listing, capacity);
    retention::evictions_were_retained(was, listing, capacity);
    arrivals::the_newest_are_kept(was, listing, capacity, key, other);
    arrivals::last_observation_counts(was, listing, other, 0);
    let changes = model::changes_view(update.changes@);
    let evicted = model::objects_view(update.evicted@);
    if 0 <= i < update.changes@.len() {
        assert(changes[i] == update.changes@[i]@);
    }
    if 0 <= i < update.evicted@.len() {
        assert(evicted[i] == update.evicted@[i]@);
        assert(evicted.contains(evicted[i]));
    }
    let after = final(history)@;
    if after.contains_key(key) {
        if crate::history::contents(listing).contains_key(key) {
            let k = choose|k: int| 0 <= k < listing.len() && listing[k] == after[key];
            assert(objects@[k]@ == after[key]);
        }
        if !(was.contains_key(key) && was[key] == after[key]) {
            let k = choose|k: int|
                0 <= k < changes.len() && (#[trigger] changes[k]).object == after[key];
            assert(update.changes@[k]@ == changes[k]);
        }
    } else if was.contains_key(key) {
        assert(known.contains_key(key));
        assert(evicted.contains(known[key]));
        let k = choose|k: int| 0 <= k < evicted.len() && evicted[k] == known[key];
        assert(update.evicted@[k]@ == evicted[k]);
    }
    if was.contains_key(other) && (forall|k: int|
        0 <= k < objects@.len() ==> (#[trigger] objects@[k])@.key != other) {
        assert forall|k: int| 0 <= k < listing.len() implies (#[trigger] listing[k]).key
            != other by {
            assert(listing[k] == objects@[k]@);
        }
    }
}

/// A cadence can be set and taken back at any time, but never be zero; the
/// objects stay.
pub proof fn cadences_can_be_set(
    history: &mut RollingHistory,
    seconds: Option<u64>,
    result: Result<(), ConfigError>,
)
    requires
        call_ensures(RollingHistory::set_expected_interval_seconds, (history, seconds), result),
    ensures
        final(history)@ == old(history)@,
        final(history).limit() == old(history).limit(),
        result is Err <==> seconds is Some && seconds->0 == 0,
        result is Ok ==> final(history).cadence() == seconds,
        result is Err ==> final(history).cadence() == old(history).cadence(),
{
}

/// A poll takes every listing into its history, in turn, and reports the instant,
/// how many objects were listed and the history as it is then; a failed one
/// changes nothing and passes its error on.
pub proof fn polls_take_every_listing(
    watcher: &mut PollingWatcher,
    listings: Result<Vec<Vec<S3Object>>, StoreError>,
    at: Timestamp,
    result: Result<PollResult, StoreError>,
)
    requires
        call_ensures(PollingWatcher::poll_once, (watcher, listings, at), result),
    ensures
        final(watcher).configuration() == old(watcher).configuration(),
        result is Ok <==> listings is Ok,
        listings matches Err(error) ==> result->Err_0 == error && final(watcher).known() == old(
            watcher,
        ).known(),
        listings matches Ok(pages) ==> {
            let poll = result->Ok_0;
            let listed = crate::watcher::all_listed(pages@);
            &&& poll.polled_at@ == at@
            &&& poll.listed_object_count == listed.len()
            &&& final(watcher).known() == crate::history::history_after(
                old(watcher).known(),
                listed,
                old(watcher).configuration().max_history as nat,
            )
            &&& model::objects_view(poll.snapshot.objects@) == crate::history::newest_listing(
                final(watcher).known(),
            )
            &&& poll.snapshot.statistics.as_of@ == at@
            &&& poll.snapshot.statistics@.object_count == crate::history::oldest_listing(
                final(watcher).known(),
            ).len()
        },
{
}

/// A meter counts every request as what it is; a counter starts over after
/// 2^64 - 1.
pub proof fn requests_are_metered(meter: &mut RequestMeter)
    ensures
        call_ensures(RequestMeter::count_list, (meter,), ()) ==> final(meter)@.list_requests == (
        old(meter)@.list_requests + 1) % 0x1_0000_0000_0000_0000 && final(meter)@.get_requests
            == old(meter)@.get_requests,
        call_ensures(RequestMeter::count_get, (meter,), ()) ==> final(meter)@.get_requests == (old(
            meter,
        )@.get_requests + 1) % 0x1_0000_0000_0000_0000 && final(meter)@.list_requests == old(
            meter,
        )@.list_requests,
{
}

/// A listing that begins keeps nothing yet, must be allowed to keep something,
/// and asks for its first page.
pub proof fn listings_begin_with_a_request(
    most: usize,
    meter: &mut RequestMeter,
    result: Result<Listing, StoreError>,
)
    requires
        call_ensures(Listing::begin, (most, meter), result),
    ensures
        result is Err <==> most == 0,
        result matches Ok(listing) ==> {
            &&& listing@.len() == 0
            &&& listing.limit() == most
            &&& final(meter)@.list_requests == (old(meter)@.list_requests + 1)
                % 0x1_0000_0000_0000_0000
            &&& final(meter)@.get_requests == old(meter)@.get_requests
        },
        result matches Err(error) ==> {
            &&& error@.kind == StoreErrorKind::Other
            &&& error@.message == "object listing limit must be greater than zero"@
            &&& !error@.retryable
            &&& final(meter)@ == old(meter)@
        },
{
}

/// A page that arrives is asked on from exactly if it says that it is cut short
/// and where to go on; the request for the next page is counted then, and only
/// then. A page that failed to arrive passes its error on and changes nothing.
pub proof fn listings_go_on_where_cut_short(
    listing: &mut Listing,
    page: Result<ListPage, StoreError>,
    meter: &mut RequestMeter,
    result: Result<ListingStep, StoreError>,
)
    requires
        call_ensures(Listing::page_arrived, (listing, page, meter), result),
    ensures
        final(listing).limit() == old(listing).limit(),
        page matches Err(error) ==> {
            &&& result is Err
            &&& result->Err_0@ == error@
            &&& final(listing)@ == old(listing)@
        },
        page matches Ok(given) ==> {
            &&& result matches Ok(ListingStep::Continue(token)) ==> given.is_truncated == Some(
                true,
            ) && given.next_continuation_token is Some && given.next_continuation_token->0@
                == token@
            &&& result matches Ok(ListingStep::Done) ==> given.is_truncated != Some(true)
        },
        final(meter)@.get_requests == old(meter)@.get_requests,
        final(meter)@.list_requests == if result is Ok && result->Ok_0 is Continue {
            (old(meter)@.list_requests + 1) % 0x1_0000_0000_0000_0000
        } else {
            old(meter)@.list_requests as int
        },
{
    if let Ok(given) = page {
        arrivals::pages_read_entry_by_entry(
            crate::store::entries_view(given.entries@),
            given.is_truncated,
            text::optional_view(given.next_continuation_token),
        );
    }
}

/// A connection starts a sound request that fits, under an identifier that is
/// not in flight, and counts it; any other request leaves it as it was.
pub proof fn requests_are_admitted(
    connection: &mut Connection,
    request: &Request,
    admitted: Admission,
)
    requires
        call_ensures(Connection::receive, (connection, request), admitted),
    ensures
        final(connection)@.limit == old(connection)@.limit,
        admitted is Start <==> {
            &&& request.jsonrpc@ == "2.0"@
            &&& request.method@.len() > 0
            &&& request.method@ != "$/cancelRequest"@
            &&& old(connection)@.running < old(connection)@.limit
            &&& request.id is Some ==> !old(connection)@.in_flight.contains((request.id->0)@)
        },
        admitted is Cancel <==> request.jsonrpc@ == "2.0"@ && request.method@
            == "$/cancelRequest"@ && request.method@.len() > 0,
        admitted is Start ==> final(connection)@.running == old(connection)@.running + 1,
        admitted is Start ==> final(connection)@.in_flight == match request.id {
            Some(id) => old(connection)@.in_flight.push(id@),
            None => old(connection)@.in_flight,
        },
        admitted !is Start ==> final(connection)@ == old(connection)@,
        admitted matches Admission::Reply { id, error } ==> {
            &&& request.id matches Some(given) ==> id@ == given@
            &&& request.id is None ==> id is Null
            &&& error@.data is None
            &&& error@.code == -32600 || error@.code == -32000
            &&& error@.code == -32000 <==> error@.message == "Too many concurrent requests"@
            &&& error@.code == -32000 ==> old(connection)@.running >= old(connection)@.limit
        },
{
    reveal_strlit("Too many concurrent requests");
    reveal_strlit("Expected a JSON-RPC 2.0 request");
    reveal_strlit("Request ID is already in flight");
    assert("Too many concurrent requests"@.len() != "Expected a JSON-RPC 2.0 request"@.len());
    assert("Too many concurrent requests"@.len() != "Request ID is already in flight"@.len());
}

/// A request that ends makes room for one; its answer frees its identifier, and
/// no other.
pub proof fn ended_requests_make_room(connection: &mut Connection, id: &RequestId, other: IdView)
    requires
        old(connection)@.in_flight.no_duplicates(),
    ensures
        call_ensures(Connection::release, (connection,), ()) ==> {
            &&& final(connection)@.in_flight == old(connection)@.in_flight
            &&& final(connection)@.limit == old(connection)@.limit
            &&& old(connection)@.running > 0 ==> final(connection)@.running == old(
                connection,
            )@.running - 1
            &&& old(connection)@.running == 0 ==> final(connection)@.running == 0
        },
        call_ensures(Connection::answered, (connection, id), ()) ==> {
            &&& final(connection)@.running == old(connection)@.running
            &&& final(connection)@.limit == old(connection)@.limit
            &&& final(connection)@.in_flight.contains(other) <==> old(
                connection,
            )@.in_flight.contains(other) && other != id@
        },
{
    freed(old(connection)@.in_flight, id@, other);
}

proof fn freed(ids: Seq<IdView>, id: IdView, other: IdView)
    requires
        ids.no_duplicates(),
    ensures
        transport::without(ids, id).contains(other) <==> ids.contains(other) && other != id,
{
    let place = transport::place_of(ids, id) as int;
    placed(ids, id);
    let rest = transport::without(ids, id);
    if ids.contains(other) && other != id {
        let i = choose|i: int| 0 <= i < ids.len() && ids[i] == other;
        if place < ids.len() {
            assert(rest[if i < place {
                i
            } else {
                i - 1
            }] == other);
        }
    }
    if rest.contains(other) {
        let i = choose|i: int| 0 <= i < rest.len() && rest[i] == other;
        assert(ids[if place < ids.len() && i >= place {
            i + 1
        } else {
            i
        }] == other);
    }
}

proof fn placed(ids: Seq<IdView>, id: IdView)
    ensures
        transport::place_of(ids, id) <= ids.len(),
        forall|i: int| 0 <= i < transport::place_of(ids, id) ==> #[trigger] ids[i] != id,
        transport::place_of(ids, id) < ids.len() ==> ids[transport::place_of(ids, id) as int]
            == id,
    decreases ids.len(),
{
    if ids.len() > 0 && ids[0] != id {
        let rest = ids.skip(1);
        placed(rest, id);
        assert forall|i: int| 0 <= i < transport::place_of(ids, id) implies #[trigger] ids[i]
            != id by {
            if i > 0 {
                assert(rest[i - 1] == ids[i]);
            }
        }
    }
}

/// A reader hands out what it holds with what it is given up to the first
/// newline, if there is one, and then starts anew; without one it holds
/// everything. It takes no more than 8 MiB for a line.
pub proof fn lines_are_cut_at_newlines(
    reader: &mut LineReader,
    chunk: &Vec<u8>,
    result: (usize, Option<ProtocolLine>),
    line: Seq<u8>,
    rest: Seq<u8>,
)
    requires
        forall|i: int| 0 <= i < line.len() ==> #[trigger] line[i] != 10,
        call_ensures(LineReader::feed, (reader, chunk), result),
    ensures
        chunk@ == line.push(10) + rest ==> {
            &&& result.0 == line.len() + 1
            &&& result.1 is Some
            &&& final(reader)@ == Some(Seq::<u8>::empty())
            &&& old(reader)@ matches Some(held) ==> (result.1->0)@ == if held.len() + line.len()
                < 8 * 1_024 * 1_024 {
                LineView::Complete(held + line.push(10))
            } else {
                LineView::TooLarge
            }
            &&& old(reader)@ is None ==> (result.1->0)@ is TooLarge
        },
        chunk@ == line ==> {
            &&& result.0 == line.len()
            &&& result.1 is None
            &&& old(reader)@ matches Some(held) ==> final(reader)@ == if held.len() + line.len()
                <= 8 * 1_024 * 1_024 {
                Some(held + line)
            } else {
                None
            }
            &&& old(reader)@ is None ==> final(reader)@ is None
        },
{
    let held = match old(reader)@ {
        Some(held) => held,
        None => Seq::empty(),
    };
    conduct::lines_end_with_a_newline(line, rest, held);
}

/// The last line need not end with a newline; nothing at all is the end.
pub proof fn last_lines_are_handed_out(reader: &mut LineReader, line: ProtocolLine)
    requires
        call_ensures(LineReader::finish, (reader,), line),
    ensures
        old(reader)@ matches Some(held) ==> line@ == if held.len() == 0 {
            LineView::Eof
        } else {
            LineView::Complete(held)
        },
        old(reader)@ is None ==> line@ is TooLarge,
        final(reader)@ == Some(Seq::<u8>::empty()),
{
    if let Some(held) = old(reader)@ {
        assert(held.len() == 0 ==> held =~= Seq::<u8>::empty());
    }
}

/// A request for an object is sent, and counted, unless the download has been
/// cancelled by then; a download that asks for no leave is left alone.
pub proof fn fetches_are_counted(
    download: &mut Download,
    cancelled: bool,
    meter: &mut RequestMeter,
    action: DownloadAction,
)
    requires
        call_ensures(Download::request, (download, cancelled, meter), action),
    ensures
        final(meter)@.list_requests == old(meter)@.list_requests,
        old(download)@.stage != DownloadStage::Requesting ==> final(download)@ == old(download)@
            && final(meter)@ == old(meter)@,
        old(download)@.stage == DownloadStage::Requesting && cancelled ==> {
            &&& final(meter)@ == old(meter)@
            &&& final(download)@.stage == DownloadStage::Ended
            &&& action@ matches ActionView::Fail(error) && error.kind == StoreErrorKind::Cancelled
        },
        old(download)@.stage == DownloadStage::Requesting && !cancelled ==> {
            &&& final(meter)@.get_requests == (old(meter)@.get_requests + 1)
                % 0x1_0000_0000_0000_0000
            &&& final(download)@.stage == DownloadStage::Responding
            &&& action@ is Send
        },
        final(download)@.bytes == old(download)@.bytes,
        final(download)@.total == old(download)@.total,
{
}

/// A download takes one step at a time. The response is written to a partial
/// file as it comes, then flushed, synced and published: by renaming it over the
/// destination if that may be replaced, else by linking it there and removing
/// the partial file.
pub proof fn downloads_take_their_course(
    download: &mut Download,
    event: DownloadEvent,
    step: (DownloadAction, Option<DownloadProgress>),
)
    requires
        call_ensures(Download::advance, (download, event), step),
    ensures
        (final(download)@, step.0@, step.1) == download::advanced(old(download)@, event@),
        final(download)@.overwrite == old(download)@.overwrite,
        final(download)@.destination == old(download)@.destination,
        old(download)@.stage == DownloadStage::Responding ==> (event matches
            DownloadEvent::Responded { content_length, etag } ==> {
            &&& final(download)@.stage == DownloadStage::Creating
            &&& final(download)@.etag == text::optional_view(etag)
            &&& final(download)@.total == match content_length {
                Some(length) if length >= 0 => Some(length as u64),
                _ => None,
            }
            &&& step.0@ is Create
        }),
        old(download)@.stage == DownloadStage::Reading ==> (event matches DownloadEvent::Received(
            bytes,
        ) ==> {
            &&& bytes > 0 ==> final(download)@.stage == DownloadStage::Writing
                && final(download)@.pending == bytes && step.0@ is Write
            &&& bytes == 0 ==> final(download)@.stage == DownloadStage::Flushing
                && step.0@ is Flush
            &&& final(download)@.bytes == old(download)@.bytes
            &&& step.1 is None
        }),
        event is Succeeded ==> {
            let (was, is) = (old(download)@, final(download)@);
            let done = step.0@;
            &&& was.stage == DownloadStage::Creating ==> is.stage == DownloadStage::Reading
                && done is Read
            &&& was.stage == DownloadStage::Writing ==> is.stage == DownloadStage::Reading
                && done is Read && (was.bytes + was.pending <= u64::MAX ==> is.bytes == was.bytes
                + was.pending) && is.pending == 0
            &&& was.stage == DownloadStage::Flushing ==> is.stage == DownloadStage::Syncing
                && done is Sync
            &&& was.stage == DownloadStage::Syncing && (was.total is None || was.total->0
                == was.bytes) ==> if was.overwrite {
                is.stage == DownloadStage::Renaming && done is Rename
            } else {
                is.stage == DownloadStage::Linking && done is Link
            }
            &&& was.stage == DownloadStage::Linking ==> is.stage
                == DownloadStage::RemovingTemporary && done is RemoveTemporary
            &&& was.stage == DownloadStage::Reinspecting ==> is.stage
                == DownloadStage::RemovingExisting && done is RemoveExisting
            &&& was.stage == DownloadStage::RemovingExisting ==> is.stage
                == DownloadStage::RenamingAgain && done is Rename
            &&& (was.stage == DownloadStage::RemovingTemporary || was.stage
                == DownloadStage::Renaming || was.stage == DownloadStage::RenamingAgain) ==> {
                &&& is.stage == DownloadStage::Ended
                &&& done == (ActionView::Finish { bytes_transferred: was.bytes, etag: was.etag })
                &&& step.1 is Some
                &&& (step.1->0).done
                &&& (step.1->0).bytes_transferred == was.bytes
                &&& (step.1->0).total_bytes == Some(was.bytes)
            }
        },
        step.0@ is Finish ==> event is Succeeded && (old(download)@.stage
            == DownloadStage::RemovingTemporary || old(download)@.stage == DownloadStage::Renaming
            || old(download)@.stage == DownloadStage::RenamingAgain),
{
}

/// A watcher goes on as its course says, under its own name and pause.
pub proof fn watchers_take_their_course(
    run: &mut WatcherRun,
    signal: RunSignal,
    at: Timestamp,
    action: Option<RunAction>,
)
    requires
        call_ensures(WatcherRun::advance, (run, signal, at), action),
    ensures
        final(run).id() == old(run).id(),
        final(run).pause() == old(run).pause(),
        match crate::watcher::run_step(
            old(run).at_stage(),
            signal,
            old(run).id(),
            old(run).pause(),
            at@,
        ) {
            Some((stage, next)) => {
                &&& final(run).at_stage() == stage
                &&& action is Some
                &&& (action->0)@ == next
            },
            None => action is None && final(run).at_stage() == old(run).at_stage(),
        },
{
}

} // verus!
