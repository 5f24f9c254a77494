//! The watchers of a backend: how they start, what their polls change and
//! announce, what is known of them, and how they stop.

use std::sync::Arc;

use vstd::prelude::*;

use crate::cli::newest_objects;
use crate::digits;
use crate::digits::decimal_text;
use crate::error::{StoreError, StoreErrorView, UriFault};
use crate::history;
use crate::history::{NewestFirst, OldestFirst};
use crate::ids;
use crate::ids::random_id;
use crate::model;
use crate::model::{
    clone_objects, ChangeView, DownloadProgress, FeedHealth, HistorySnapshot, ObjectChange,
    PollResult, Ratio, RequestCounts, S3Object, SnapshotView, StatisticsView, WatcherConfig,
    ArrivalStatistics,
};
use crate::protocol;
use crate::protocol::{ErrorObject, ErrorObjectView};
use crate::service::{
    ArrivalSample, DownloadResult, ObjectDownloadParams, ObjectsListResult,
    StatisticsHistoryResult, StatisticsResult, WatchDefinition, WatchStartResult, WatchState,
    WatchStatusResult, WatcherStatus,
};
use crate::sorting;
use crate::sorting::sort;
use crate::text;
use crate::text::{optional_clone, starts_with, text_eq, text_less};
use crate::time;
use crate::time::{millis_between, Timestamp};
use crate::uri;
use crate::uri::{S3Uri, UriView};
use crate::watcher;
use crate::watcher::PollingWatcher;

verus! {

/// The most watchers of a backend.
pub const MAX_CONCURRENT_WATCHERS: usize = 32;

/// The most changes in one notification.
pub const NOTIFICATION_BATCH_OBJECTS: usize = 250;

/// Makes stores that reach AWS.
#[derive(Debug)]
pub struct AwsStoreFactory;

/// One watcher as the backend knows it.
#[derive(Debug)]
struct WatchSession {
    id: String,
    serial: u64,
    name: String,
    target: S3Uri,
    snapshot: Option<HistorySnapshot>,
    state: WatchState,
    last_poll_at: Option<Timestamp>,
    error: Option<String>,
    request_counts: RequestCounts,
}

/// What is known of one watcher.
pub struct SessionView {
    /// Tells a watcher from a later one of the same identifier.
    pub serial: u64,
    pub name: Seq<char>,
    pub target: UriView,
    pub snapshot: Option<SnapshotView>,
    pub state: WatchState,
    pub last_poll_at: Option<int>,
    pub error: Option<Seq<char>>,
    pub request_counts: RequestCounts,
}

pub open spec fn optional_snapshot(snapshot: Option<HistorySnapshot>) -> Option<SnapshotView> {
    match snapshot {
        Some(held) => Some(held@),
        None => None,
    }
}

impl View for WatchSession {
    type V = SessionView;

    closed spec fn view(&self) -> SessionView {
        SessionView {
            serial: self.serial,
            name: self.name@,
            target: self.target@,
            snapshot: optional_snapshot(self.snapshot),
            state: self.state,
            last_poll_at: model::instant(self.last_poll_at),
            error: text::optional_view(self.error),
            request_counts: self.request_counts,
        }
    }
}

/// Watchers by identifier.
pub type Sessions = Map<Seq<char>, SessionView>;

spec fn sessions_by_id(sessions: Seq<WatchSession>) -> Sessions
    decreases sessions.len(),
{
    if sessions.len() == 0 {
        Map::empty()
    } else {
        sessions_by_id(sessions.drop_last()).insert(sessions.last().id@, sessions.last()@)
    }
}

spec fn in_id_order(sessions: Seq<WatchSession>) -> bool {
    forall|i: int, j: int|
        #![trigger sessions[i], sessions[j]]
        0 <= i < j < sessions.len() ==> text::lex_less(sessions[i].id@, sessions[j].id@)
}

proof fn sessions_hold(sessions: Seq<WatchSession>)
    requires
        in_id_order(sessions),
    ensures
        forall|i: int|
            0 <= i < sessions.len() ==> sessions_by_id(sessions).contains_key(
                (#[trigger] sessions[i]).id@,
            ) && sessions_by_id(sessions)[sessions[i].id@] == sessions[i]@,
        forall|id: Seq<char>| #[trigger]
            sessions_by_id(sessions).contains_key(id) ==> exists|i: int|
                0 <= i < sessions.len() && (#[trigger] sessions[i]).id@ == id,
        sessions_by_id(sessions).dom().finite(),
        sessions_by_id(sessions).dom().len() == sessions.len(),
    decreases sessions.len(),
{
    if sessions.len() > 0 {
        let front = sessions.drop_last();
        let last = sessions.last();
        sessions_hold(front);
        if sessions_by_id(front).contains_key(last.id@) {
            let i = choose|i: int| 0 <= i < front.len() && (#[trigger] front[i]).id@ == last.id@;
            assert(text::lex_less(sessions[i].id@, sessions[sessions.len() - 1].id@));
            text::lex_less_irreflexive(last.id@);
        }
        assert forall|i: int| 0 <= i < sessions.len() implies sessions_by_id(
            sessions,
        ).contains_key((#[trigger] sessions[i]).id@) && sessions_by_id(sessions)[sessions[i].id@]
            == sessions[i]@ by {
            if i < front.len() {
                assert(front[i] == sessions[i]);
                assert(text::lex_less(sessions[i].id@, sessions[sessions.len() - 1].id@));
                text::lex_less_irreflexive(last.id@);
            }
        }
        assert forall|id: Seq<char>| #[trigger]
            sessions_by_id(sessions).contains_key(id) implies exists|i: int|
            0 <= i < sessions.len() && (#[trigger] sessions[i]).id@ == id by {
            if id == last.id@ {
                assert(sessions[sessions.len() - 1].id@ == id);
            } else {
                let i = choose|i: int| 0 <= i < front.len() && (#[trigger] front[i]).id@ == id;
                assert(sessions[i].id@ == id);
            }
        }
    }
}

/// Two ordered registries with the same watchers are the same map.
proof fn same_sessions(sessions: Seq<WatchSession>, goal: Sessions)
    requires
        in_id_order(sessions),
        forall|i: int|
            0 <= i < sessions.len() ==> goal.contains_key((#[trigger] sessions[i]).id@)
                && goal[sessions[i].id@] == sessions[i]@,
        forall|id: Seq<char>| #[trigger]
            goal.contains_key(id) ==> exists|i: int|
                0 <= i < sessions.len() && (#[trigger] sessions[i]).id@ == id,
    ensures
        sessions_by_id(sessions) == goal,
{
    sessions_hold(sessions);
    let held = sessions_by_id(sessions);
    assert forall|id: Seq<char>| held.contains_key(id) == goal.contains_key(id) by {
        if held.contains_key(id) {
            let i = choose|i: int| 0 <= i < sessions.len() && (#[trigger] sessions[i]).id@ == id;
            assert(goal.contains_key(sessions[i].id@));
        }
        if goal.contains_key(id) {
            let i = choose|i: int| 0 <= i < sessions.len() && (#[trigger] sessions[i]).id@ == id;
            assert(held.contains_key(sessions[i].id@));
        }
    }
    assert forall|id: Seq<char>| #[trigger] held.contains_key(id) implies held[id] == goal[id] by {
        let i = choose|i: int| 0 <= i < sessions.len() && (#[trigger] sessions[i]).id@ == id;
        assert(goal[sessions[i].id@] == sessions[i]@);
    }
    assert(held =~= goal);
}

/// The watchers of a backend.
pub struct CoreRuntime<F> {
    sessions: Vec<WatchSession>,
    factory: Arc<F>,
    default_profile: Option<String>,
    default_region: Option<String>,
    next_serial: u64,
}

impl<F> View for CoreRuntime<F> {
    type V = Sessions;

    closed spec fn view(&self) -> Sessions {
        sessions_by_id(self.sessions@)
    }
}

/// Whether a backend has no more watchers than it may.
pub open spec fn within_limit(sessions: Sessions) -> bool {
    sessions.dom().finite() && sessions.dom().len() <= MAX_CONCURRENT_WATCHERS
}

/// The error of a watcher that is not there.
pub open spec fn not_found(watcher_id: Seq<char>) -> ErrorObjectView {
    protocol::plain_error(ErrorObject::WATCHER_NOT_FOUND, "Watcher not found: "@ + watcher_id)
}

/// What keeps a watcher from being registered, if anything.
pub open spec fn registration_fault(sessions: Sessions, watcher_id: Seq<char>) -> Option<
    ErrorObjectView,
> {
    if sessions.contains_key(watcher_id) {
        Some(
            protocol::plain_error(
                ErrorObject::WATCHER_ALREADY_EXISTS,
                "Watcher already exists: "@ + watcher_id,
            ),
        )
    } else if sessions.dom().len() >= MAX_CONCURRENT_WATCHERS {
        Some(
            protocol::plain_error(
                ErrorObject::RESOURCE_LIMIT,
                "Watcher limit reached ("@ + digits::decimal(MAX_CONCURRENT_WATCHERS as nat) + ")"@,
            ),
        )
    } else {
        None
    }
}

impl CoreRuntime<AwsStoreFactory> {
    /// A backend without watchers that reaches AWS.
    pub fn new(default_profile: Option<String>, default_region: Option<String>) -> (runtime: Self)
        ensures
            runtime@ == Map::<Seq<char>, SessionView>::empty(),
            runtime.profile() == text::optional_view(default_profile),
            runtime.region() == text::optional_view(default_region),
            runtime.upcoming() == 0,
    {
        Self::with_factory(Arc::new(AwsStoreFactory), default_profile, default_region)
    }
}

impl<F> CoreRuntime<F> {
    #[verifier::type_invariant]
    closed spec fn well_formed(self) -> bool {
        &&& in_id_order(self.sessions@)
        &&& self.sessions@.len() <= MAX_CONCURRENT_WATCHERS
    }

    /// The profile of watchers that name none.
    pub closed spec fn profile(&self) -> Option<Seq<char>> {
        text::optional_view(self.default_profile)
    }

    /// The region of watchers that name none.
    pub closed spec fn region(&self) -> Option<Seq<char>> {
        text::optional_view(self.default_region)
    }

    /// The serial of the next watcher.
    pub closed spec fn upcoming(&self) -> u64 {
        self.next_serial
    }

    /// What makes the stores of watchers.
    pub closed spec fn maker(&self) -> F {
        *self.factory
    }

    /// Whether only the watchers may differ.
    pub open spec fn keeps_settings(&self, other: &Self) -> bool {
        &&& self.profile() == other.profile()
        &&& self.region() == other.region()
        &&& self.maker() == other.maker()
    }

    /// A backend without watchers.
    pub fn with_factory(
        factory: Arc<F>,
        default_profile: Option<String>,
        default_region: Option<String>,
    ) -> (runtime: Self)
        ensures
            runtime@ == Map::<Seq<char>, SessionView>::empty(),
            runtime.profile() == text::optional_view(default_profile),
            runtime.region() == text::optional_view(default_region),
            runtime.maker() == *factory,
            runtime.upcoming() == 0,
    {
        CoreRuntime {
            sessions: Vec::new(),
            factory,
            default_profile,
            default_region,
            next_serial: 0,
        }
    }

    /// What makes the stores of watchers.
    pub fn factory(&self) -> (factory: &Arc<F>)
        ensures
            **factory == self.maker(),
    {
        &self.factory
    }

    fn position(&self, watcher_id: &str) -> (at: Option<usize>)
        ensures
            match at {
                Some(i) => {
                    &&& i < self.sessions@.len()
                    &&& self.sessions@[i as int].id@ == watcher_id@
                    &&& self@.contains_key(watcher_id@)
                    &&& self@[watcher_id@] == self.sessions@[i as int]@
                },
                None => !self@.contains_key(watcher_id@),
            },
    {
        proof {
            use_type_invariant(self);
            sessions_hold(self.sessions@);
        }
        let mut i: usize = 0;
        while i < self.sessions.len()
            invariant
                i <= self.sessions@.len(),
                forall|j: int| 0 <= j < i ==> (#[trigger] self.sessions@[j]).id@ != watcher_id@,
                forall|j: int|
                    0 <= j < self.sessions@.len() ==> self@.contains_key(
                        (#[trigger] self.sessions@[j]).id@,
                    ) && self@[self.sessions@[j].id@] == self.sessions@[j]@,
                forall|id: Seq<char>| #[trigger]
                    self@.contains_key(id) ==> exists|j: int|
                        0 <= j < self.sessions@.len() && (#[trigger] self.sessions@[j]).id@ == id,
            decreases self.sessions@.len() - i,
        {
            if text_eq(self.sessions[i].id.as_str(), watcher_id) {
                return Some(i);
            }
            i += 1;
        }
        None
    }

    fn session(&self, watcher_id: &str) -> (result: Result<&WatchSession, ErrorObject>)
        ensures
            match result {
                Ok(session) => {
                    &&& self@.contains_key(watcher_id@)
                    &&& session@ == self@[watcher_id@]
                    &&& session.id@ == watcher_id@
                },
                Err(error) => !self@.contains_key(watcher_id@) && error@ == not_found(watcher_id@),
            },
    {
        match self.position(watcher_id) {
            Some(i) => Ok(&self.sessions[i]),
            None => Err(
                ErrorObject::new(
                    ErrorObject::WATCHER_NOT_FOUND,
                    "Watcher not found: ".to_owned().concat(watcher_id),
                ),
            ),
        }
    }

    fn check_registration(&self, watcher_id: &str) -> (result: Result<(), ErrorObject>)
        ensures
            match result {
                Ok(()) => registration_fault(self@, watcher_id@) is None,
                Err(error) => registration_fault(self@, watcher_id@) == Some(error@),
            },
    {
        proof {
            use_type_invariant(self);
            sessions_hold(self.sessions@);
        }
        if self.position(watcher_id).is_some() {
            return Err(
                ErrorObject::new(
                    ErrorObject::WATCHER_ALREADY_EXISTS,
                    "Watcher already exists: ".to_owned().concat(watcher_id),
                ),
            );
        }
        if self.sessions.len() >= MAX_CONCURRENT_WATCHERS {
            return Err(
                ErrorObject::new(
                    ErrorObject::RESOURCE_LIMIT,
                    "Watcher limit reached (".to_owned().concat(
                        decimal_text(MAX_CONCURRENT_WATCHERS as u128).as_str(),
                    ).concat(")"),
                ),
            );
        }
        Ok(())
    }

    /// Files a watcher under its identifier.
    fn insert(&mut self, session: WatchSession)
        requires
            !old(self)@.contains_key(session.id@),
            old(self)@.dom().len() < MAX_CONCURRENT_WATCHERS,
        ensures
            final(self)@ == old(self)@.insert(session.id@, session@),
            final(self).keeps_settings(old(self)),
            final(self).upcoming() == old(self).upcoming(),
    {
        proof {
            use_type_invariant(&*self);
            sessions_hold(self.sessions@);
        }
        let ghost goal = self@.insert(session.id@, session@);
        let ghost before = self.sessions@;
        let ghost id = session.id@;
        let mut place: usize = 0;
        while place < self.sessions.len() && text_less(
            self.sessions[place].id.as_str(),
            session.id.as_str(),
        )
            invariant
                self.sessions@ == before,
                id == session.id@,
                place <= before.len(),
                forall|i: int| 0 <= i < place ==> text::lex_less((#[trigger] before[i]).id@, id),
            decreases before.len() - place,
        {
            place += 1;
        }
        let ghost after = before.insert(place as int, session);
        proof {
            assert forall|i: int| place <= i < before.len() implies text::lex_less(
                id,
                (#[trigger] before[i]).id@,
            ) by {
                history::keys_chain(id, before[place as int].id@, before[i].id@);
                history::keys_chain(before[place as int].id@, id, id);
                assert(before[place as int].id@ != id);
                if i > place {
                    assert(text::lex_less(before[place as int].id@, before[i].id@));
                }
            }
            assert forall|i: int, j: int|
                #![trigger after[i], after[j]]
                0 <= i < j < after.len() implies text::lex_less(after[i].id@, after[j].id@) by {
                if i < place {
                    assert(after[i] == before[i]);
                } else if i > place {
                    assert(after[i] == before[i - 1]);
                }
                if j < place {
                    assert(after[j] == before[j]);
                } else if j > place {
                    assert(after[j] == before[j - 1]);
                }
                if i < place && j > place {
                    history::keys_chain(after[i].id@, id, after[j].id@);
                }
            }
            assert forall|i: int| 0 <= i < after.len() implies goal.contains_key(
                (#[trigger] after[i]).id@,
            ) && goal[after[i].id@] == after[i]@ by {
                if i < place {
                    assert(after[i] == before[i]);
                } else if i > place {
                    assert(after[i] == before[i - 1]);
                }
            }
            assert forall|key: Seq<char>| #[trigger] goal.contains_key(key) implies exists|i: int|
                0 <= i < after.len() && (#[trigger] after[i]).id@ == key by {
                if key == id {
                    assert(after[place as int].id@ == key);
                } else {
                    let i = choose|i: int|
                        0 <= i < before.len() && (#[trigger] before[i]).id@ == key;
                    if i < place {
                        assert(after[i].id@ == key);
                    } else {
                        assert(after[i + 1].id@ == key);
                    }
                }
            }
            same_sessions(after, goal);
        }
        let mut sessions: Vec<WatchSession> = Vec::new();
        std::mem::swap(&mut sessions, &mut self.sessions);
        sessions.insert(place, session);
        self.sessions = sessions;
    }

    /// Drops the watcher at a place.
    fn remove_at(&mut self, place: usize)
        requires
            place < old(self).sessions@.len(),
        ensures
            final(self)@ == old(self)@.remove(old(self).sessions@[place as int].id@),
            final(self).keeps_settings(old(self)),
            final(self).upcoming() == old(self).upcoming(),
    {
        proof {
            use_type_invariant(&*self);
            sessions_hold(self.sessions@);
        }
        let ghost before = self.sessions@;
        let ghost id = before[place as int].id@;
        let ghost goal = self@.remove(id);
        let ghost after = before.remove(place as int);
        proof {
            assert forall|i: int, j: int|
                #![trigger after[i], after[j]]
                0 <= i < j < after.len() implies text::lex_less(after[i].id@, after[j].id@) by {
                let p = if i < place {
                    i
                } else {
                    i + 1
                };
                let q = if j < place {
                    j
                } else {
                    j + 1
                };
                assert(after[i] == before[p] && after[j] == before[q]);
            }
            assert forall|i: int| 0 <= i < after.len() implies goal.contains_key(
                (#[trigger] after[i]).id@,
            ) && goal[after[i].id@] == after[i]@ by {
                let p = if i < place {
                    i
                } else {
                    i + 1
                };
                assert(after[i] == before[p]);
                history::keys_chain(before[p].id@, id, before[p].id@);
                if p < place {
                    assert(text::lex_less(before[p].id@, before[place as int].id@));
                } else {
                    assert(text::lex_less(before[place as int].id@, before[p].id@));
                }
            }
            assert forall|key: Seq<char>| #[trigger] goal.contains_key(key) implies exists|i: int|
                0 <= i < after.len() && (#[trigger] after[i]).id@ == key by {
                let p = choose|p: int| 0 <= p < before.len() && (#[trigger] before[p]).id@ == key;
                if p < place {
                    assert(after[p].id@ == key);
                } else {
                    assert(after[p - 1].id@ == key);
                }
            }
            same_sessions(after, goal);
        }
        let mut sessions: Vec<WatchSession> = Vec::new();
        std::mem::swap(&mut sessions, &mut self.sessions);
        let _ = sessions.remove(place);
        self.sessions = sessions;
    }

    /// Replaces the watcher at a place by one of the same identifier.
    fn replace_at(&mut self, place: usize, session: WatchSession)
        requires
            place < old(self).sessions@.len(),
            old(self).sessions@[place as int].id@ == session.id@,
        ensures
            final(self)@ == old(self)@.insert(session.id@, session@),
            final(self).keeps_settings(old(self)),
            final(self).upcoming() == old(self).upcoming(),
    {
        proof {
            use_type_invariant(&*self);
            sessions_hold(self.sessions@);
        }
        let ghost before = self.sessions@;
        let ghost goal = self@.insert(session.id@, session@);
        let ghost after = before.update(place as int, session);
        proof {
            assert forall|i: int, j: int|
                #![trigger after[i], after[j]]
                0 <= i < j < after.len() implies text::lex_less(after[i].id@, after[j].id@) by {
                assert(after[i].id@ == before[i].id@ && after[j].id@ == before[j].id@);
            }
            assert forall|i: int| 0 <= i < after.len() implies goal.contains_key(
                (#[trigger] after[i]).id@,
            ) && goal[after[i].id@] == after[i]@ by {
                if i != place {
                    assert(after[i] == before[i]);
                    history::keys_chain(before[i].id@, session.id@, before[i].id@);
                    if i < place {
                        assert(text::lex_less(before[i].id@, before[place as int].id@));
                    } else {
                        assert(text::lex_less(before[place as int].id@, before[i].id@));
                    }
                }
            }
            assert forall|key: Seq<char>| #[trigger] goal.contains_key(key) implies exists|i: int|
                0 <= i < after.len() && (#[trigger] after[i]).id@ == key by {
                if key == session.id@ {
                    assert(after[place as int].id@ == key);
                } else {
                    let p = choose|p: int|
                        0 <= p < before.len() && (#[trigger] before[p]).id@ == key;
                    assert(after[p].id@ == key);
                }
            }
            same_sessions(after, goal);
        }
        let mut sessions: Vec<WatchSession> = Vec::new();
        std::mem::swap(&mut sessions, &mut self.sessions);
        sessions.set(place, session);
        self.sessions = sessions;
    }
}

/// A watcher about to start.
#[derive(Debug)]
pub struct StartPlan {
    pub config: WatcherConfig,
}

/// One of two optional texts, the first if it is there.
pub open spec fn either(first: Option<Seq<char>>, second: Option<Seq<char>>) -> Option<Seq<char>> {
    if first is Some {
        first
    } else {
        second
    }
}

fn either_text(first: &Option<String>, second: &Option<String>) -> (result: Option<String>)
    ensures
        text::optional_view(result) == either(
            text::optional_view(*first),
            text::optional_view(*second),
        ),
{
    match first {
        Some(value) => Some(value.clone()),
        None => optional_clone(second),
    }
}

/// What keeps a definition from starting, if anything.
pub open spec fn start_fault(
    sessions: Sessions,
    definition: WatchDefinition,
    watcher_id: Seq<char>,
    cancelled: bool,
) -> Option<ErrorObjectView> {
    if cancelled {
        Some(protocol::cancelled_error())
    } else if registration_fault(sessions, watcher_id) is Some {
        registration_fault(sessions, watcher_id)
    } else {
        match uri::read_uri(definition.target@) {
            Err(fault) => Some(protocol::params_error(fault.text())),
            Ok(_) => None,
        }
    }
}

/// Whether a configuration is what a definition asks for.
pub open spec fn configures(
    config: WatcherConfig,
    definition: WatchDefinition,
    watcher_id: Seq<char>,
    default_profile: Option<Seq<char>>,
    default_region: Option<Seq<char>>,
) -> bool {
    &&& config.id@ == watcher_id
    &&& uri::read_uri(definition.target@) == Ok::<UriView, UriFault>(config.target@)
    &&& config.name@ == match definition.name {
        Some(name) => name@,
        None => uri::uri_text(config.target@),
    }
    &&& text::optional_view(config.profile) == either(
        text::optional_view(definition.profile),
        default_profile,
    )
    &&& text::optional_view(config.region) == either(
        text::optional_view(definition.region),
        default_region,
    )
    &&& config.poll_interval_seconds == definition.poll_interval_seconds
    &&& config.expected_interval_seconds == definition.expected_interval_seconds
    &&& config.max_history == definition.history_limit
    &&& config.lookback_periods == definition.lookback_periods
    &&& text::optional_view(config.time_zone) == text::optional_view(definition.time_zone)
}

/// A watcher that has not polled yet.
pub open spec fn fresh_session(serial: u64, name: Seq<char>, target: UriView) -> SessionView {
    SessionView {
        serial,
        name,
        target,
        snapshot: None,
        state: WatchState::Running,
        last_poll_at: None,
        error: None,
        request_counts: RequestCounts { list_requests: 0, get_requests: 0 },
    }
}

/// What keeps a planned watcher from being registered, if anything.
pub open spec fn launch_fault(
    sessions: Sessions,
    config: WatcherConfig,
    store: Result<(), String>,
    cancelled: bool,
) -> Option<ErrorObjectView> {
    if store is Err {
        Some(
            protocol::detailed_error(
                ErrorObject::BACKEND_ERROR,
                "S3 operation failed"@,
                store->Err_0@,
            ),
        )
    } else if cancelled {
        Some(protocol::cancelled_error())
    } else if watcher::watcher_fault(config) is Some {
        Some(protocol::params_error(watcher::watcher_fault(config)->0.text()))
    } else {
        registration_fault(sessions, config.id@)
    }
}

/// Whether the watcher of an identifier is the one of a serial.
pub open spec fn is_current(sessions: Sessions, watcher_id: Seq<char>, serial: u64) -> bool {
    sessions.contains_key(watcher_id) && sessions[watcher_id].serial == serial
}

/// The watchers once the task of one is over.
pub open spec fn stopped_after(sessions: Sessions, watcher_id: Seq<char>, serial: u64) -> Sessions {
    if is_current(sessions, watcher_id, serial) {
        sessions.insert(
            watcher_id,
            SessionView { state: WatchState::Stopped, ..sessions[watcher_id] },
        )
    } else {
        sessions
    }
}

impl<F> CoreRuntime<F> {
    /// Plans a watcher under a given identifier; the store has to be made next.
    pub fn plan_start(
        &self,
        definition: &WatchDefinition,
        watcher_id: String,
        cancelled: bool,
    ) -> (result: Result<StartPlan, ErrorObject>)
        ensures
            match result {
                Ok(plan) => {
                    &&& start_fault(self@, *definition, watcher_id@, cancelled) is None
                    &&& configures(
                        plan.config,
                        *definition,
                        watcher_id@,
                        self.profile(),
                        self.region(),
                    )
                },
                Err(error) => start_fault(self@, *definition, watcher_id@, cancelled) == Some(
                    error@,
                ),
            },
    {
        if cancelled {
            return Err(ErrorObject::cancelled());
        }
        if let Err(error) = self.check_registration(watcher_id.as_str()) {
            return Err(error);
        }
        let target = match S3Uri::parse(definition.target.as_str()) {
            Ok(target) => target,
            Err(error) => {
                return Err(ErrorObject::invalid_params(error.message().as_str()));
            },
        };
        let name = match &definition.name {
            Some(name) => name.clone(),
            None => target.to_text(),
        };
        let config = WatcherConfig {
            id: watcher_id,
            name,
            target,
            profile: either_text(&definition.profile, &self.default_profile),
            region: either_text(&definition.region, &self.default_region),
            poll_interval_seconds: definition.poll_interval_seconds,
            expected_interval_seconds: definition.expected_interval_seconds,
            max_history: definition.history_limit,
            lookback_periods: definition.lookback_periods,
            time_zone: optional_clone(&definition.time_zone),
        };
        Ok(StartPlan { config })
    }

    /// Begins `watch.start`: plans a watcher under its own identifier, or under a
    /// random one if it names none.
    pub fn watch_start(&self, definition: &WatchDefinition, cancelled: bool) -> (result: Result<
        StartPlan,
        ErrorObject,
    >)
        ensures
            exists|watcher_id: Seq<char>|
                {
                    &&& match definition.id {
                        Some(id) => watcher_id == id@,
                        None => ids::uuid_shaped(watcher_id),
                    }
                    &&& match result {
                        Ok(plan) => {
                            &&& #[trigger] start_fault(self@, *definition, watcher_id, cancelled)
                                is None
                            &&& configures(
                                plan.config,
                                *definition,
                                watcher_id,
                                self.profile(),
                                self.region(),
                            )
                        },
                        Err(error) => start_fault(self@, *definition, watcher_id, cancelled)
                            == Some(error@),
                    }
                },
    {
        let watcher_id = match &definition.id {
            Some(id) => id.clone(),
            None => random_id(),
        };
        let ghost id = watcher_id@;
        let result = self.plan_start(definition, watcher_id, cancelled);
        assert(start_fault(self@, *definition, id, cancelled) is None || start_fault(
            self@,
            *definition,
            id,
            cancelled,
        ) is Some);
        result
    }

    /// Goes on with `watch.start` once making the store has succeeded or failed:
    /// builds the watcher and registers it.
    pub fn launch(&mut self, plan: StartPlan, store: Result<(), String>, cancelled: bool) -> (result:
        Result<(PollingWatcher, u64), ErrorObject>)
        ensures
            within_limit(final(self)@),
            final(self).keeps_settings(old(self)),
            match result {
                Ok((watcher, serial)) => {
                    &&& launch_fault(old(self)@, plan.config, store, cancelled) is None
                    &&& watcher.configuration() == plan.config
                    &&& watcher.known() == Map::<Seq<char>, model::ObjectView>::empty()
                    &&& serial == old(self).upcoming()
                    &&& final(self).upcoming() == old(self).upcoming().wrapping_add(1)
                    &&& final(self)@ == old(self)@.insert(
                        plan.config.id@,
                        fresh_session(serial, plan.config.name@, plan.config.target@),
                    )
                },
                Err(error) => {
                    &&& launch_fault(old(self)@, plan.config, store, cancelled) == Some(error@)
                    &&& final(self)@ == old(self)@
                    &&& final(self).upcoming() == old(self).upcoming()
                },
            },
    {
        proof {
            use_type_invariant(&*self);
            sessions_hold(self.sessions@);
        }
        if let Err(message) = store {
            return Err(ErrorObject::backend(message.as_str()));
        }
        if cancelled {
            return Err(ErrorObject::cancelled());
        }
        let id = plan.config.id.clone();
        let name = plan.config.name.clone();
        let target = plan.config.target.copy();
        let watcher = match PollingWatcher::new(plan.config) {
            Ok(watcher) => watcher,
            Err(error) => {
                return Err(ErrorObject::invalid_params(error.message().as_str()));
            },
        };
        if let Err(error) = self.check_registration(id.as_str()) {
            return Err(error);
        }
        let serial: u64 = self.next_serial;
        self.insert(
            WatchSession {
                id,
                serial,
                name,
                target,
                snapshot: None,
                state: WatchState::Running,
                last_poll_at: None,
                error: None,
                request_counts: RequestCounts { list_requests: 0, get_requests: 0 },
            },
        );
        proof {
            use_type_invariant(&*self);
        }
        self.next_serial = serial.wrapping_add(1);
        Ok((watcher, serial))
    }

    fn remove_current(&mut self, watcher_id: &str, serial: u64)
        ensures
            within_limit(final(self)@),
            final(self).keeps_settings(old(self)),
            final(self).upcoming() == old(self).upcoming(),
            final(self)@ == if is_current(old(self)@, watcher_id@, serial) {
                old(self)@.remove(watcher_id@)
            } else {
                old(self)@
            },
    {
        proof {
            use_type_invariant(&*self);
            sessions_hold(self.sessions@);
        }
        if let Some(i) = self.position(watcher_id) {
            if self.sessions[i].serial == serial {
                self.remove_at(i);
            }
        }
    }

    /// Ends `watch.start`: the watcher stays unless the request was cancelled
    /// meanwhile. What is answered is announced first.
    pub fn confirm_start(&mut self, watcher_id: String, serial: u64, cancelled: bool) -> (result:
        Result<(WatchStartResult, Notice), ErrorObject>)
        ensures
            within_limit(final(self)@),
            final(self).keeps_settings(old(self)),
            final(self).upcoming() == old(self).upcoming(),
            match result {
                Ok((started, notice)) => {
                    &&& !cancelled
                    &&& started.watcher_id@ == watcher_id@
                    &&& started.status == WatchState::Running
                    &&& notice@ == (NoticeView::StatusChanged {
                        watcher_id: watcher_id@,
                        status: WatchState::Running,
                    })
                    &&& final(self)@ == old(self)@
                },
                Err(error) => {
                    &&& cancelled
                    &&& error@ == protocol::cancelled_error()
                    &&& final(self)@ == if is_current(old(self)@, watcher_id@, serial) {
                        old(self)@.remove(watcher_id@)
                    } else {
                        old(self)@
                    }
                },
            },
    {
        proof {
            use_type_invariant(&*self);
            sessions_hold(self.sessions@);
        }
        if cancelled {
            self.remove_current(watcher_id.as_str(), serial);
            return Err(ErrorObject::cancelled());
        }
        let notice = Notice::StatusChanged {
            watcher_id: watcher_id.clone(),
            status: WatchState::Running,
        };
        Ok((WatchStartResult { watcher_id, status: WatchState::Running }, notice))
    }

    /// Begins `watch.stop`: the serial of the watcher to stop.
    pub fn find_serial(&self, watcher_id: &str) -> (result: Result<u64, ErrorObject>)
        ensures
            match result {
                Ok(serial) => is_current(self@, watcher_id@, serial),
                Err(error) => !self@.contains_key(watcher_id@) && error@ == not_found(watcher_id@),
            },
    {
        match self.session(watcher_id) {
            Ok(session) => Ok(session.serial),
            Err(error) => Err(error),
        }
    }

    /// Goes on with `watch.stop` once the watcher's task is over: marks the watcher
    /// and says what to announce. The watcher is still registered, so no other can
    /// take its identifier before the announcement.
    pub fn announce_stop(&mut self, watcher_id: &str, serial: u64) -> (notice: Notice)
        ensures
            within_limit(final(self)@),
            final(self).keeps_settings(old(self)),
            final(self).upcoming() == old(self).upcoming(),
            final(self)@ == stopped_after(old(self)@, watcher_id@, serial),
            notice@ == (NoticeView::StatusChanged {
                watcher_id: watcher_id@,
                status: WatchState::Stopped,
            }),
    {
        self.record_stopped(watcher_id, serial);
        Notice::StatusChanged { watcher_id: watcher_id.to_owned(), status: WatchState::Stopped }
    }

    /// Ends `watch.stop` once the stop has been announced.
    pub fn watch_stop(&mut self, watcher_id: String, serial: u64) -> (result: WatchStartResult)
        ensures
            within_limit(final(self)@),
            final(self).keeps_settings(old(self)),
            final(self).upcoming() == old(self).upcoming(),
            result.watcher_id@ == watcher_id@,
            result.status == WatchState::Stopped,
            final(self)@ == if is_current(old(self)@, watcher_id@, serial) {
                old(self)@.remove(watcher_id@)
            } else {
                old(self)@
            },
    {
        self.remove_current(watcher_id.as_str(), serial);
        WatchStartResult { watcher_id, status: WatchState::Stopped }
    }
}

/// Something that clients are told of a watcher.
#[derive(Debug)]
pub enum Notice {
    StatusChanged { watcher_id: String, status: WatchState },
    /// New or changed objects.
    ObjectsAdded { watcher_id: String, changes: Vec<ObjectChange> },
    StatisticsUpdated {
        watcher_id: String,
        statistics: ArrivalStatistics,
        request_counts: RequestCounts,
    },
    WatchFailed { watcher_id: String, error: StoreError },
}

/// What a [`Notice`] says.
pub enum NoticeView {
    StatusChanged { watcher_id: Seq<char>, status: WatchState },
    ObjectsAdded { watcher_id: Seq<char>, changes: Seq<ChangeView> },
    StatisticsUpdated {
        watcher_id: Seq<char>,
        statistics: StatisticsView,
        request_counts: RequestCounts,
    },
    WatchFailed { watcher_id: Seq<char>, error: StoreErrorView },
}

impl View for Notice {
    type V = NoticeView;

    open spec fn view(&self) -> NoticeView {
        match *self {
            Notice::StatusChanged { watcher_id, status } => NoticeView::StatusChanged {
                watcher_id: watcher_id@,
                status,
            },
            Notice::ObjectsAdded { watcher_id, changes } => NoticeView::ObjectsAdded {
                watcher_id: watcher_id@,
                changes: model::changes_view(changes@),
            },
            Notice::StatisticsUpdated { watcher_id, statistics, request_counts } => {
                NoticeView::StatisticsUpdated {
                    watcher_id: watcher_id@,
                    statistics: statistics@,
                    request_counts,
                }
            },
            Notice::WatchFailed { watcher_id, error } => NoticeView::WatchFailed {
                watcher_id: watcher_id@,
                error: error@,
            },
        }
    }
}

pub open spec fn notices_view(notices: Seq<Notice>) -> Seq<NoticeView> {
    notices.map_values(|notice: Notice| notice@)
}

/// Changes in batches that a notification can hold.
pub open spec fn batched(watcher_id: Seq<char>, changes: Seq<ChangeView>) -> Seq<NoticeView>
    decreases changes.len(),
{
    if changes.len() == 0 {
        Seq::empty()
    } else if changes.len() <= NOTIFICATION_BATCH_OBJECTS {
        seq![NoticeView::ObjectsAdded { watcher_id, changes }]
    } else {
        seq![
            NoticeView::ObjectsAdded {
                watcher_id,
                changes: changes.take(NOTIFICATION_BATCH_OBJECTS as int),
            },
        ] + batched(watcher_id, changes.skip(NOTIFICATION_BATCH_OBJECTS as int))
    }
}

/// What a poll is announced as.
pub open spec fn poll_notices(
    watcher_id: Seq<char>,
    state: WatchState,
    counts: RequestCounts,
    outcome: Result<PollResult, StoreError>,
) -> Seq<NoticeView> {
    match outcome {
        Ok(poll) => {
            let recovered = if state == WatchState::Error {
                seq![NoticeView::StatusChanged { watcher_id, status: WatchState::Running }]
            } else {
                Seq::empty()
            };
            (recovered + batched(watcher_id, model::changes_view(poll.update.changes@))).push(
                NoticeView::StatisticsUpdated {
                    watcher_id,
                    statistics: poll.snapshot.statistics@,
                    request_counts: counts,
                },
            )
        },
        Err(error) => seq![
            NoticeView::WatchFailed { watcher_id, error: error@ },
            NoticeView::StatusChanged { watcher_id, status: WatchState::Error },
        ],
    }
}

/// What a poll makes of a watcher.
pub open spec fn polled_session(
    session: SessionView,
    counts: RequestCounts,
    outcome: Result<PollResult, StoreError>,
) -> SessionView {
    match outcome {
        Ok(poll) => SessionView {
            snapshot: Some(poll.snapshot@),
            state: WatchState::Running,
            last_poll_at: Some(poll.polled_at@),
            error: None,
            request_counts: counts,
            ..session
        },
        Err(error) => SessionView {
            state: WatchState::Error,
            error: Some(error.message@),
            request_counts: counts,
            ..session
        },
    }
}

/// Splits changes into notifications.
fn batch_changes(watcher_id: &str, changes: Vec<ObjectChange>) -> (notices: Vec<Notice>)
    ensures
        notices_view(notices@) == batched(watcher_id@, model::changes_view(changes@)),
{
    let ghost all = model::changes_view(changes@);
    let mut notices: Vec<Notice> = Vec::new();
    let mut rest: Vec<ObjectChange> = changes;
    assert(notices_view(notices@) =~= Seq::empty());
    assert(notices_view(notices@) + batched(watcher_id@, all) =~= batched(watcher_id@, all));
    while rest.len() > NOTIFICATION_BATCH_OBJECTS
        invariant
            notices_view(notices@) + batched(watcher_id@, model::changes_view(rest@)) == batched(
                watcher_id@,
                all,
            ),
        decreases rest@.len(),
    {
        let ghost before = model::changes_view(rest@);
        let ghost earlier = notices_view(notices@);
        let later = rest.split_off(NOTIFICATION_BATCH_OBJECTS);
        let notice = Notice::ObjectsAdded { watcher_id: watcher_id.to_owned(), changes: rest };
        proof {
            let limit = NOTIFICATION_BATCH_OBJECTS as int;
            assert(model::changes_view(rest@) =~= before.take(limit));
            assert(model::changes_view(later@) =~= before.skip(limit));
            assert(before.len() > limit);
            assert(batched(watcher_id@, before) == seq![notice@] + batched(
                watcher_id@,
                before.skip(limit),
            ));
            assert(earlier + (seq![notice@] + batched(watcher_id@, before.skip(limit)))
                =~= earlier.push(notice@) + batched(watcher_id@, before.skip(limit)));
        }
        let ghost said = notice@;
        notices.push(notice);
        assert(notices_view(notices@) =~= earlier.push(said));
        rest = later;
    }
    let ghost earlier = notices_view(notices@);
    assert(model::changes_view(rest@).len() == rest@.len());
    if rest.len() > 0 {
        let notice = Notice::ObjectsAdded { watcher_id: watcher_id.to_owned(), changes: rest };
        let ghost said = notice@;
        notices.push(notice);
        assert(notices_view(notices@) =~= earlier + seq![said]);
    } else {
        assert(batched(watcher_id@, model::changes_view(rest@)) =~= Seq::empty());
        assert(notices_view(notices@) =~= earlier + Seq::<NoticeView>::empty());
    }
    notices
}

impl<F> CoreRuntime<F> {
    /// Takes in what came of a poll and says what to announce; nothing if the
    /// watcher is no longer there.
    pub fn record_poll(
        &mut self,
        watcher_id: &str,
        serial: u64,
        counts: RequestCounts,
        outcome: Result<PollResult, StoreError>,
    ) -> (notices: Vec<Notice>)
        ensures
            within_limit(final(self)@),
            final(self).keeps_settings(old(self)),
            final(self).upcoming() == old(self).upcoming(),
            if is_current(old(self)@, watcher_id@, serial) {
                &&& final(self)@ == old(self)@.insert(
                    watcher_id@,
                    polled_session(old(self)@[watcher_id@], counts, outcome),
                )
                &&& notices_view(notices@) == poll_notices(
                    watcher_id@,
                    old(self)@[watcher_id@].state,
                    counts,
                    outcome,
                )
            } else {
                final(self)@ == old(self)@ && notices@.len() == 0
            },
    {
        proof {
            use_type_invariant(&*self);
            sessions_hold(self.sessions@);
        }
        let place: usize = match self.position(watcher_id) {
            Some(i) => i,
            None => {
                return Vec::new();
            },
        };
        let current = &self.sessions[place];
        if current.serial != serial {
            return Vec::new();
        }
        let id = current.id.clone();
        let name = current.name.clone();
        let target = current.target.copy();
        let recovered: bool = current.state == WatchState::Error;
        match outcome {
            Ok(poll) => {
                let statistics = poll.snapshot.statistics;
                let session = WatchSession {
                    id,
                    serial,
                    name,
                    target,
                    snapshot: Some(poll.snapshot),
                    state: WatchState::Running,
                    last_poll_at: Some(poll.polled_at),
                    error: None,
                    request_counts: counts,
                };
                self.replace_at(place, session);
                let mut notices: Vec<Notice> = Vec::new();
                if recovered {
                    notices.push(
                        Notice::StatusChanged {
                            watcher_id: watcher_id.to_owned(),
                            status: WatchState::Running,
                        },
                    );
                }
                let ghost first = notices_view(notices@);
                let ghost recovery = if recovered {
                    seq![
                        NoticeView::StatusChanged {
                            watcher_id: watcher_id@,
                            status: WatchState::Running,
                        },
                    ]
                } else {
                    Seq::empty()
                };
                assert(first =~= recovery);
                let mut batches = batch_changes(watcher_id, poll.update.changes);
                let ghost middle = notices_view(batches@);
                notices.append(&mut batches);
                assert(notices_view(notices@) =~= first + middle);
                let ghost both = notices_view(notices@);
                notices.push(
                    Notice::StatisticsUpdated {
                        watcher_id: watcher_id.to_owned(),
                        statistics,
                        request_counts: counts,
                    },
                );
                assert(notices_view(notices@) =~= both.push(
                    NoticeView::StatisticsUpdated {
                        watcher_id: watcher_id@,
                        statistics: statistics@,
                        request_counts: counts,
                    },
                ));
                notices
            },
            Err(error) => {
                let last_poll_at = current.last_poll_at;
                let snapshot = match &current.snapshot {
                    Some(held) => Some(copy_snapshot(held)),
                    None => None,
                };
                let session = WatchSession {
                    id,
                    serial,
                    name,
                    target,
                    snapshot,
                    state: WatchState::Error,
                    last_poll_at,
                    error: Some(error.message.clone()),
                    request_counts: counts,
                };
                self.replace_at(place, session);
                let mut notices: Vec<Notice> = Vec::new();
                let ghost said = error@;
                notices.push(Notice::WatchFailed { watcher_id: watcher_id.to_owned(), error });
                notices.push(
                    Notice::StatusChanged {
                        watcher_id: watcher_id.to_owned(),
                        status: WatchState::Error,
                    },
                );
                assert(notices_view(notices@) =~= seq![
                    NoticeView::WatchFailed { watcher_id: watcher_id@, error: said },
                    NoticeView::StatusChanged {
                        watcher_id: watcher_id@,
                        status: WatchState::Error,
                    },
                ]);
                notices
            },
        }
    }

    /// Notes the requests that a watcher's store has issued so far.
    pub fn note_requests(&mut self, watcher_id: &str, serial: u64, counts: RequestCounts)
        ensures
            within_limit(final(self)@),
            final(self).keeps_settings(old(self)),
            final(self).upcoming() == old(self).upcoming(),
            final(self)@ == if is_current(old(self)@, watcher_id@, serial) {
                old(self)@.insert(
                    watcher_id@,
                    SessionView { request_counts: counts, ..old(self)@[watcher_id@] },
                )
            } else {
                old(self)@
            },
    {
        proof {
            use_type_invariant(&*self);
            sessions_hold(self.sessions@);
        }
        let place: usize = match self.position(watcher_id) {
            Some(i) => i,
            None => {
                return ;
            },
        };
        let current = &self.sessions[place];
        if current.serial != serial {
            return ;
        }
        let session = WatchSession {
            id: current.id.clone(),
            serial,
            name: current.name.clone(),
            target: current.target.copy(),
            snapshot: match &current.snapshot {
                Some(held) => Some(copy_snapshot(held)),
                None => None,
            },
            state: current.state,
            last_poll_at: current.last_poll_at,
            error: optional_clone(&current.error),
            request_counts: counts,
        };
        self.replace_at(place, session);
    }

    /// Marks a watcher whose task is over.
    pub fn record_stopped(&mut self, watcher_id: &str, serial: u64)
        ensures
            within_limit(final(self)@),
            final(self).keeps_settings(old(self)),
            final(self).upcoming() == old(self).upcoming(),
            final(self)@ == stopped_after(old(self)@, watcher_id@, serial),
    {
        proof {
            use_type_invariant(&*self);
            sessions_hold(self.sessions@);
        }
        let place: usize = match self.position(watcher_id) {
            Some(i) => i,
            None => {
                return ;
            },
        };
        let current = &self.sessions[place];
        if current.serial != serial {
            return ;
        }
        let session = WatchSession {
            id: current.id.clone(),
            serial,
            name: current.name.clone(),
            target: current.target.copy(),
            snapshot: match &current.snapshot {
                Some(held) => Some(copy_snapshot(held)),
                None => None,
            },
            state: WatchState::Stopped,
            last_poll_at: current.last_poll_at,
            error: optional_clone(&current.error),
            request_counts: current.request_counts,
        };
        self.replace_at(place, session);
    }
}

fn copy_snapshot(snapshot: &HistorySnapshot) -> (copy: HistorySnapshot)
    ensures
        copy@ == snapshot@,
{
    let mut intervals: Vec<model::ArrivalInterval> = Vec::new();
    let mut i: usize = 0;
    while i < snapshot.intervals.len()
        invariant
            i <= snapshot.intervals@.len(),
            intervals@.len() == i,
            forall|j: int| 0 <= j < i ==> (#[trigger] intervals@[j])@ == snapshot.intervals@[j]@,
        decreases snapshot.intervals@.len() - i,
    {
        let interval = &snapshot.intervals[i];
        intervals.push(
            model::ArrivalInterval {
                previous_key: interval.previous_key.clone(),
                key: interval.key.clone(),
                previous_arrival: interval.previous_arrival,
                arrival: interval.arrival,
                seconds: interval.seconds,
            },
        );
        i += 1;
    }
    assert(intervals@.map_values(|interval: model::ArrivalInterval| interval@)
        =~= snapshot.intervals@.map_values(|interval: model::ArrivalInterval| interval@));
    HistorySnapshot {
        objects: clone_objects(&snapshot.objects),
        intervals,
        statistics: snapshot.statistics,
    }
}

/// Whether a status says what is known of a watcher.
pub open spec fn reports(status: WatcherStatus, watcher_id: Seq<char>, session: SessionView) -> bool {
    &&& status.watcher_id@ == watcher_id
    &&& status.name@ == session.name
    &&& status.target@ == uri::uri_text(session.target)
    &&& status.status == session.state
    &&& status.request_counts == session.request_counts
    &&& text::optional_view(status.last_poll_at) == match session.last_poll_at {
        Some(at) => Some(time::rfc3339_text(at) + "+00:00"@),
        None => None,
    }
    &&& text::optional_view(status.error) == session.error
    &&& match session.snapshot {
        Some(snapshot) => {
            &&& status.object_count == snapshot.objects.len()
            &&& status.health is Some
            &&& status.health->0@ == snapshot.statistics.health
        },
        None => status.object_count == 0 && status.health is None,
    }
}

fn status_of(session: &WatchSession) -> (status: WatcherStatus)
    ensures
        reports(status, session.id@, session@),
{
    let (object_count, health): (usize, Option<FeedHealth>) = match &session.snapshot {
        Some(snapshot) => {
            assert(snapshot@.objects.len() == snapshot.objects@.len());
            (snapshot.objects.len(), Some(snapshot.statistics.health))
        },
        None => (0, None),
    };
    WatcherStatus {
        watcher_id: session.id.clone(),
        name: session.name.clone(),
        target: session.target.to_text(),
        status: session.state,
        object_count,
        request_counts: session.request_counts,
        health,
        last_poll_at: match &session.last_poll_at {
            Some(at) => Some(at.to_rfc3339()),
            None => None,
        },
        error: optional_clone(&session.error),
    }
}

/// The newest of a watcher's objects; all of them without a limit.
pub open spec fn listed_objects(objects: Seq<S3Object>, limit: Option<usize>) -> Seq<S3Object> {
    let sorted = sorting::sorted::<S3Object, NewestFirst>(objects);
    match limit {
        Some(most) => history::first(sorted, most as nat),
        None => sorted,
    }
}

/// The last of a sequence.
pub open spec fn last_of<T>(sequence: Seq<T>, limit: Option<usize>) -> Seq<T> {
    match limit {
        Some(most) if most < sequence.len() => sequence.skip(sequence.len() - most),
        _ => sequence,
    }
}

/// Whether samples show arrivals in their order with the time since the one
/// before, which the first one lacks.
pub open spec fn samples_show(samples: Seq<ArrivalSample>, objects: Seq<S3Object>) -> bool {
    &&& samples.len() == objects.len()
    &&& forall|i: int|
        #![trigger samples[i]]
        0 <= i < samples.len() ==> {
            &&& samples[i].key@ == objects[i].key@
            &&& samples[i].last_modified@ == objects[i].last_modified@
            &&& samples[i].interval_seconds == if i == 0 {
                None
            } else {
                Some(
                    Ratio {
                        numerator: time::elapsed_millis(
                            objects[i - 1].last_modified@,
                            objects[i].last_modified@,
                        ) as u128,
                        denominator: 1_000,
                    },
                )
            }
        }
}

fn sample_arrivals(objects: &Vec<S3Object>) -> (samples: Vec<ArrivalSample>)
    ensures
        samples_show(samples@, objects@),
{
    let mut samples: Vec<ArrivalSample> = Vec::new();
    let mut i: usize = 0;
    while i < objects.len()
        invariant
            i <= objects@.len(),
            samples_show(samples@, objects@.take(i as int)),
        decreases objects@.len() - i,
    {
        let ghost before = samples@;
        let interval_seconds = if i == 0 {
            None
        } else {
            let millis: u64 = millis_between(
                &objects[i - 1].last_modified,
                &objects[i].last_modified,
            );
            Some(Ratio { numerator: millis as u128, denominator: 1_000 })
        };
        samples.push(
            ArrivalSample {
                key: objects[i].key.clone(),
                last_modified: objects[i].last_modified,
                interval_seconds,
            },
        );
        proof {
            let shown = objects@.take(i + 1);
            assert forall|j: int| 0 <= j < samples@.len() implies ({
                &&& (#[trigger] samples@[j]).key@ == shown[j].key@
                &&& samples@[j].last_modified@ == shown[j].last_modified@
                &&& samples@[j].interval_seconds == if j == 0 {
                    None
                } else {
                    Some(
                        Ratio {
                            numerator: time::elapsed_millis(
                                shown[j - 1].last_modified@,
                                shown[j].last_modified@,
                            ) as u128,
                            denominator: 1_000,
                        },
                    )
                }
            }) by {
                if j < i {
                    assert(samples@[j] == before[j]);
                    assert(shown[j] == objects@.take(i as int)[j]);
                    if j > 0 {
                        assert(shown[j - 1] == objects@.take(i as int)[j - 1]);
                    }
                }
            }
        }
        i += 1;
    }
    assert(objects@.take(i as int) =~= objects@);
    samples
}

impl<F> CoreRuntime<F> {
    /// Answers `watch.status`: one watcher, or all of them in the order of their
    /// identifiers.
    pub fn watch_status(&self, watcher_id: Option<String>) -> (result: Result<
        WatchStatusResult,
        ErrorObject,
    >)
        ensures
            within_limit(self@),
            match (watcher_id, result) {
                (Some(id), Ok(status)) => {
                    &&& self@.contains_key(id@)
                    &&& status.watchers@.len() == 1
                    &&& reports(status.watchers@[0], id@, self@[id@])
                },
                (Some(id), Err(error)) => !self@.contains_key(id@) && error@ == not_found(id@),
                (None, Ok(status)) => {
                    let watchers = status.watchers@;
                    &&& watchers.len() == self@.dom().len()
                    &&& forall|i: int, j: int|
                        #![trigger watchers[i], watchers[j]]
                        0 <= i < j < watchers.len() ==> text::lex_less(
                            watchers[i].watcher_id@,
                            watchers[j].watcher_id@,
                        )
                    &&& forall|i: int|
                        0 <= i < watchers.len() ==> self@.contains_key(
                            (#[trigger] watchers[i]).watcher_id@,
                        ) && reports(
                            watchers[i],
                            watchers[i].watcher_id@,
                            self@[watchers[i].watcher_id@],
                        )
                },
                (None, Err(_)) => false,
            },
    {
        proof {
            use_type_invariant(self);
            sessions_hold(self.sessions@);
        }
        let mut watchers: Vec<WatcherStatus> = Vec::new();
        if let Some(id) = watcher_id {
            match self.session(id.as_str()) {
                Ok(session) => {
                    watchers.push(status_of(session));
                },
                Err(error) => {
                    return Err(error);
                },
            }
            return Ok(WatchStatusResult { watchers });
        }
        let mut i: usize = 0;
        while i < self.sessions.len()
            invariant
                in_id_order(self.sessions@),
                i <= self.sessions@.len(),
                watchers@.len() == i,
                forall|j: int|
                    0 <= j < i ==> reports(
                        #[trigger] watchers@[j],
                        self.sessions@[j].id@,
                        self.sessions@[j]@,
                    ),
            decreases self.sessions@.len() - i,
        {
            watchers.push(status_of(&self.sessions[i]));
            i += 1;
        }
        proof {
            let listed = watchers@;
            assert forall|i: int, j: int|
                #![trigger listed[i], listed[j]]
                0 <= i < j < listed.len() implies text::lex_less(
                listed[i].watcher_id@,
                listed[j].watcher_id@,
            ) by {
                assert(listed[i].watcher_id@ == self.sessions@[i].id@);
                assert(listed[j].watcher_id@ == self.sessions@[j].id@);
            }
            assert forall|i: int| 0 <= i < listed.len() implies self@.contains_key(
                (#[trigger] listed[i]).watcher_id@,
            ) && reports(
                listed[i],
                listed[i].watcher_id@,
                self@[listed[i].watcher_id@],
            ) by {
                assert(self@.contains_key(self.sessions@[i].id@));
            }
        }
        Ok(WatchStatusResult { watchers })
    }

    /// Answers `objects.list`: the newest objects, newest first.
    pub fn objects_list(&self, watcher_id: String, limit: Option<usize>) -> (result: Result<
        ObjectsListResult,
        ErrorObject,
    >)
        ensures
            match result {
                Ok(list) => {
                    &&& self@.contains_key(watcher_id@)
                    &&& list.watcher_id@ == watcher_id@
                    &&& exists|objects: Seq<S3Object>|
                        {
                            &&& model::objects_view(objects) == match self@[watcher_id@].snapshot {
                                Some(snapshot) => snapshot.objects,
                                None => Seq::empty(),
                            }
                            &&& list.objects@ == #[trigger] listed_objects(objects, limit)
                        }
                },
                Err(error) => !self@.contains_key(watcher_id@) && error@ == not_found(watcher_id@),
            },
    {
        let session = match self.session(watcher_id.as_str()) {
            Ok(session) => session,
            Err(error) => {
                return Err(error);
            },
        };
        let objects = match &session.snapshot {
            Some(snapshot) => clone_objects(&snapshot.objects),
            None => Vec::new(),
        };
        assert(session.snapshot is None ==> model::objects_view(objects@) =~= Seq::empty());
        let most: usize = match limit {
            Some(most) => most,
            None => objects.len(),
        };
        let ghost held = objects@;
        let listed = newest_objects(objects, most);
        proof {
            let sorted = sorting::sorted::<S3Object, NewestFirst>(held);
            assert(limit is None ==> history::first(sorted, most as nat) == sorted);
            assert(listed@ == listed_objects(held, limit));
        }
        Ok(ObjectsListResult { watcher_id, objects: listed })
    }

    /// Answers `statistics.frequency`.
    pub fn statistics_frequency(&self, watcher_id: String) -> (result: Result<
        StatisticsResult,
        ErrorObject,
    >)
        ensures
            match result {
                Ok(answer) => {
                    &&& self@.contains_key(watcher_id@)
                    &&& answer.watcher_id@ == watcher_id@
                    &&& answer.request_counts == self@[watcher_id@].request_counts
                    &&& match self@[watcher_id@].snapshot {
                        Some(snapshot) => answer.statistics is Some && answer.statistics->0@
                            == snapshot.statistics,
                        None => answer.statistics is None,
                    }
                },
                Err(error) => !self@.contains_key(watcher_id@) && error@ == not_found(watcher_id@),
            },
    {
        let session = match self.session(watcher_id.as_str()) {
            Ok(session) => session,
            Err(error) => {
                return Err(error);
            },
        };
        let statistics = match &session.snapshot {
            Some(snapshot) => Some(snapshot.statistics),
            None => None,
        };
        Ok(StatisticsResult { watcher_id, statistics, request_counts: session.request_counts })
    }

    /// Answers `statistics.history`: the last arrivals, oldest first.
    pub fn statistics_history(&self, watcher_id: String, limit: Option<usize>) -> (result: Result<
        StatisticsHistoryResult,
        ErrorObject,
    >)
        ensures
            match result {
                Ok(answer) => {
                    &&& self@.contains_key(watcher_id@)
                    &&& answer.watcher_id@ == watcher_id@
                    &&& exists|objects: Seq<S3Object>|
                        {
                            &&& model::objects_view(objects) == match self@[watcher_id@].snapshot {
                                Some(snapshot) => snapshot.objects,
                                None => Seq::empty(),
                            }
                            &&& samples_show(
                                answer.samples@,
                                last_of(
                                    #[trigger] sorting::sorted::<S3Object, OldestFirst>(objects),
                                    limit,
                                ),
                            )
                        }
                },
                Err(error) => !self@.contains_key(watcher_id@) && error@ == not_found(watcher_id@),
            },
    {
        let session = match self.session(watcher_id.as_str()) {
            Ok(session) => session,
            Err(error) => {
                return Err(error);
            },
        };
        let objects = match &session.snapshot {
            Some(snapshot) => clone_objects(&snapshot.objects),
            None => Vec::new(),
        };
        assert(session.snapshot is None ==> model::objects_view(objects@) =~= Seq::empty());
        let ghost held = objects@;
        let mut sorted = sort::<S3Object, OldestFirst>(objects);
        let ghost all = sorted@;
        if let Some(most) = limit {
            if most < sorted.len() {
                let cut: usize = sorted.len() - most;
                sorted = sorted.split_off(cut);
                assert(sorted@ =~= all.skip(all.len() - most));
            }
        }
        assert(sorted@ == last_of(all, limit));
        let samples = sample_arrivals(&sorted);
        Ok(StatisticsHistoryResult { watcher_id, samples })
    }
}

/// A download about to start.
#[derive(Debug)]
pub struct DownloadPlan {
    pub source: S3Uri,
    pub download_id: String,
}

/// What keeps an object from being downloaded through a watcher, if anything.
pub open spec fn plan_fault(
    sessions: Sessions,
    watcher_id: Seq<char>,
    key: Seq<char>,
) -> Option<ErrorObjectView> {
    if !sessions.contains_key(watcher_id) {
        Some(not_found(watcher_id))
    } else {
        let target = sessions[watcher_id].target;
        if target.prefix.len() > 0 && !text::begins_with(key, target.prefix) {
            Some(protocol::params_error("key is outside the watcher's prefix"@))
        } else {
            match uri::uri_fault(target.bucket, key) {
                Some(fault) => Some(protocol::params_error(fault.text())),
                None => None,
            }
        }
    }
}

/// Progress of a download, or how it ended.
#[derive(Debug)]
pub struct DownloadNotice {
    pub watcher_id: String,
    pub download_id: String,
    pub key: String,
    pub bytes_transferred: u64,
    pub total_bytes: Option<u64>,
    pub percent: Option<Ratio>,
    pub done: bool,
    pub error: Option<StoreError>,
}

/// What a [`DownloadNotice`] says.
pub struct DownloadNoticeView {
    pub watcher_id: Seq<char>,
    pub download_id: Seq<char>,
    pub key: Seq<char>,
    pub bytes_transferred: u64,
    pub total_bytes: Option<u64>,
    pub percent: Option<Ratio>,
    pub done: bool,
    pub error: Option<StoreErrorView>,
}

/// What a notice says.
pub open spec fn notice_view(notice: DownloadNotice) -> DownloadNoticeView {
    DownloadNoticeView {
        watcher_id: notice.watcher_id@,
        download_id: notice.download_id@,
        key: notice.key@,
        bytes_transferred: notice.bytes_transferred,
        total_bytes: notice.total_bytes,
        percent: notice.percent,
        done: notice.done,
        error: match notice.error {
            Some(error) => Some(error@),
            None => None,
        },
    }
}

/// How a sample of a download's progress is announced.
pub open spec fn progress_notice(
    params: ObjectDownloadParams,
    download_id: Seq<char>,
    progress: DownloadProgress,
) -> DownloadNoticeView {
    DownloadNoticeView {
        watcher_id: params.watcher_id@,
        download_id,
        key: params.key@,
        bytes_transferred: progress.bytes_transferred,
        total_bytes: progress.total_bytes,
        percent: progress.percent,
        done: false,
        error: None,
    }
}

/// How the end of a download is announced: with all of its bytes if it came to
/// a good end, and else with the bytes reported last and what went wrong.
pub open spec fn closing_notice(
    params: ObjectDownloadParams,
    download_id: Seq<char>,
    transferred: u64,
    outcome: Result<u64, StoreError>,
) -> DownloadNoticeView {
    DownloadNoticeView {
        watcher_id: params.watcher_id@,
        download_id,
        key: params.key@,
        bytes_transferred: match outcome {
            Ok(bytes) => bytes,
            Err(_) => transferred,
        },
        total_bytes: None,
        percent: None,
        done: true,
        error: match outcome {
            Ok(_) => None,
            Err(error) => Some(error@),
        },
    }
}

/// The byte count that samples reported last.
pub open spec fn last_reported(samples: Seq<DownloadProgress>) -> u64 {
    if samples.len() == 0 {
        0
    } else {
        samples.last().bytes_transferred
    }
}

/// All that is announced of a download.
pub open spec fn download_notices(
    params: ObjectDownloadParams,
    download_id: Seq<char>,
    samples: Seq<DownloadProgress>,
    outcome: Result<u64, StoreError>,
) -> Seq<DownloadNoticeView> {
    samples.map_values(
        |progress: DownloadProgress| progress_notice(params, download_id, progress),
    ).push(closing_notice(params, download_id, last_reported(samples), outcome))
}

/// Whatever the store reports, every notice of a download names it alike, and
/// exactly the last one is its end. That one repeats the bytes reported last if
/// the download failed, and else gives those of the answer.
pub proof fn downloads_close_once(
    params: ObjectDownloadParams,
    download_id: Seq<char>,
    samples: Seq<DownloadProgress>,
    outcome: Result<u64, StoreError>,
)
    ensures
        ({
            let notices = download_notices(params, download_id, samples, outcome);
            &&& notices.len() == samples.len() + 1
            &&& forall|i: int|
                0 <= i < notices.len() ==> {
                    &&& (#[trigger] notices[i]).watcher_id == params.watcher_id@
                    &&& notices[i].download_id == download_id
                    &&& notices[i].key == params.key@
                    &&& notices[i].done <==> i == notices.len() - 1
                }
            &&& notices.last().bytes_transferred == match outcome {
                Ok(bytes) => bytes,
                Err(_) => last_reported(samples),
            }
            &&& (outcome is Err && samples.len() > 0) ==> notices.last().bytes_transferred
                == notices[notices.len() - 2].bytes_transferred
        }),
{
}

impl<F> CoreRuntime<F> {
    /// Plans a download under its own identifier, or under a random one if it
    /// names none.
    pub fn object_download(&self, params: &ObjectDownloadParams) -> (result: Result<
        DownloadPlan,
        ErrorObject,
    >)
        ensures
            match result {
                Ok(plan) => {
                    &&& plan_fault(self@, params.watcher_id@, params.key@) is None
                    &&& plan.source@ == (UriView {
                        bucket: self@[params.watcher_id@].target.bucket,
                        prefix: params.key@,
                    })
                    &&& match params.download_id {
                        Some(id) => plan.download_id@ == id@,
                        None => ids::uuid_shaped(plan.download_id@),
                    }
                },
                Err(error) => plan_fault(self@, params.watcher_id@, params.key@) == Some(error@),
            },
    {
        let session = match self.session(params.watcher_id.as_str()) {
            Ok(session) => session,
            Err(error) => {
                return Err(error);
            },
        };
        if !session.target.prefix.as_str().is_empty() && !starts_with(
            params.key.as_str(),
            session.target.prefix.as_str(),
        ) {
            return Err(ErrorObject::invalid_params("key is outside the watcher's prefix"));
        }
        let source = match session.target.for_object(params.key.clone()) {
            Ok(source) => source,
            Err(error) => {
                return Err(ErrorObject::invalid_params(error.message().as_str()));
            },
        };
        let download_id = match &params.download_id {
            Some(id) => id.clone(),
            None => random_id(),
        };
        Ok(DownloadPlan { source, download_id })
    }
}

/// Tells a client how far its download has come. Whatever the sample says, the
/// end is announced apart.
pub fn augment_progress(
    params: &ObjectDownloadParams,
    download_id: &str,
    progress: &DownloadProgress,
) -> (notice: DownloadNotice)
    ensures
        notice_view(notice) == progress_notice(*params, download_id@, *progress),
{
    DownloadNotice {
        watcher_id: params.watcher_id.clone(),
        download_id: download_id.to_owned(),
        key: params.key.clone(),
        bytes_transferred: progress.bytes_transferred,
        total_bytes: progress.total_bytes,
        percent: progress.percent,
        done: false,
        error: None,
    }
}

/// Ends `object.download`: what to announce and what to answer. `transferred` is
/// the byte count reported last, nothing if none was.
pub fn finish_download(
    params: ObjectDownloadParams,
    download_id: String,
    transferred: u64,
    outcome: Result<u64, StoreError>,
) -> (end: (DownloadNotice, Result<DownloadResult, ErrorObject>))
    ensures
        notice_view(end.0) == closing_notice(params, download_id@, transferred, outcome),
        match outcome {
            Ok(bytes) => {
                &&& end.1 is Ok
                &&& end.1->Ok_0.watcher_id@ == params.watcher_id@
                &&& end.1->Ok_0.download_id@ == download_id@
                &&& end.1->Ok_0.destination@ == params.destination@
                &&& end.1->Ok_0.bytes == bytes
            },
            Err(error) => {
                &&& end.1 is Err
                &&& end.1->Err_0@ == protocol::store_error(error@)
            },
        },
{
    let watcher_id = params.watcher_id.clone();
    let announced_id = download_id.clone();
    let key = params.key.clone();
    match outcome {
        Ok(bytes) => (
            DownloadNotice {
                watcher_id,
                download_id: announced_id,
                key,
                bytes_transferred: bytes,
                total_bytes: None,
                percent: None,
                done: true,
                error: None,
            },
            Ok(
                DownloadResult {
                    watcher_id: params.watcher_id,
                    download_id,
                    destination: params.destination,
                    bytes,
                },
            ),
        ),
        Err(error) => {
            let answer = ErrorObject::store(&error);
            (
                DownloadNotice {
                    watcher_id,
                    download_id: announced_id,
                    key,
                    bytes_transferred: transferred,
                    total_bytes: None,
                    percent: None,
                    done: true,
                    error: Some(error),
                },
                Err(answer),
            )
        },
    }
}

/// A watcher that may be registered keeps the backend within its limit.
pub proof fn watchers_stay_within_the_limit(
    sessions: Sessions,
    watcher_id: Seq<char>,
    session: SessionView,
)
    requires
        sessions.dom().finite(),
        registration_fault(sessions, watcher_id) is None,
    ensures
        within_limit(sessions.insert(watcher_id, session)),
{
}

/// A stopped watcher's identifier can be used again.
pub proof fn identifiers_can_be_reused(sessions: Sessions, watcher_id: Seq<char>)
    requires
        within_limit(sessions),
        sessions.contains_key(watcher_id),
    ensures
        registration_fault(sessions.remove(watcher_id), watcher_id) is None,
{
}

/// A start that is cancelled after its watcher was registered leaves the backend
/// as it was.
pub proof fn cancelled_starts_leave_no_trace(
    sessions: Sessions,
    watcher_id: Seq<char>,
    serial: u64,
    name: Seq<char>,
    target: UriView,
)
    requires
        registration_fault(sessions, watcher_id) is None,
    ensures
        ({
            let started = sessions.insert(watcher_id, fresh_session(serial, name, target));
            &&& is_current(started, watcher_id, serial)
            &&& started.remove(watcher_id) == sessions
        }),
{
    let started = sessions.insert(watcher_id, fresh_session(serial, name, target));
    assert(started.remove(watcher_id) =~= sessions);
}

/// What a stopped watcher still reports is not taken for a report of a later
/// watcher with its identifier.
pub proof fn restarted_watchers_are_told_apart(
    sessions: Sessions,
    watcher_id: Seq<char>,
    serial: u64,
    later: u64,
    name: Seq<char>,
    target: UriView,
)
    requires
        serial != later,
    ensures
        !is_current(
            sessions.insert(watcher_id, fresh_session(later, name, target)),
            watcher_id,
            serial,
        ),
{
}

/// The changes of a run of batches, one after the other.
pub open spec fn unbatched(notices: Seq<NoticeView>) -> Seq<ChangeView>
    decreases notices.len(),
{
    if notices.len() == 0 {
        Seq::empty()
    } else {
        match notices[0] {
            NoticeView::ObjectsAdded { changes, .. } => changes + unbatched(notices.skip(1)),
            _ => unbatched(notices.skip(1)),
        }
    }
}

/// Batches hold every change once, in order, and none is empty or too large.
pub proof fn batches_hold_every_change(watcher_id: Seq<char>, changes: Seq<ChangeView>)
    ensures
        unbatched(batched(watcher_id, changes)) == changes,
        forall|i: int|
            0 <= i < batched(watcher_id, changes).len() ==> ((#[trigger] batched(
                watcher_id,
                changes,
            )[i]) matches NoticeView::ObjectsAdded { watcher_id: id, changes: batch } && id
                == watcher_id && 0 < batch.len() <= NOTIFICATION_BATCH_OBJECTS),
    decreases changes.len(),
{
    let all = batched(watcher_id, changes);
    if changes.len() == 0 {
        assert(unbatched(all) =~= changes);
    } else if changes.len() <= NOTIFICATION_BATCH_OBJECTS {
        assert(all.skip(1) =~= Seq::empty());
        assert(unbatched(all.skip(1)) =~= Seq::empty());
        assert(unbatched(all) =~= changes + Seq::<ChangeView>::empty());
        assert(changes + Seq::<ChangeView>::empty() =~= changes);
    } else {
        let limit = NOTIFICATION_BATCH_OBJECTS as int;
        let rest = batched(watcher_id, changes.skip(limit));
        batches_hold_every_change(watcher_id, changes.skip(limit));
        assert(all.skip(1) =~= rest);
        assert(unbatched(all) =~= changes.take(limit) + changes.skip(limit));
        assert(changes.take(limit) + changes.skip(limit) =~= changes);
        assert forall|i: int| 0 <= i < all.len() implies ((#[trigger] all[i]) matches
            NoticeView::ObjectsAdded { watcher_id: id, changes: batch } && id == watcher_id && 0
            < batch.len() <= NOTIFICATION_BATCH_OBJECTS) by {
            if i > 0 {
                assert(all[i] == rest[i - 1]);
            }
        }
    }
}

/// The watcher that a notice is about.
pub open spec fn notice_subject(notice: NoticeView) -> Seq<char> {
    match notice {
        NoticeView::StatusChanged { watcher_id, .. } => watcher_id,
        NoticeView::ObjectsAdded { watcher_id, .. } => watcher_id,
        NoticeView::StatisticsUpdated { watcher_id, .. } => watcher_id,
        NoticeView::WatchFailed { watcher_id, .. } => watcher_id,
    }
}

/// Whatever comes of a poll, every notice of it names its watcher.
pub proof fn notices_name_their_watcher(
    watcher_id: Seq<char>,
    state: WatchState,
    counts: RequestCounts,
    outcome: Result<PollResult, StoreError>,
)
    ensures
        forall|i: int|
            0 <= i < poll_notices(watcher_id, state, counts, outcome).len() ==> notice_subject(
                #[trigger] poll_notices(watcher_id, state, counts, outcome)[i],
            ) == watcher_id,
{
    if let Ok(poll) = outcome {
        let changes = model::changes_view(poll.update.changes@);
        let batches = batched(watcher_id, changes);
        batches_hold_every_change(watcher_id, changes);
        let all = poll_notices(watcher_id, state, counts, outcome);
        let skipped = all.len() - batches.len() - 1;
        assert forall|i: int| 0 <= i < all.len() implies notice_subject(#[trigger] all[i])
            == watcher_id by {
            if skipped <= i < all.len() - 1 {
                assert(all[i] == batches[i - skipped]);
            }
        }
    }
}

/// A watcher that fails and then succeeds is running again, without its error,
/// and clients are told so first.
pub proof fn recovery_is_announced(
    session: SessionView,
    watcher_id: Seq<char>,
    counts: RequestCounts,
    error: StoreError,
    poll: PollResult,
)
    ensures
        ({
            let failed = polled_session(session, counts, Err(error));
            let recovered = polled_session(failed, counts, Ok(poll));
            let notices = poll_notices(watcher_id, failed.state, counts, Ok(poll));
            &&& failed.state == WatchState::Error
            &&& failed.snapshot == session.snapshot
            &&& recovered.state == WatchState::Running
            &&& recovered.error is None
            &&& notices.len() > 0
            &&& notices[0] == NoticeView::StatusChanged {
                watcher_id,
                status: WatchState::Running,
            }
        }),
{
}

} // verus!
