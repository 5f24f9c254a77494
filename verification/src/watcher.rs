//! A single polling loop: what it lists, what it makes of a listing and what it
//! does next.

use vstd::prelude::*;

use crate::error::{StoreError, StoreErrorView, TemplateFault, WatcherError, WatcherFault};
use crate::history;
use crate::history::{Objects, RollingHistory};
use crate::model;
use crate::model::{
    ArrivalInterval, ObjectView, PollResult, S3Object, WatcherConfig, WatcherEvent,
};
use crate::sorting::reversed;
use crate::statistics;
use crate::template;
use crate::template::{parse_time_zone, DateTemplate, Granularity};
use crate::time;
use crate::time::{Timestamp, Zone, FIRST_SECOND, LAST_SECOND};
use crate::uri;
use crate::uri::{S3Uri, UriView};

verus! {

/// What keeps a watcher from being built, if anything.
pub open spec fn watcher_fault(config: WatcherConfig) -> Option<WatcherFault> {
    if model::config_fault(config) is Some {
        Some(WatcherFault::InvalidConfig(model::config_fault(config)->0))
    } else {
        match template::read_template(config.target@.prefix) {
            Err(fault) => Some(WatcherFault::InvalidTemplate(fault)),
            Ok(_) => match config.time_zone {
                Some(name) if !time::zone_listed(name@) => Some(
                    WatcherFault::InvalidTemplate(
                        TemplateFault::UnknownTimeZone(name@),
                    ),
                ),
                _ => None,
            },
        }
    }
}

/// The steps of a configuration's target; none for one that does not read.
pub open spec fn target_tokens(config: WatcherConfig) -> Seq<template::Token> {
    match template::read_template(config.target@.prefix) {
        Ok(tokens) => tokens,
        Err(_) => Seq::empty(),
    }
}

/// Whether the time line reaches far enough around an instant to resolve the
/// targets of a configuration.
pub open spec fn can_resolve(config: WatcherConfig, at: int) -> bool {
    let tokens = target_tokens(config);
    let seconds = at / 1_000_000_000;
    if template::finest(tokens) is None {
        true
    } else if config.time_zone is None {
        template::reaches_back(tokens, seconds, config.lookback_periods as int)
    } else {
        &&& template::reaches_back(tokens, seconds - 86400, config.lookback_periods as int)
        &&& FIRST_SECOND + 86400 <= seconds <= LAST_SECOND - 86400
    }
}

/// The prefixes that a configuration watches at an instant.
pub open spec fn watched_prefixes(config: WatcherConfig, at: int) -> Seq<Seq<char>> {
    let tokens = target_tokens(config);
    if template::finest(tokens) is None {
        seq![config.target@.prefix]
    } else {
        match config.time_zone {
            None => template::resolved(tokens, at, config.lookback_periods as nat),
            Some(name) => template::resolved_in(
                tokens,
                at,
                config.lookback_periods as nat,
                name@,
            ),
        }
    }
}

/// The targets that a configuration watches at an instant.
pub open spec fn watched_targets(config: WatcherConfig, at: int) -> Seq<UriView> {
    uri::in_bucket(config.target@.bucket, watched_prefixes(config, at))
}

/// The objects of several listings, one after the other.
pub open spec fn all_listed(listings: Seq<Vec<S3Object>>) -> Seq<ObjectView>
    decreases listings.len(),
{
    if listings.len() == 0 {
        Seq::empty()
    } else {
        all_listed(listings.drop_last()) + model::objects_view(listings.last()@)
    }
}

/// A single independently cancellable polling loop.
///
/// The watcher owns no global registry and performs no persistence, which lets
/// several frontends supervise multiple instances.
#[derive(Debug)]
pub struct PollingWatcher {
    config: WatcherConfig,
    history: RollingHistory,
    template: Option<DateTemplate>,
    zone: Option<Zone>,
}

impl PollingWatcher {
    /// The configuration.
    pub closed spec fn configuration(&self) -> WatcherConfig {
        self.config
    }

    /// The objects known so far.
    pub closed spec fn known(&self) -> Objects {
        self.history@
    }

    #[verifier::type_invariant]
    closed spec fn well_formed(self) -> bool {
        &&& watcher_fault(self.config) is None
        &&& match self.template {
            Some(template) => {
                &&& template::read_template(self.config.target@.prefix) == Ok::<
                    Seq<template::Token>,
                    TemplateFault,
                >(template@)
                &&& template::finest(template@) is Some
            },
            None => template::finest(target_tokens(self.config)) is None,
        }
        &&& match self.config.time_zone {
            Some(name) => self.zone is Some && self.zone->0@ == name@,
            None => self.zone is None,
        }
        &&& self.history.limit() == self.config.max_history
        &&& self.history.cadence() == self.config.expected_interval_seconds
    }

    /// A watcher for a configuration, or the first thing wrong with it. Failing
    /// here means that a typo surfaces immediately rather than as a feed that
    /// silently watches a prefix nothing writes to.
    pub fn new(config: WatcherConfig) -> (result: Result<Self, WatcherError>)
        ensures
            match result {
                Ok(watcher) => {
                    &&& watcher_fault(config) is None
                    &&& watcher.configuration() == config
                    &&& watcher.known() == Map::<Seq<char>, ObjectView>::empty()
                },
                Err(error) => watcher_fault(config) == Some(error@),
            },
    {
        if let Err(error) = config.validate() {
            return Err(WatcherError::InvalidConfig(error));
        }
        let history = match RollingHistory::with_expected_interval(
            config.max_history,
            config.expected_interval_seconds,
        ) {
            Ok(history) => history,
            Err(error) => {
                return Err(WatcherError::InvalidConfig(error));
            },
        };
        let template = match DateTemplate::parse(config.target.prefix.as_str()) {
            Ok(template) => template,
            Err(error) => {
                return Err(WatcherError::InvalidTemplate(error));
            },
        };
        let zone = match &config.time_zone {
            Some(name) => match parse_time_zone(name.as_str()) {
                Ok(zone) => Some(zone),
                Err(error) => {
                    return Err(WatcherError::InvalidTemplate(error));
                },
            },
            None => None,
        };
        Ok(PollingWatcher { config, history, template, zone })
    }

    /// The configuration.
    pub fn config(&self) -> (config: &WatcherConfig)
        ensures
            *config == self.configuration(),
            watcher_fault(*config) is None,
    {
        proof {
            use_type_invariant(self);
        }
        &self.config
    }

    /// The history collected so far.
    pub fn history(&self) -> (history: &RollingHistory)
        ensures
            history@ == self.known(),
            history.limit() == self.configuration().max_history,
            history.cadence() == self.configuration().expected_interval_seconds,
    {
        proof {
            use_type_invariant(self);
        }
        &self.history
    }

    /// Whether the targets can be resolved at an instant. Near the ends of the
    /// time line they cannot.
    pub fn can_resolve_at(&self, at: &Timestamp) -> (result: bool)
        ensures
            result == can_resolve(self.configuration(), at@),
    {
        proof {
            use_type_invariant(self);
        }
        let seconds: i128 = at.seconds() as i128;
        let steps: i128 = self.config.lookback_periods as i128;
        match &self.template {
            None => true,
            Some(template) => {
                let margin: i128 = if self.zone.is_some() {
                    86400
                } else {
                    0
                };
                let reaches: bool = match template.granularity() {
                    Granularity::Hour => seconds - margin - steps * 3600 >= FIRST_SECOND as i128,
                    Granularity::Day => seconds - margin - steps * 86400 >= FIRST_SECOND as i128,
                    _ => true,
                };
                reaches && (self.zone.is_none() || (FIRST_SECOND as i128 + 86400 <= seconds
                    && seconds <= LAST_SECOND as i128 - 86400))
            },
        }
    }

    /// The concrete prefixes that a poll lists.
    ///
    /// One entry for an ordinary target; for a templated one, the current
    /// period plus the configured number of earlier ones. Placeholders resolve in
    /// UTC unless a zone is configured, so the zone `UTC` makes no difference.
    pub fn resolve_targets(&self, at: Timestamp) -> (targets: Vec<S3Uri>)
        requires
            can_resolve(self.configuration(), at@),
        ensures
            targets@.map_values(|target: S3Uri| target@) == watched_targets(
                self.configuration(),
                at@,
            ),
            self.configuration().time_zone matches Some(name) && name@ == "UTC"@
                ==> targets@.map_values(|target: S3Uri| target@) == watched_targets(
                WatcherConfig { time_zone: None, ..self.configuration() },
                at@,
            ),
    {
        proof {
            use_type_invariant(self);
        }
        match &self.template {
            None => {
                let targets = vec![self.config.target.copy()];
                assert(targets@.map_values(|target: S3Uri| target@) =~= watched_targets(
                    self.config,
                    at@,
                ));
                targets
            },
            Some(template) => {
                let prefixes = match &self.zone {
                    Some(zone) => template.resolve_in(at, self.config.lookback_periods, zone),
                    None => template.resolve(at, self.config.lookback_periods),
                };
                assert(prefixes@.map_values(|prefix: String| prefix@) == watched_prefixes(
                    self.config,
                    at@,
                ));
                self.config.target.with_prefixes(&prefixes)
            },
        }
    }

    /// Reconciles the listings of one poll.
    ///
    /// A templated target lists every resolved prefix; all of them go into the
    /// one history, which merges them because it is keyed by object key. A
    /// failed listing changes nothing.
    pub fn poll_once(
        &mut self,
        listings: Result<Vec<Vec<S3Object>>, StoreError>,
        polled_at: Timestamp,
    ) -> (result: Result<PollResult, StoreError>)
        ensures
            final(self).configuration() == old(self).configuration(),
            match (listings, result) {
                (Err(error), Err(reported)) => reported == error && final(self).known() == old(
                    self,
                ).known(),
                (Ok(pages), Ok(poll)) => {
                    let listed = all_listed(pages@);
                    let limit = old(self).configuration().max_history as nat;
                    &&& final(self).known() == history::history_after(
                        old(self).known(),
                        listed,
                        limit,
                    )
                    &&& poll_reports(poll, old(self).known(), listed, limit, polled_at@, old(
                        self,
                    ).configuration().expected_interval_seconds)
                },
                _ => false,
            },
    {
        proof {
            use_type_invariant(&*self);
        }
        let pages = match listings {
            Ok(pages) => pages,
            Err(error) => {
                return Err(error);
            },
        };
        let objects = concatenated(pages);
        let listed_object_count: usize = objects.len();
        assert(model::objects_view(objects@).len() == objects@.len());
        let mut history = self.history.emptied();
        std::mem::swap(&mut history, &mut self.history);
        let update = history.upsert_many(objects);
        let snapshot = history.snapshot_at(polled_at, None);
        self.history = history;
        Ok(PollResult { polled_at, listed_object_count, update, snapshot })
    }
}

/// What a completed poll reports.
pub open spec fn poll_reports(
    poll: PollResult,
    old: Objects,
    listed: Seq<ObjectView>,
    limit: nat,
    polled_at: int,
    cadence: Option<u64>,
) -> bool {
    let known = history::history_after(old, listed, limit);
    &&& poll.polled_at@ == polled_at
    &&& poll.listed_object_count == listed.len()
    &&& model::changes_view(poll.update.changes@) == history::changes_after(old, listed, limit)
    &&& model::objects_view(poll.update.evicted@) == history::evicted_after(old, listed, limit)
    &&& model::objects_view(poll.snapshot.objects@) == history::newest_listing(known)
    &&& poll.snapshot.intervals@.map_values(|interval: ArrivalInterval| interval@)
        == statistics::intervals_of(history::oldest_listing(known))
    &&& poll.snapshot.statistics@ == statistics::statistics_of(
        history::oldest_listing(known),
        polled_at,
        cadence,
    )
}

/// Joins listings.
fn concatenated(listings: Vec<Vec<S3Object>>) -> (objects: Vec<S3Object>)
    ensures
        model::objects_view(objects@) == all_listed(listings@),
{
    let ghost all = listings@;
    let mut rest: Vec<Vec<S3Object>> = reversed(listings);
    let mut objects: Vec<S3Object> = Vec::new();
    let ghost mut taken: int = 0;
    assert(all.take(0) =~= Seq::empty());
    assert(model::objects_view(objects@) =~= all_listed(all.take(0)));
    while rest.len() > 0
        invariant
            0 <= taken <= all.len(),
            rest@ == all.skip(taken).reverse(),
            model::objects_view(objects@) == all_listed(all.take(taken)),
        decreases rest@.len(),
    {
        let ghost before = rest@;
        let ghost held = objects@;
        if let Some(page) = rest.pop() {
            let mut page = page;
            let ghost added = page@;
            objects.append(&mut page);
            proof {
                assert(before.last() == all[taken]);
                assert(all.take(taken + 1).drop_last() =~= all.take(taken));
                assert(all.take(taken + 1).last() == all[taken]);
                assert(objects@ == held + added);
                assert(model::objects_view(objects@) =~= model::objects_view(held)
                    + model::objects_view(added));
                assert(rest@ =~= all.skip(taken + 1).reverse());
                taken = taken + 1;
            }
        }
    }
    assert(all.take(taken) =~= all);
    objects
}

/// What a polling loop is waiting for.
#[derive(Clone, Copy, Debug, PartialEq, Eq, Structural)]
pub enum RunStage {
    /// Its start being announced.
    Announcing,
    /// A poll.
    Polling,
    /// What came of a poll being announced.
    Reporting,
    /// The next poll to be due.
    Waiting,
    /// Its end being announced.
    Stopping,
    Ended,
}

/// What a polling loop asks to be done.
#[derive(Debug, PartialEq)]
pub enum RunAction {
    Send(WatcherEvent),
    Poll,
    Sleep { seconds: u64 },
    Return(Result<(), WatcherError>),
}

/// What came of the last action.
#[derive(Debug, PartialEq)]
pub enum RunSignal {
    /// The event was taken; says whether a cancellation is pending.
    Sent { cancelled: bool },
    /// Nobody takes events any more.
    ChannelClosed,
    /// A cancellation came first.
    Cancelled,
    Polled(Result<PollResult, StoreError>),
    Slept,
}

/// What a [`WatcherEvent`] says.
pub enum LifecycleView {
    Started { watcher_id: Seq<char>, at: int },
    PollCompleted { watcher_id: Seq<char>, result: PollResult },
    PollFailed { watcher_id: Seq<char>, at: int, error: StoreErrorView },
    Stopped { watcher_id: Seq<char>, at: int },
}

impl View for WatcherEvent {
    type V = LifecycleView;

    open spec fn view(&self) -> LifecycleView {
        match *self {
            WatcherEvent::Started { watcher_id, at } => LifecycleView::Started {
                watcher_id: watcher_id@,
                at: at@,
            },
            WatcherEvent::PollCompleted { watcher_id, result } => LifecycleView::PollCompleted {
                watcher_id: watcher_id@,
                result: *result,
            },
            WatcherEvent::PollFailed { watcher_id, at, error } => LifecycleView::PollFailed {
                watcher_id: watcher_id@,
                at: at@,
                error: error@,
            },
            WatcherEvent::Stopped { watcher_id, at } => LifecycleView::Stopped {
                watcher_id: watcher_id@,
                at: at@,
            },
        }
    }
}

/// What a [`RunAction`] says.
pub enum RunActionView {
    Send(LifecycleView),
    Poll,
    Sleep { seconds: u64 },
    Return(Option<WatcherFault>),
}

impl View for RunAction {
    type V = RunActionView;

    open spec fn view(&self) -> RunActionView {
        match *self {
            RunAction::Send(event) => RunActionView::Send(event@),
            RunAction::Poll => RunActionView::Poll,
            RunAction::Sleep { seconds } => RunActionView::Sleep { seconds },
            RunAction::Return(result) => RunActionView::Return(
                match result {
                    Ok(()) => None,
                    Err(error) => Some(error@),
                },
            ),
        }
    }
}

/// How a poll is announced.
pub open spec fn announced(
    watcher_id: Seq<char>,
    outcome: Result<PollResult, StoreError>,
    at: int,
) -> LifecycleView {
    match outcome {
        Ok(result) => LifecycleView::PollCompleted { watcher_id, result },
        Err(error) => LifecycleView::PollFailed { watcher_id, at, error: error@ },
    }
}

/// What a signal does to a loop in some stage: the next stage and action, or
/// nothing where the stage does not wait for the signal. Polls happen
/// immediately and then at the configured interval until cancelled. A failed
/// poll is announced rather than ending the loop, so transient failures can
/// recover.
pub open spec fn run_step(
    stage: RunStage,
    signal: RunSignal,
    watcher_id: Seq<char>,
    interval: u64,
    at: int,
) -> Option<(RunStage, RunActionView)> {
    let stop = Some(
        (RunStage::Stopping, RunActionView::Send(LifecycleView::Stopped { watcher_id, at })),
    );
    let poll = Some((RunStage::Polling, RunActionView::Poll));
    match (stage, signal) {
        (RunStage::Announcing, RunSignal::Sent { cancelled }) => if cancelled {
            stop
        } else {
            poll
        },
        (RunStage::Polling, RunSignal::Cancelled) => stop,
        (RunStage::Polling, RunSignal::Polled(outcome)) => Some(
            (RunStage::Reporting, RunActionView::Send(announced(watcher_id, outcome, at))),
        ),
        (RunStage::Reporting, RunSignal::Sent { cancelled: _ }) => Some(
            (RunStage::Waiting, RunActionView::Sleep { seconds: interval }),
        ),
        (RunStage::Waiting, RunSignal::Cancelled) => stop,
        (RunStage::Waiting, RunSignal::Slept) => poll,
        (RunStage::Stopping, RunSignal::Sent { cancelled: _ }) => Some(
            (RunStage::Ended, RunActionView::Return(None)),
        ),
        (RunStage::Announcing, RunSignal::ChannelClosed)
        | (RunStage::Reporting, RunSignal::ChannelClosed)
        | (RunStage::Stopping, RunSignal::ChannelClosed) => Some(
            (RunStage::Ended, RunActionView::Return(Some(WatcherFault::EventChannelClosed))),
        ),
        _ => None,
    }
}

/// A polling loop under way.
#[derive(Debug)]
pub struct WatcherRun {
    watcher_id: String,
    interval: u64,
    stage: RunStage,
}

impl WatcherRun {
    /// The watcher's identifier.
    pub closed spec fn id(&self) -> Seq<char> {
        self.watcher_id@
    }

    /// The seconds between polls.
    pub closed spec fn pause(&self) -> u64 {
        self.interval
    }

    /// What the loop is waiting for.
    pub closed spec fn at_stage(&self) -> RunStage {
        self.stage
    }

    /// The loop of a watcher and its first action.
    pub fn start(config: &WatcherConfig, at: Timestamp) -> (result: (WatcherRun, RunAction))
        ensures
            result.0.id() == config.id@,
            result.0.pause() == config.poll_interval_seconds,
            result.0.at_stage() == RunStage::Announcing,
            result.1@ == RunActionView::Send(
                LifecycleView::Started { watcher_id: config.id@, at: at@ },
            ),
    {
        let run = WatcherRun {
            watcher_id: config.id.clone(),
            interval: config.poll_interval_seconds,
            stage: RunStage::Announcing,
        };
        (run, RunAction::Send(WatcherEvent::Started { watcher_id: config.id.clone(), at }))
    }

    /// Takes in what came of the last action and says what to do next; `None`
    /// where the loop was not waiting for that.
    pub fn advance(&mut self, signal: RunSignal, at: Timestamp) -> (action: Option<RunAction>)
        ensures
            final(self).id() == old(self).id(),
            final(self).pause() == old(self).pause(),
            match run_step(old(self).at_stage(), signal, old(self).id(), old(self).pause(), at@) {
                Some((stage, next)) => {
                    &&& final(self).at_stage() == stage
                    &&& action is Some
                    &&& action->0@ == next
                },
                None => action is None && final(self).at_stage() == old(self).at_stage(),
            },
    {
        match (self.stage, signal) {
            (RunStage::Announcing, RunSignal::Sent { cancelled }) => {
                if cancelled {
                    Some(self.stop(at))
                } else {
                    Some(self.poll())
                }
            },
            (RunStage::Polling, RunSignal::Cancelled) => Some(self.stop(at)),
            (RunStage::Polling, RunSignal::Polled(outcome)) => {
                self.stage = RunStage::Reporting;
                let watcher_id = self.watcher_id.clone();
                let event = match outcome {
                    Ok(result) => WatcherEvent::PollCompleted {
                        watcher_id,
                        result: Box::new(result),
                    },
                    Err(error) => WatcherEvent::PollFailed { watcher_id, at, error },
                };
                Some(RunAction::Send(event))
            },
            (RunStage::Reporting, RunSignal::Sent { cancelled: _ }) => {
                self.stage = RunStage::Waiting;
                Some(RunAction::Sleep { seconds: self.interval })
            },
            (RunStage::Waiting, RunSignal::Cancelled) => Some(self.stop(at)),
            (RunStage::Waiting, RunSignal::Slept) => Some(self.poll()),
            (RunStage::Stopping, RunSignal::Sent { cancelled: _ }) => {
                self.stage = RunStage::Ended;
                Some(RunAction::Return(Ok(())))
            },
            (RunStage::Announcing, RunSignal::ChannelClosed)
            | (RunStage::Reporting, RunSignal::ChannelClosed)
            | (RunStage::Stopping, RunSignal::ChannelClosed) => {
                self.stage = RunStage::Ended;
                Some(RunAction::Return(Err(WatcherError::EventChannelClosed)))
            },
            _ => None,
        }
    }

    fn stop(&mut self, at: Timestamp) -> (action: RunAction)
        ensures
            final(self).id() == old(self).id(),
            final(self).pause() == old(self).pause(),
            final(self).at_stage() == RunStage::Stopping,
            action@ == RunActionView::Send(
                LifecycleView::Stopped { watcher_id: old(self).id(), at: at@ },
            ),
    {
        self.stage = RunStage::Stopping;
        RunAction::Send(WatcherEvent::Stopped { watcher_id: self.watcher_id.clone(), at })
    }

    fn poll(&mut self) -> (action: RunAction)
        ensures
            final(self).id() == old(self).id(),
            final(self).pause() == old(self).pause(),
            final(self).at_stage() == RunStage::Polling,
            action@ == RunActionView::Poll,
    {
        self.stage = RunStage::Polling;
        RunAction::Poll
    }
}

/// A loop ends well only by announcing that it has stopped.
pub proof fn good_ends_are_announced(
    stage: RunStage,
    signal: RunSignal,
    watcher_id: Seq<char>,
    interval: u64,
    at: int,
)
    requires
        run_step(stage, signal, watcher_id, interval, at) is Some,
        (run_step(stage, signal, watcher_id, interval, at)->0).1 == RunActionView::Return(None),
    ensures
        stage == RunStage::Stopping,
{
}

/// A loop reaches the stopping stage only by announcing that it has stopped.
pub proof fn stopping_is_announced(
    stage: RunStage,
    signal: RunSignal,
    watcher_id: Seq<char>,
    interval: u64,
    at: int,
)
    requires
        run_step(stage, signal, watcher_id, interval, at) is Some,
        (run_step(stage, signal, watcher_id, interval, at)->0).0 == RunStage::Stopping,
    ensures
        (run_step(stage, signal, watcher_id, interval, at)->0).1 == RunActionView::Send(
            LifecycleView::Stopped { watcher_id, at },
        ),
{
}

/// A failed poll does not end the loop: once it is announced the loop waits for
/// the next poll.
pub proof fn failed_polls_are_survived(
    error: StoreError,
    watcher_id: Seq<char>,
    interval: u64,
    at: int,
    cancelled: bool,
)
    ensures
        run_step(RunStage::Polling, RunSignal::Polled(Err(error)), watcher_id, interval, at)
            == Some(
            (
                RunStage::Reporting,
                RunActionView::Send(
                    LifecycleView::PollFailed { watcher_id, at, error: error@ },
                ),
            ),
        ),
        run_step(RunStage::Reporting, RunSignal::Sent { cancelled }, watcher_id, interval, at)
            == Some((RunStage::Waiting, RunActionView::Sleep { seconds: interval })),
        run_step(RunStage::Waiting, RunSignal::Slept, watcher_id, interval, at) == Some(
            (RunStage::Polling, RunActionView::Poll),
        ),
{
}

/// Without placeholders a target resolves to itself alone, whatever the
/// lookback.
pub proof fn ordinary_targets_resolve_to_themselves(config: WatcherConfig, at: int)
    requires
        template::finest(target_tokens(config)) is None,
    ensures
        watched_targets(config, at) == seq![config.target@],
{
    assert(watched_targets(config, at) =~= seq![config.target@]);
}

/// The bucket is never templated.
pub proof fn buckets_are_never_templated(config: WatcherConfig, at: int)
    ensures
        forall|i: int|
            0 <= i < watched_targets(config, at).len() ==> (#[trigger] watched_targets(
                config,
                at,
            )[i]).bucket == config.target@.bucket,
{
}

} // verus!
