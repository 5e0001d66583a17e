//! How the requests of an endpoint went of late. Times and spans are nanoseconds.
//!
//! Whether a share of failures reaches the limit of a deployment, which is a number
//! with a fraction, is a question that the caller answers.

use crate::copy::Duplicate;
use std::collections::VecDeque;
use vstd::prelude::*;

verus! {

/// Whether requests can be served.
#[derive(Debug, Clone, Copy, PartialEq, Eq, Structural)]
pub enum HealthStatus {
    Ready,
    NotReady,
}

impl DeepView for HealthStatus {
    type V = HealthStatus;

    open spec fn deep_view(&self) -> HealthStatus {
        *self
    }
}

/// How a request went.
#[derive(Debug, Clone, Copy, PartialEq, Eq, Structural)]
pub enum RequestOutcome {
    Success,
    Failure,
    Overloaded,
}

impl RequestOutcome {
    /// Whether the request failed.
    pub fn is_failure(self) -> (r: bool)
        ensures
            r == (self is Failure),
    {
        matches!(self, RequestOutcome::Failure)
    }

    /// Whether the request counts toward the share of failures: one that was turned away
    /// for overload does not.
    pub fn is_eligible_for_failure_ratio(self) -> (r: bool)
        ensures
            r == !(self is Overloaded),
    {
        !matches!(self, RequestOutcome::Overloaded)
    }
}

/// A request: when it ended, and how it went.
#[derive(Debug, Clone, Copy, PartialEq, Eq, Structural)]
pub struct TrafficEvent {
    pub at: u128,
    pub outcome: RequestOutcome,
}

/// When the requests of an endpoint make it unhealthy; the limit on the share of
/// failures is with the caller.
#[derive(Debug, Clone, Copy, PartialEq, Eq, Structural)]
pub struct RealTrafficHealthConfig {
    /// How long a request counts.
    pub window: u128,
    /// How many requests must count before failures do.
    pub min_samples: usize,
}

/// The question whether so many failures among so many requests reach the limit.
#[derive(Debug, Clone, Copy, PartialEq, Eq, Structural)]
pub struct ThresholdQuery {
    pub failures: usize,
    pub total: usize,
}

/// The answer to a question about the limit.
#[derive(Debug, Clone, Copy, PartialEq, Eq, Structural)]
pub struct ThresholdFact {
    pub query: ThresholdQuery,
    pub reached: bool,
}

/// The first answer to a question.
pub open spec fn threshold_answer(facts: Seq<ThresholdFact>, query: ThresholdQuery) -> Option<bool>
    decreases facts.len(),
{
    if facts.len() == 0 {
        None
    } else if facts[0].query == query {
        Some(facts[0].reached)
    } else {
        threshold_answer(facts.subrange(1, facts.len() as int), query)
    }
}

/// The first answer to a question.
fn find_threshold_answer(facts: &Vec<ThresholdFact>, query: ThresholdQuery) -> (r: Option<bool>)
    ensures
        r == threshold_answer(facts@, query),
{
    let ghost all = facts@;
    let mut i: usize = 0;
    assert(all.subrange(0, all.len() as int) =~= all);
    while i < facts.len()
        invariant
            all == facts@,
            i <= all.len(),
            threshold_answer(all, query) == threshold_answer(
                all.subrange(i as int, all.len() as int),
                query,
            ),
        decreases all.len() - i,
    {
        let ghost rest = all.subrange(i as int, all.len() as int);
        assert(rest.subrange(1, rest.len() as int) =~= all.subrange(i + 1, all.len() as int));
        if facts[i].query == query {
            return Some(facts[i].reached);
        }
        i += 1;
    }
    None
}

/// The time from `then` to `now`; none where `then` comes later.
pub open spec fn since(now: u128, then: u128) -> int {
    if now >= then {
        now - then
    } else {
        0
    }
}

/// The time from `then` to `now`.
pub fn elapsed(now: u128, then: u128) -> (r: u128)
    ensures
        r == since(now, then),
{
    if now >= then {
        now - then
    } else {
        0
    }
}

/// The events without those at the front that are too old.
pub open spec fn pruned(events: Seq<TrafficEvent>, now: u128, window: u128) -> Seq<TrafficEvent>
    decreases events.len(),
{
    if events.len() == 0 || since(now, events[0].at) <= window {
        events
    } else {
        pruned(events.subrange(1, events.len() as int), now, window)
    }
}

/// How many of the first `n` requests count toward the share of failures.
pub open spec fn eligible(events: Seq<TrafficEvent>, n: nat) -> nat
    decreases n,
{
    if n == 0 {
        0
    } else {
        eligible(events, (n - 1) as nat) + if events[n - 1].outcome is Overloaded {
            0nat
        } else {
            1nat
        }
    }
}

/// How many of the first `n` requests failed.
pub open spec fn failed(events: Seq<TrafficEvent>, n: nat) -> nat
    decreases n,
{
    if n == 0 {
        0
    } else {
        failed(events, (n - 1) as nat) + if events[n - 1].outcome is Failure {
            1nat
        } else {
            0nat
        }
    }
}

/// The status that the requests give: ready while there are too few of them, else as
/// the answer about their failures says; the question, where it has no answer.
pub open spec fn traffic_status(
    events: Seq<TrafficEvent>,
    config: RealTrafficHealthConfig,
    facts: Seq<ThresholdFact>,
) -> Result<HealthStatus, ThresholdQuery> {
    let query = ThresholdQuery {
        failures: failed(events, events.len()) as usize,
        total: eligible(events, events.len()) as usize,
    };
    if query.total < config.min_samples {
        Ok(HealthStatus::Ready)
    } else {
        match threshold_answer(facts, query) {
            Some(true) => Ok(HealthStatus::NotReady),
            Some(false) => Ok(HealthStatus::Ready),
            None => Err(query),
        }
    }
}

/// Some request succeeded not longer ago than `within`.
pub open spec fn succeeded_within(events: Seq<TrafficEvent>, now: u128, within: u128) -> bool {
    exists|i: int|
        0 <= i < events.len() && (#[trigger] events[i]).outcome is Success && since(
            now,
            events[i].at,
        ) <= within
}

/// The requests of an endpoint, oldest first, and the status that they gave last.
#[derive(Debug)]
pub struct RealTrafficWindow {
    pub events: VecDeque<TrafficEvent>,
    pub status: HealthStatus,
}

/// The content of a [`RealTrafficWindow`].
#[verifier::ext_equal]
pub struct RealTrafficWindowView {
    pub events: Seq<TrafficEvent>,
    pub status: HealthStatus,
}

impl DeepView for RealTrafficWindow {
    type V = RealTrafficWindowView;

    open spec fn deep_view(&self) -> RealTrafficWindowView {
        RealTrafficWindowView { events: self.events@, status: self.status }
    }
}

impl Duplicate for RealTrafficWindow {
    fn duplicate(&self) -> (r: Self) {
        let mut events: VecDeque<TrafficEvent> = VecDeque::new();
        let mut i: usize = 0;
        while i < self.events.len()
            invariant
                i <= self.events@.len(),
                events@ == self.events@.subrange(0, i as int),
            decreases self.events@.len() - i,
        {
            events.push_back(self.events[i]);
            assert(events@ =~= self.events@.subrange(0, i + 1));
            i += 1;
        }
        assert(self.events@.subrange(0, self.events@.len() as int) =~= self.events@);
        RealTrafficWindow { events, status: self.status }
    }
}

/// A window after its old events are gone and its status is computed.
pub open spec fn refreshed(
    window: RealTrafficWindowView,
    now: u128,
    config: RealTrafficHealthConfig,
    facts: Seq<ThresholdFact>,
) -> Result<RealTrafficWindowView, ThresholdQuery> {
    let events = pruned(window.events, now, config.window);
    match traffic_status(events, config, facts) {
        Ok(status) => Ok(RealTrafficWindowView { events, status }),
        Err(query) => Err(query),
    }
}

/// A window after one more request.
pub open spec fn recorded(
    window: RealTrafficWindowView,
    event: TrafficEvent,
    config: RealTrafficHealthConfig,
    facts: Seq<ThresholdFact>,
) -> Result<RealTrafficWindowView, ThresholdQuery> {
    let events = pruned(window.events, event.at, config.window).push(event);
    match traffic_status(events, config, facts) {
        Ok(status) => Ok(RealTrafficWindowView { events, status }),
        Err(query) => Err(query),
    }
}

/// Counts do not exceed the number of events.
proof fn lemma_counts(events: Seq<TrafficEvent>, n: nat)
    ensures
        failed(events, n) <= eligible(events, n) <= n,
    decreases n,
{
    if n > 0 {
        lemma_counts(events, (n - 1) as nat);
    }
}

/// No more requests fail than count.
pub proof fn law_failures_are_counted(events: Seq<TrafficEvent>)
    ensures
        failed(events, events.len()) <= eligible(events, events.len()) <= events.len(),
{
    lemma_counts(events, events.len());
}

/// The events come in the order of their times.
pub open spec fn in_order(events: Seq<TrafficEvent>) -> bool {
    forall|i: int, j: int|
        0 <= i <= j < events.len() ==> (#[trigger] events[i]).at <= (#[trigger] events[j]).at
}

/// Of events in the order of their times, those that are not too old stay, in their
/// order, and no others.
pub proof fn law_pruning_keeps_the_window(events: Seq<TrafficEvent>, now: u128, window: u128)
    requires
        in_order(events),
    ensures
        pruned(events, now, window) == events.filter(|e: TrafficEvent| since(now, e.at) <= window),
    decreases events.len(),
{
    let keep = |e: TrafficEvent| since(now, e.at) <= window;
    if events.len() == 0 {
        assert(events.filter(keep) =~= events);
    } else if since(now, events[0].at) <= window {
        assert forall|i: int| 0 <= i < events.len() implies keep(#[trigger] events[i]) by {
            assert(events[0].at <= events[i].at);
        }
        lemma_filter_all(events, keep);
    } else {
        let rest = events.subrange(1, events.len() as int);
        assert forall|i: int, j: int| 0 <= i <= j < rest.len() implies (#[trigger] rest[i]).at <= (
        #[trigger] rest[j]).at by {
            assert(events[i + 1].at <= events[j + 1].at);
        }
        law_pruning_keeps_the_window(rest, now, window);
        lemma_filter_first(events, keep);
    }
}

/// A filter that all items pass keeps all.
proof fn lemma_filter_all(events: Seq<TrafficEvent>, keep: spec_fn(TrafficEvent) -> bool)
    requires
        forall|i: int| 0 <= i < events.len() ==> keep(#[trigger] events[i]),
    ensures
        events.filter(keep) == events,
    decreases events.len(),
{
    reveal(Seq::filter);
    if events.len() > 0 {
        let front = events.drop_last();
        assert forall|i: int| 0 <= i < front.len() implies keep(#[trigger] front[i]) by {
            assert(front[i] == events[i]);
        }
        lemma_filter_all(front, keep);
        assert(keep(events[events.len() - 1]));
        assert(events.filter(keep) =~= events);
    } else {
        assert(events.filter(keep) =~= events);
    }
}

/// A filter that the first item fails is the filter of the rest.
proof fn lemma_filter_first(events: Seq<TrafficEvent>, keep: spec_fn(TrafficEvent) -> bool)
    requires
        events.len() > 0,
        !keep(events[0]),
    ensures
        events.filter(keep) == events.subrange(1, events.len() as int).filter(keep),
    decreases events.len(),
{
    reveal(Seq::filter);
    let rest = events.subrange(1, events.len() as int);
    if events.len() == 1 {
        assert(events.drop_last() =~= Seq::empty());
        assert(rest =~= Seq::empty());
        assert(events.drop_last().filter(keep) =~= Seq::empty());
    } else {
        let front = events.drop_last();
        lemma_filter_first(front, keep);
        assert(front.subrange(1, front.len() as int) =~= rest.drop_last());
        assert(rest.last() == events.last());
    }
}

impl RealTrafficWindow {
    /// No requests yet.
    pub fn new() -> (r: RealTrafficWindow)
        ensures
            r.deep_view() == (RealTrafficWindowView {
                events: Seq::empty(),
                status: HealthStatus::Ready,
            }),
    {
        RealTrafficWindow { events: VecDeque::new(), status: HealthStatus::Ready }
    }

    /// Takes away the events at the front that are too old.
    pub fn prune(&mut self, now: u128, window: u128)
        ensures
            final(self).deep_view() == (RealTrafficWindowView {
                events: pruned(old(self).deep_view().events, now, window),
                ..old(self).deep_view()
            }),
    {
        let ghost before = self.events@;
        let ghost status = self.status;
        while self.events.len() > 0
            invariant
                self.status == status,
                pruned(before, now, window) == pruned(self.events@, now, window),
            ensures
                self.status == status,
                pruned(before, now, window) == self.events@,
            decreases self.events@.len(),
        {
            if elapsed(now, self.events[0].at) <= window {
                break ;
            }
            let ghost all = self.events@;
            let _ = self.events.pop_front();
            assert(self.events@ =~= all.subrange(1, all.len() as int));
        }
    }

    /// How many requests count, and how many of them failed.
    pub fn sample_counts(&self) -> (r: (usize, usize))
        ensures
            r.0 == eligible(self.deep_view().events, self.deep_view().events.len()),
            r.1 == failed(self.deep_view().events, self.deep_view().events.len()),
    {
        let mut total: usize = 0;
        let mut failures: usize = 0;
        let mut i: usize = 0;
        while i < self.events.len()
            invariant
                i <= self.events@.len(),
                total == eligible(self.events@, i as nat),
                failures == failed(self.events@, i as nat),
                total <= i,
                failures <= i,
            decreases self.events@.len() - i,
        {
            let outcome: RequestOutcome = self.events[i].outcome;
            if outcome.is_eligible_for_failure_ratio() {
                total += 1;
                if outcome.is_failure() {
                    failures += 1;
                }
            }
            i += 1;
        }
        (total, failures)
    }

    /// The status that the requests give.
    fn compute_status(
        &self,
        config: RealTrafficHealthConfig,
        facts: &Vec<ThresholdFact>,
    ) -> (r: Result<HealthStatus, ThresholdQuery>)
        ensures
            r == traffic_status(self.deep_view().events, config, facts@),
    {
        let (total, failures) = self.sample_counts();
        if total < config.min_samples {
            return Ok(HealthStatus::Ready);
        }
        let query: ThresholdQuery = ThresholdQuery { failures, total };
        match find_threshold_answer(facts, query) {
            Some(true) => Ok(HealthStatus::NotReady),
            Some(false) => Ok(HealthStatus::Ready),
            None => Err(query),
        }
    }

    /// Adds a request. Where the status has a question without an answer, the window
    /// stays as it is.
    pub fn record(
        &mut self,
        now: u128,
        outcome: RequestOutcome,
        config: RealTrafficHealthConfig,
        facts: &Vec<ThresholdFact>,
    ) -> (r: Result<(), ThresholdQuery>)
        ensures
            r is Ok ==> recorded(
                old(self).deep_view(),
                TrafficEvent { at: now, outcome },
                config,
                facts@,
            ) == Ok::<_, ThresholdQuery>(final(self).deep_view()),
            r matches Err(query) ==> recorded(
                old(self).deep_view(),
                TrafficEvent { at: now, outcome },
                config,
                facts@,
            ) == Err::<RealTrafficWindowView, _>(query) && final(self).deep_view() == old(
                self,
            ).deep_view(),
    {
        let mut next: RealTrafficWindow = self.duplicate();
        next.prune(now, config.window);
        next.events.push_back(TrafficEvent { at: now, outcome });
        match next.compute_status(config, facts) {
            Ok(status) => {
                next.status = status;
                *self = next;
                Ok(())
            },
            Err(query) => Err(query),
        }
    }

    /// The status at that time, and the window with its old events gone; the question,
    /// where it has no answer.
    pub fn refresh(
        &self,
        now: u128,
        config: RealTrafficHealthConfig,
        facts: &Vec<ThresholdFact>,
    ) -> (r: Result<RealTrafficWindow, ThresholdQuery>)
        ensures
            r matches Ok(window) ==> refreshed(self.deep_view(), now, config, facts@) == Ok::<
                _,
                ThresholdQuery,
            >(window.deep_view()),
            r matches Err(query) ==> refreshed(self.deep_view(), now, config, facts@) == Err::<
                RealTrafficWindowView,
                _,
            >(query),
    {
        let mut next: RealTrafficWindow = self.duplicate();
        next.prune(now, config.window);
        match next.compute_status(config, facts) {
            Ok(status) => {
                next.status = status;
                Ok(next)
            },
            Err(query) => Err(query),
        }
    }

    /// Whether some request succeeded not longer ago than `within`; older events at the
    /// front go.
    pub fn has_success_within(&mut self, now: u128, within: u128) -> (r: bool)
        ensures
            final(self).deep_view() == (RealTrafficWindowView {
                events: pruned(old(self).deep_view().events, now, within),
                ..old(self).deep_view()
            }),
            r == succeeded_within(final(self).deep_view().events, now, within),
    {
        self.prune(now, within);
        let ghost all = self.events@;
        let mut i: usize = self.events.len();
        while i > 0
            invariant
                all == self.events@,
                self.deep_view() == (RealTrafficWindowView {
                    events: pruned(old(self).deep_view().events, now, within),
                    ..old(self).deep_view()
                }),
                i <= all.len(),
                forall|k: int|
                    i <= k < all.len() ==> !((#[trigger] all[k]).outcome is Success && since(
                        now,
                        all[k].at,
                    ) <= within),
            decreases i,
        {
            i -= 1;
            let event: TrafficEvent = self.events[i];
            if matches!(event.outcome, RequestOutcome::Success) && elapsed(now, event.at) <= within {
                assert(all[i as int].outcome is Success);
                return true;
            }
        }
        false
    }
}

/// A success within the time is one before and after the old events go, where the
/// events come in the order of their times.
pub proof fn law_pruning_keeps_recent_success(
    events: Seq<TrafficEvent>,
    now: u128,
    within: u128,
)
    requires
        in_order(events),
    ensures
        succeeded_within(pruned(events, now, within), now, within) == succeeded_within(
            events,
            now,
            within,
        ),
    decreases events.len(),
{
    if events.len() > 0 && since(now, events[0].at) > within {
        let rest = events.subrange(1, events.len() as int);
        assert forall|i: int, j: int| 0 <= i <= j < rest.len() implies (#[trigger] rest[i]).at <= (
        #[trigger] rest[j]).at by {
            assert(events[i + 1].at <= events[j + 1].at);
        }
        law_pruning_keeps_recent_success(rest, now, within);
        if succeeded_within(events, now, within) {
            let i = choose|i: int|
                0 <= i < events.len() && (#[trigger] events[i]).outcome is Success && since(
                    now,
                    events[i].at,
                ) <= within;
            assert(rest[i - 1] == events[i]);
        }
        if succeeded_within(rest, now, within) {
            let i = choose|i: int|
                0 <= i < rest.len() && (#[trigger] rest[i]).outcome is Success && since(
                    now,
                    rest[i].at,
                ) <= within;
            assert(events[i + 1] == rest[i]);
        }
    }
}

} // verus!
