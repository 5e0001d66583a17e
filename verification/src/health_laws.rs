//! What holds of the health of a system: what requests and checks make of it, and what is
//! reported.

use crate::health_check::{
    after_failure, after_success, status_ready, status_report, task_action, with_status,
    HealthCheckManagerView, TaskActionView, TaskEvent,
};
use crate::json::{looked_up, JsonNumberView, JsonView};
use crate::system_health::{
    all_refreshed, all_with, endpoint_ready, endpoint_words, no_traffic, starting_health,
    system_ready, with_target, HealthCheckTargetView, SystemHealthView,
};
use crate::traffic::{
    eligible, failed, in_order, law_pruning_keeps_the_window, recorded, refreshed, since,
    threshold_answer, HealthStatus, RealTrafficHealthConfig, RealTrafficWindowView, RequestOutcome,
    ThresholdFact, ThresholdQuery, TrafficEvent,
};
use vstd::prelude::*;

verus! {

/// The requests that are not too old.
pub open spec fn recent(
    events: Seq<TrafficEvent>,
    now: u128,
    config: RealTrafficHealthConfig,
) -> Seq<TrafficEvent> {
    events.filter(|event: TrafficEvent| since(now, event.at) <= config.window)
}

/// How many requests went so.
pub open spec fn how_many(events: Seq<TrafficEvent>, outcome: RequestOutcome) -> int {
    events.filter(|event: TrafficEvent| event.outcome == outcome).len() as int
}

/// The requests make the endpoint what it is: ready where too few of them count, and else
/// as the answer about the share of failures says. Requests that were turned away for
/// overload do not count.
pub open spec fn is_status_of(
    status: HealthStatus,
    events: Seq<TrafficEvent>,
    config: RealTrafficHealthConfig,
    facts: Seq<ThresholdFact>,
) -> bool {
    let failures = how_many(events, RequestOutcome::Failure);
    let total = failures + how_many(events, RequestOutcome::Success);
    if total < config.min_samples {
        status == HealthStatus::Ready
    } else {
        threshold_answer(
            facts,
            ThresholdQuery { failures: failures as usize, total: total as usize },
        ) == Some(status == HealthStatus::NotReady)
    }
}

/// Requests are counted by how they went.
proof fn lemma_counted(events: Seq<TrafficEvent>, n: nat)
    requires
        n <= events.len(),
    ensures
        failed(events, n) == how_many(events.subrange(0, n as int), RequestOutcome::Failure),
        eligible(events, n) == how_many(events.subrange(0, n as int), RequestOutcome::Failure)
            + how_many(events.subrange(0, n as int), RequestOutcome::Success),
    decreases n,
{
    reveal(Seq::filter);
    let front = events.subrange(0, n as int);
    if n > 0 {
        lemma_counted(events, (n - 1) as nat);
        assert(front.drop_last() =~= events.subrange(0, n - 1));
        assert(front.last() == events[n - 1]);
    }
}

/// Requests are counted by how they went, all of them.
proof fn lemma_all_counted(events: Seq<TrafficEvent>)
    ensures
        failed(events, events.len()) == how_many(events, RequestOutcome::Failure),
        eligible(events, events.len()) == how_many(events, RequestOutcome::Failure) + how_many(
            events,
            RequestOutcome::Success,
        ),
{
    lemma_counted(events, events.len());
    assert(events.subrange(0, events.len() as int) =~= events);
}

/// A request that is noted stands behind those of the window that are not too old, and they
/// together make the status of the endpoint.
pub proof fn law_requests_make_the_status(
    window: RealTrafficWindowView,
    event: TrafficEvent,
    config: RealTrafficHealthConfig,
    facts: Seq<ThresholdFact>,
)
    requires
        in_order(window.events),
        window.events.len() < usize::MAX,
    ensures
        recorded(window, event, config, facts) matches Ok(after) ==> {
            &&& after.events == recent(window.events, event.at, config).push(event)
            &&& is_status_of(after.status, after.events, config, facts)
        },
{
    law_pruning_keeps_the_window(window.events, event.at, config.window);
    let kept = recent(window.events, event.at, config);
    lemma_filter_len(window.events, |e: TrafficEvent| since(event.at, e.at) <= config.window);
    lemma_all_counted(kept.push(event));
    lemma_few(kept.push(event));
}

/// A filter keeps no more than there is.
proof fn lemma_filter_len(events: Seq<TrafficEvent>, keep: spec_fn(TrafficEvent) -> bool)
    ensures
        events.filter(keep).len() <= events.len(),
    decreases events.len(),
{
    reveal(Seq::filter);
    if events.len() > 0 {
        lemma_filter_len(events.drop_last(), keep);
    }
}

/// No more requests count than there are.
proof fn lemma_few(events: Seq<TrafficEvent>)
    ensures
        0 <= how_many(events, RequestOutcome::Failure),
        0 <= how_many(events, RequestOutcome::Success),
        how_many(events, RequestOutcome::Failure) + how_many(events, RequestOutcome::Success)
            <= events.len(),
    decreases events.len(),
{
    reveal(Seq::filter);
    if events.len() > 0 {
        lemma_few(events.drop_last());
    }
}

/// Time alone makes requests too old and nothing else, and the status is that of those
/// that remain.
pub proof fn law_time_makes_the_status(
    window: RealTrafficWindowView,
    now: u128,
    config: RealTrafficHealthConfig,
    facts: Seq<ThresholdFact>,
)
    requires
        in_order(window.events),
        window.events.len() <= usize::MAX,
    ensures
        refreshed(window, now, config, facts) matches Ok(after) ==> {
            &&& after.events == recent(window.events, now, config)
            &&& is_status_of(after.status, after.events, config, facts)
        },
{
    law_pruning_keeps_the_window(window.events, now, config.window);
    let kept = recent(window.events, now, config);
    lemma_filter_len(window.events, |e: TrafficEvent| since(now, e.at) <= config.window);
    lemma_all_counted(kept);
    lemma_few(kept);
}

/// The answer to a question is one that was given to it, and the first.
pub proof fn law_answers_are_those_given(facts: Seq<ThresholdFact>, query: ThresholdQuery, i: int)
    requires
        0 <= i < facts.len(),
        facts[i].query == query,
        forall|j: int| 0 <= j < i ==> (#[trigger] facts[j]).query != query,
    ensures
        threshold_answer(facts, query) == Some(facts[i].reached),
    decreases facts.len(),
{
    if i > 0 {
        let rest = facts.subrange(1, facts.len() as int);
        assert(facts[0].query != query);
        assert(rest[i - 1] == facts[i]);
        assert forall|j: int| 0 <= j < i - 1 implies (#[trigger] rest[j]).query != query by {
            assert(rest[j] == facts[j + 1]);
        }
        law_answers_are_those_given(rest, query, i - 1);
    }
}

/// An endpoint is reported ready where its own status is ready and its requests do not say
/// otherwise; every endpoint with a status is reported, and no other.
pub proof fn law_endpoints_are_reported(h: SystemHealthView, endpoint: Seq<char>)
    ensures
        endpoint_words(h).dom().contains(endpoint) == h.endpoints.dom().contains(endpoint),
        h.endpoints.dom().contains(endpoint) ==> endpoint_words(h)[endpoint] == if h.endpoints[endpoint]
            == HealthStatus::Ready && (h.traffic.dom().contains(endpoint)
            ==> h.traffic[endpoint].status == HealthStatus::Ready) {
            "ready"@
        } else {
            "notready"@
        },
{
}

/// One endpoint with a health check that is not ready makes the system unhealthy. Where no
/// endpoint has a health check, one listed endpoint does; and where none is listed either,
/// the system says itself whether it is healthy.
pub proof fn law_one_endpoint_is_enough(h: SystemHealthView, endpoint: Seq<char>)
    ensures
        ({
            let unhealthy = !h.endpoints.dom().contains(endpoint) || h.endpoints[endpoint]
                == HealthStatus::NotReady || (h.traffic.dom().contains(endpoint)
                && h.traffic[endpoint].status == HealthStatus::NotReady);
            let checked = exists|e: Seq<char>| h.targets.dom().contains(e);
            &&& h.targets.dom().contains(endpoint) && unhealthy ==> !system_ready(h)
            &&& !checked && h.listed.contains(endpoint) && unhealthy ==> !system_ready(h)
            &&& !checked && h.listed.len() == 0 ==> system_ready(h) == (h.system
                == HealthStatus::Ready)
        }),
{
    let none = Map::<Seq<char>, HealthCheckTargetView>::empty();
    if !(exists|e: Seq<char>| h.targets.dom().contains(e)) {
        assert(h.targets =~= none);
    } else {
        let e = choose|e: Seq<char>| h.targets.dom().contains(e);
        assert(h.targets != none) by {
            assert(!none.dom().contains(e));
        }
    }
    if h.listed.contains(endpoint) {
        let i = choose|i: int| 0 <= i < h.listed.len() && h.listed[i] == endpoint;
        assert(h.listed[i] == endpoint);
    }
}

/// Looking at the health changes nothing of it but the windows of the requests, and of
/// these none appears or vanishes.
pub proof fn law_looking_changes_windows_only(
    h: SystemHealthView,
    now: u128,
    facts: Seq<ThresholdFact>,
    endpoint: Seq<char>,
)
    requires
        h.traffic.dom().contains(endpoint),
    ensures
        ({
            let after = all_refreshed(h, now, facts);
            &&& after == (SystemHealthView { traffic: after.traffic, ..h })
            &&& after.traffic.dom() =~= h.traffic.dom()
            &&& h.endpoints.dom().contains(endpoint) ==> (refreshed(
                h.traffic[endpoint],
                now,
                h.config,
                facts,
            ) matches Ok(window) ==> after.traffic[endpoint] == window)
            &&& !h.endpoints.dom().contains(endpoint) ==> after.traffic[endpoint]
                == h.traffic[endpoint]
        }),
{
}

/// The names of a list have the value, and no others.
proof fn lemma_all_with<V>(names: Seq<Seq<char>>, n: nat, value: V, name: Seq<char>)
    requires
        n <= names.len(),
    ensures
        all_with(names, n, value).dom().contains(name) <==> exists|i: int|
            0 <= i < n && #[trigger] names[i] == name,
        all_with(names, n, value).dom().contains(name) ==> all_with(names, n, value)[name] == value,
    decreases n,
{
    if n > 0 {
        lemma_all_with(names, (n - 1) as nat, value, name);
        if name == names[n - 1] {
            assert(names[n - 1] == name);
        }
    }
}

/// A system starts with its own health, which every listed endpoint has too, without any
/// requests, checks or successes.
pub proof fn law_systems_start_as_told(
    status: HealthStatus,
    listed: Seq<Seq<char>>,
    health_path: Seq<char>,
    live_path: Seq<char>,
    config: RealTrafficHealthConfig,
    endpoint: Seq<char>,
)
    ensures
        ({
            let h = starting_health(status, listed, health_path, live_path, config);
            &&& h.system == status
            &&& h.listed == listed
            &&& h.config == config
            &&& h.health_path == health_path
            &&& h.live_path == live_path
            &&& h.endpoints.dom().contains(endpoint) <==> listed.contains(endpoint)
            &&& listed.contains(endpoint) ==> h.endpoints[endpoint] == status
            &&& h.traffic.dom().contains(endpoint) <==> listed.contains(endpoint)
            &&& listed.contains(endpoint) ==> h.traffic[endpoint].events.len() == 0
                && h.traffic[endpoint].status == HealthStatus::Ready
            &&& !h.targets.dom().contains(endpoint)
            &&& !h.last_success.dom().contains(endpoint)
            &&& system_ready(h) == (status == HealthStatus::Ready)
        }),
{
    let h = starting_health(status, listed, health_path, live_path, config);
    lemma_all_with(listed, listed.len(), status, endpoint);
    lemma_all_with(
        listed,
        listed.len(),
        no_traffic(),
        endpoint,
    );
    if listed.contains(endpoint) {
        let i = choose|i: int| 0 <= i < listed.len() && listed[i] == endpoint;
        assert(listed[i] == endpoint);
    }
    if exists|i: int| 0 <= i < listed.len() && #[trigger] listed[i] == endpoint {
        assert(listed.contains(endpoint));
    }
    assert forall|i: int| 0 <= i < listed.len() implies endpoint_ready(
        h,
        #[trigger] listed[i],
    ) == (status == HealthStatus::Ready) by {
        lemma_all_with(listed, listed.len(), status, listed[i]);
        lemma_all_with(
            listed,
            listed.len(),
            no_traffic(),
            listed[i],
        );
    }
    if listed.len() > 0 {
        assert(endpoint_ready(h, listed[0]) == (status
            == HealthStatus::Ready));
    }
}

/// An endpoint that gets a health check is not ready until a check says so, unless it had a
/// status; its check is the one registered first; and nothing is said of other endpoints.
pub proof fn law_new_checks_start_not_ready(
    h: SystemHealthView,
    endpoint: Seq<char>,
    target: HealthCheckTargetView,
    other: Seq<char>,
)
    ensures
        ({
            let after = with_target(h, endpoint, target);
            &&& after.targets.dom().contains(endpoint)
            &&& after.targets[endpoint] == if h.targets.dom().contains(endpoint) {
                h.targets[endpoint]
            } else {
                target
            }
            &&& !h.targets.dom().contains(endpoint) && !h.endpoints.dom().contains(endpoint)
                ==> after.endpoints.dom().contains(endpoint) && after.endpoints[endpoint]
                == HealthStatus::NotReady
            &&& h.endpoints.dom().contains(endpoint) ==> after.endpoints[endpoint]
                == h.endpoints[endpoint]
            &&& other != endpoint ==> {
                &&& after.targets.dom().contains(other) == h.targets.dom().contains(other)
                &&& h.targets.dom().contains(other) ==> after.targets[other] == h.targets[other]
                &&& after.endpoints.dom().contains(other) == h.endpoints.dom().contains(other)
                &&& h.endpoints.dom().contains(other) ==> after.endpoints[other]
                    == h.endpoints[other]
            }
            &&& after.listed == h.listed
            &&& after.system == h.system
        }),
{
}

/// A watched endpoint is checked with what was registered for it, once it was idle, and on
/// activity where its last success is as old as the time to live or older or never was;
/// where nothing is registered its task ends.
pub proof fn law_checks_are_made_when_due(
    m: HealthCheckManagerView,
    h: SystemHealthView,
    endpoint: Seq<char>,
    now: u128,
)
    ensures
        ({
            let due = if h.targets.dom().contains(endpoint) {
                TaskActionView::Probe(h.targets[endpoint])
            } else {
                TaskActionView::Stop
            };
            &&& task_action(m, h, endpoint, TaskEvent::TimerExpired, now) == due
            &&& !m.last_success.dom().contains(endpoint) ==> task_action(
                m,
                h,
                endpoint,
                TaskEvent::Activity,
                now,
            ) == due
            &&& m.last_success.dom().contains(endpoint) && m.last_success[endpoint] <= now
                ==> task_action(m, h, endpoint, TaskEvent::Activity, now) == if now
                - m.last_success[endpoint] < m.config.success_ttl {
                TaskActionView::Wait
            } else {
                due
            }
        }),
{
}

/// A success is remembered for its endpoint alone, and a failure without a success that is
/// recent enough takes the endpoint out of service and changes nothing else.
pub proof fn law_checks_tell_of_their_endpoint(
    m: HealthCheckManagerView,
    h: SystemHealthView,
    endpoint: Seq<char>,
    now: u128,
    other: Seq<char>,
)
    ensures
        ({
            let after = after_success(m, endpoint, now);
            &&& after.last_success.dom().contains(endpoint)
            &&& after.last_success[endpoint] == now
            &&& after.config == m.config
            &&& after.tasks == m.tasks
            &&& other != endpoint ==> after.last_success.dom().contains(other)
                == m.last_success.dom().contains(other)
            &&& other != endpoint && m.last_success.dom().contains(other)
                ==> after.last_success[other] == m.last_success[other]
        }),
        !m.last_success.dom().contains(endpoint) ==> after_failure(m, h, endpoint, now)
            == with_status(h, endpoint, HealthStatus::NotReady),
        ({
            let after = after_failure(m, h, endpoint, now);
            &&& after == (SystemHealthView { endpoints: after.endpoints, ..h })
            &&& with_status(h, endpoint, HealthStatus::NotReady).endpoints[endpoint]
                == HealthStatus::NotReady
        }),
{
}

/// The report on the health checks names every endpoint that has one, and no other, with
/// its own status, counts them, and is ready where all of them are.
pub proof fn law_checks_are_reported(h: SystemHealthView, endpoint: Seq<char>)
    ensures
        status_report(h) matches JsonView::Object(report) && {
            &&& looked_up(report, "endpoints_checked"@) == Some(
                JsonView::Number(JsonNumberView::Integer(h.targets.dom().len() as int)),
            )
            &&& looked_up(report, "endpoint_statuses"@) matches Some(JsonView::Object(each)) && {
                &&& looked_up(each, endpoint) is Some <==> h.targets.dom().contains(endpoint)
                &&& h.targets.dom().contains(endpoint) ==> (looked_up(each, endpoint) matches Some(
                    JsonView::Object(one),
                ) && {
                    let ready = h.endpoints.dom().contains(endpoint) && h.endpoints[endpoint]
                        == HealthStatus::Ready;
                    &&& looked_up(one, "healthy"@) == Some(JsonView::Bool(ready))
                    &&& looked_up(one, "status"@) == Some(
                        JsonView::Text(
                            if ready {
                                "Ready"@
                            } else {
                                "NotReady"@
                            },
                        ),
                    )
                    &&& !ready ==> looked_up(report, "status"@) == Some(
                        JsonView::Text("notready"@),
                    )
                })
            }
            &&& (forall|e: Seq<char>| #[trigger]
                h.targets.dom().contains(e) ==> h.endpoints.dom().contains(e) && h.endpoints[e]
                    == HealthStatus::Ready) ==> looked_up(report, "status"@) == Some(
                JsonView::Text("ready"@),
            )
        },
{
    reveal_strlit("status");
    reveal_strlit("endpoints_checked");
    reveal_strlit("endpoint_statuses");
    reveal_strlit("healthy");
    assert("status"@.len() == 6 && "endpoints_checked"@.len() == 17 && "endpoint_statuses"@.len()
        == 17 && "healthy"@.len() == 7);
    assert("endpoints_checked"@[8] == 's' && "endpoint_statuses"@[8] == '_');
    if h.targets.dom().contains(endpoint) {
        assert(status_ready(h, endpoint) == (h.endpoints.dom().contains(
            endpoint,
        ) && h.endpoints[endpoint] == HealthStatus::Ready));
    }
    assert forall|e: Seq<char>| #[trigger]
        h.targets.dom().contains(e) implies status_ready(h, e) == (
    h.endpoints.dom().contains(e) && h.endpoints[e] == HealthStatus::Ready) by {}
}

} // verus!
