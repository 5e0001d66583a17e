//! The health of a system and of its endpoints. Times and spans are nanoseconds.

use crate::copy::Duplicate;
use crate::json::{Json, JsonView};
use crate::name_map::NameMap;
use crate::traffic::{
    pruned, recorded, refreshed, succeeded_within, HealthStatus, RealTrafficHealthConfig,
    RealTrafficWindow, RealTrafficWindowView, RequestOutcome, ThresholdFact, ThresholdQuery,
    TrafficEvent,
};
use vstd::prelude::*;

verus! {

/// Where an endpoint is served; the transport is a number by which the caller finds it
/// again.
#[derive(Debug, PartialEq, Eq)]
pub struct Instance {
    pub component: String,
    pub endpoint: String,
    pub namespace: String,
    pub instance_id: u64,
    pub transport: u64,
}

/// The content of an [`Instance`].
#[verifier::ext_equal]
pub struct InstanceView {
    pub component: Seq<char>,
    pub endpoint: Seq<char>,
    pub namespace: Seq<char>,
    pub instance_id: u64,
    pub transport: u64,
}

impl DeepView for Instance {
    type V = InstanceView;

    open spec fn deep_view(&self) -> InstanceView {
        InstanceView {
            component: self.component@,
            endpoint: self.endpoint@,
            namespace: self.namespace@,
            instance_id: self.instance_id,
            transport: self.transport,
        }
    }
}

impl Duplicate for Instance {
    fn duplicate(&self) -> (r: Self) {
        Instance {
            component: self.component.duplicate(),
            endpoint: self.endpoint.duplicate(),
            namespace: self.namespace.duplicate(),
            instance_id: self.instance_id,
            transport: self.transport,
        }
    }
}

/// What a health check of an endpoint sends, and where.
#[derive(Debug, PartialEq, Eq)]
pub struct HealthCheckTarget {
    pub instance: Instance,
    pub payload: Json,
}

/// The content of a [`HealthCheckTarget`].
#[verifier::ext_equal]
pub struct HealthCheckTargetView {
    pub instance: InstanceView,
    pub payload: JsonView,
}

impl DeepView for HealthCheckTarget {
    type V = HealthCheckTargetView;

    open spec fn deep_view(&self) -> HealthCheckTargetView {
        HealthCheckTargetView {
            instance: self.instance.deep_view(),
            payload: self.payload.deep_view(),
        }
    }
}

impl Duplicate for HealthCheckTarget {
    fn duplicate(&self) -> (r: Self) {
        HealthCheckTarget {
            instance: self.instance.duplicate(),
            payload: self.payload.duplicate(),
        }
    }
}

/// The health of a system. Where endpoints are listed, their health is that of the
/// system.
#[derive(Debug)]
pub struct SystemHealth {
    system_health: HealthStatus,
    endpoint_health: NameMap<HealthStatus>,
    endpoint_real_traffic_health: NameMap<RealTrafficWindow>,
    real_traffic_health_config: RealTrafficHealthConfig,
    health_check_targets: NameMap<HealthCheckTarget>,
    use_endpoint_health_status: Vec<String>,
    health_path: String,
    live_path: String,
    endpoint_last_health_check_success: NameMap<u128>,
}

/// The content of a [`SystemHealth`].
#[verifier::ext_equal]
pub struct SystemHealthView {
    pub system: HealthStatus,
    pub endpoints: Map<Seq<char>, HealthStatus>,
    pub traffic: Map<Seq<char>, RealTrafficWindowView>,
    pub config: RealTrafficHealthConfig,
    pub targets: Map<Seq<char>, HealthCheckTargetView>,
    pub listed: Seq<Seq<char>>,
    pub health_path: Seq<char>,
    pub live_path: Seq<char>,
    pub last_success: Map<Seq<char>, u128>,
}

impl DeepView for SystemHealth {
    type V = SystemHealthView;

    closed spec fn deep_view(&self) -> SystemHealthView {
        SystemHealthView {
            system: self.system_health,
            endpoints: self.endpoint_health@,
            traffic: self.endpoint_real_traffic_health@,
            config: self.real_traffic_health_config,
            targets: self.health_check_targets@,
            listed: self.use_endpoint_health_status.deep_view(),
            health_path: self.health_path@,
            live_path: self.live_path@,
            last_success: self.endpoint_last_health_check_success@,
        }
    }
}

/// Every endpoint that the health of the system depends on has a status of its own.
pub open spec fn endpoints_known(h: SystemHealthView) -> bool {
    &&& h.targets.dom().subset_of(h.endpoints.dom())
    &&& forall|i: int| 0 <= i < h.listed.len() ==> h.endpoints.dom().contains(#[trigger] h.listed[i])
}

/// The window of an endpoint that has had no requests.
pub open spec fn no_traffic() -> RealTrafficWindowView {
    RealTrafficWindowView { events: Seq::empty(), status: HealthStatus::Ready }
}

/// The first `n` names, each with the same value.
pub open spec fn all_with<V>(names: Seq<Seq<char>>, n: nat, value: V) -> Map<Seq<char>, V>
    decreases n,
{
    if n == 0 {
        Map::empty()
    } else {
        all_with(names, (n - 1) as nat, value).insert(names[n - 1], value)
    }
}

/// A system that starts with that health.
pub open spec fn starting_health(
    status: HealthStatus,
    listed: Seq<Seq<char>>,
    health_path: Seq<char>,
    live_path: Seq<char>,
    config: RealTrafficHealthConfig,
) -> SystemHealthView {
    SystemHealthView {
        system: status,
        endpoints: all_with(listed, listed.len(), status),
        traffic: all_with(listed, listed.len(), no_traffic()),
        config,
        targets: Map::empty(),
        listed,
        health_path,
        live_path,
        last_success: Map::empty(),
    }
}

/// The window of an endpoint; one without requests where it has none.
pub open spec fn window_of(h: SystemHealthView, endpoint: Seq<char>) -> RealTrafficWindowView {
    if h.traffic.dom().contains(endpoint) {
        h.traffic[endpoint]
    } else {
        no_traffic()
    }
}

/// A value under a name, unless there is one.
pub open spec fn with_default<V>(m: Map<Seq<char>, V>, name: Seq<char>, value: V) -> Map<
    Seq<char>,
    V,
> {
    if m.dom().contains(name) {
        m
    } else {
        m.insert(name, value)
    }
}

/// The health after a health check is registered for an endpoint: one that has a health
/// check keeps it; a new one starts out as not ready.
pub open spec fn with_target(
    h: SystemHealthView,
    endpoint: Seq<char>,
    target: HealthCheckTargetView,
) -> SystemHealthView {
    if h.targets.dom().contains(endpoint) {
        h
    } else {
        SystemHealthView {
            targets: h.targets.insert(endpoint, target),
            endpoints: with_default(h.endpoints, endpoint, HealthStatus::NotReady),
            traffic: with_default(h.traffic, endpoint, no_traffic()),
            ..h
        }
    }
}

/// Registering again changes nothing: the first health check of an endpoint stays.
pub proof fn law_first_registration_counts(
    h: SystemHealthView,
    endpoint: Seq<char>,
    first: HealthCheckTargetView,
    second: HealthCheckTargetView,
)
    ensures
        with_target(with_target(h, endpoint, first), endpoint, second) == with_target(
            h,
            endpoint,
            first,
        ),
{
}

/// A registered endpoint has a status, and one that had a status keeps it.
pub proof fn law_registration_keeps_status(
    h: SystemHealthView,
    endpoint: Seq<char>,
    target: HealthCheckTargetView,
    other: Seq<char>,
)
    requires
        endpoints_known(h),
    ensures
        endpoints_known(with_target(h, endpoint, target)),
        with_target(h, endpoint, target).endpoints.dom().contains(endpoint),
        h.endpoints.dom().contains(other) ==> with_target(h, endpoint, target).endpoints[other]
            == h.endpoints[other],
{
    let after = with_target(h, endpoint, target);
    assert(after.targets.dom().subset_of(after.endpoints.dom()));
}

/// A window, refreshed where its endpoint has a status.
pub open spec fn refreshed_window(
    h: SystemHealthView,
    endpoint: Seq<char>,
    now: u128,
    facts: Seq<ThresholdFact>,
) -> Result<RealTrafficWindowView, ThresholdQuery> {
    if h.endpoints.dom().contains(endpoint) {
        refreshed(h.traffic[endpoint], now, h.config, facts)
    } else {
        Ok(h.traffic[endpoint])
    }
}

/// All questions about the limit have their answers.
pub open spec fn all_answered(
    h: SystemHealthView,
    now: u128,
    facts: Seq<ThresholdFact>,
) -> bool {
    forall|endpoint: Seq<char>| #[trigger]
        h.traffic.dom().contains(endpoint) ==> refreshed_window(h, endpoint, now, facts) is Ok
}

/// The health with the windows of all endpoints refreshed.
pub open spec fn all_refreshed(
    h: SystemHealthView,
    now: u128,
    facts: Seq<ThresholdFact>,
) -> SystemHealthView {
    SystemHealthView {
        traffic: Map::new(
            |endpoint: Seq<char>| h.traffic.dom().contains(endpoint),
            |endpoint: Seq<char>| refreshed_window(h, endpoint, now, facts)->Ok_0,
        ),
        ..h
    }
}

/// An endpoint is ready: its own status says so, and its requests say nothing against
/// it.
pub open spec fn endpoint_ready(h: SystemHealthView, endpoint: Seq<char>) -> bool {
    &&& h.endpoints.dom().contains(endpoint)
    &&& h.endpoints[endpoint] == HealthStatus::Ready
    &&& h.traffic.dom().contains(endpoint) ==> h.traffic[endpoint].status == HealthStatus::Ready
}

/// The system is healthy: all endpoints with a registered health check are ready;
/// where there is none, all listed endpoints; where none is listed either, the system
/// itself.
pub open spec fn system_ready(h: SystemHealthView) -> bool {
    if h.targets != Map::<Seq<char>, HealthCheckTargetView>::empty() {
        forall|endpoint: Seq<char>| #[trigger]
            h.targets.dom().contains(endpoint) ==> endpoint_ready(h, endpoint)
    } else if h.listed.len() > 0 {
        forall|i: int| 0 <= i < h.listed.len() ==> endpoint_ready(h, #[trigger] h.listed[i])
    } else {
        h.system == HealthStatus::Ready
    }
}

/// The word for a status.
pub open spec fn ready_word(ready: bool) -> Seq<char> {
    if ready {
        "ready"@
    } else {
        "notready"@
    }
}

/// What all endpoints with a status report.
pub open spec fn endpoint_words(h: SystemHealthView) -> Map<Seq<char>, Seq<char>> {
    Map::new(
        |endpoint: Seq<char>| h.endpoints.dom().contains(endpoint),
        |endpoint: Seq<char>| ready_word(endpoint_ready(h, endpoint)),
    )
}

/// Once a health check is registered, the system is healthy exactly where every
/// endpoint with a registered health check is ready, and each is reported as such.
pub proof fn law_registered_endpoints_decide(h: SystemHealthView, endpoint: Seq<char>)
    requires
        endpoints_known(h),
        h.targets.dom().contains(endpoint),
    ensures
        system_ready(h) <==> (forall|e: Seq<char>| #[trigger]
            h.targets.dom().contains(e) ==> endpoint_ready(h, e)),
        endpoint_words(h).dom().contains(endpoint),
        system_ready(h) ==> endpoint_words(h)[endpoint] == "ready"@,
{
    assert(h.targets != Map::<Seq<char>, HealthCheckTargetView>::empty());
}

/// Where no health check is registered, a healthy system with listed endpoints reports
/// each of them as ready.
pub proof fn law_healthy_endpoints_report_ready(h: SystemHealthView, i: int)
    requires
        endpoints_known(h),
        system_ready(h),
        h.targets == Map::<Seq<char>, HealthCheckTargetView>::empty(),
        0 <= i < h.listed.len(),
    ensures
        endpoint_words(h).dom().contains(h.listed[i]),
        endpoint_words(h)[h.listed[i]] == "ready"@,
{
    assert(endpoint_ready(h, h.listed[i]));
}

impl SystemHealth {
    /// A system that starts with that health.
    pub fn new(
        starting_health_status: HealthStatus,
        use_endpoint_health_status: Vec<String>,
        health_path: String,
        live_path: String,
        real_traffic_health_config: RealTrafficHealthConfig,
    ) -> (r: SystemHealth)
        ensures
            r.deep_view() == starting_health(
                starting_health_status,
                use_endpoint_health_status.deep_view(),
                health_path@,
                live_path@,
                real_traffic_health_config,
            ),
            endpoints_known(r.deep_view()),
    {
        let ghost listed = use_endpoint_health_status.deep_view();
        let mut endpoint_health: NameMap<HealthStatus> = NameMap::new();
        let mut traffic: NameMap<RealTrafficWindow> = NameMap::new();
        let mut i: usize = 0;
        while i < use_endpoint_health_status.len()
            invariant
                listed == use_endpoint_health_status.deep_view(),
                listed.len() == use_endpoint_health_status@.len(),
                i <= listed.len(),
                endpoint_health@ == all_with(listed, i as nat, starting_health_status),
                traffic@ == all_with(listed, i as nat, no_traffic()),
                forall|j: int|
                    0 <= j < i ==> endpoint_health@.dom().contains(#[trigger] listed[j]),
            decreases listed.len() - i,
        {
            assert(listed[i as int] == use_endpoint_health_status@[i as int]@);
            let endpoint: &str = use_endpoint_health_status[i].as_str();
            endpoint_health.insert(endpoint, starting_health_status);
            traffic.insert(endpoint, RealTrafficWindow::new());
            i += 1;
        }
        SystemHealth {
            system_health: starting_health_status,
            endpoint_health,
            endpoint_real_traffic_health: traffic,
            real_traffic_health_config,
            health_check_targets: NameMap::new(),
            use_endpoint_health_status,
            health_path,
            live_path,
            endpoint_last_health_check_success: NameMap::new(),
        }
    }

    /// Sets the health of the system itself.
    pub fn set_health_status(&mut self, status: HealthStatus)
        ensures
            final(self).deep_view() == (SystemHealthView {
                system: status,
                ..old(self).deep_view()
            }),
    {
        self.system_health = status;
    }

    /// Sets the status of an endpoint.
    pub fn set_endpoint_health_status(&mut self, endpoint: &str, status: HealthStatus)
        ensures
            final(self).deep_view() == (SystemHealthView {
                endpoints: old(self).deep_view().endpoints.insert(endpoint@, status),
                ..old(self).deep_view()
            }),
    {
        self.endpoint_health.insert(endpoint, status);
    }

    /// Notes that a health check of an endpoint succeeded.
    pub fn record_health_check_success(&mut self, endpoint: &str, now: u128)
        ensures
            final(self).deep_view() == (SystemHealthView {
                last_success: old(self).deep_view().last_success.insert(endpoint@, now),
                ..old(self).deep_view()
            }),
    {
        self.endpoint_last_health_check_success.insert(endpoint, now);
    }

    /// Notes how a request of an endpoint went. Where the status has a question without
    /// an answer, nothing changes.
    fn record_endpoint_request_outcome(
        &mut self,
        endpoint: &str,
        now: u128,
        outcome: RequestOutcome,
        facts: &Vec<ThresholdFact>,
    ) -> (r: Result<(), ThresholdQuery>)
        ensures
            ({
                let h = old(self).deep_view();
                let next = recorded(
                    window_of(h, endpoint@),
                    TrafficEvent { at: now, outcome },
                    h.config,
                    facts@,
                );
                match r {
                    Ok(_) => next is Ok && final(self).deep_view() == (SystemHealthView {
                        traffic: h.traffic.insert(endpoint@, next->Ok_0),
                        ..h
                    }),
                    Err(query) => next == Err::<RealTrafficWindowView, _>(query)
                        && final(self).deep_view() == h,
                }
            }),
    {
        let mut window: RealTrafficWindow = match self.endpoint_real_traffic_health.get(endpoint) {
            Some(window) => window.duplicate(),
            None => RealTrafficWindow::new(),
        };
        match window.record(now, outcome, self.real_traffic_health_config, facts) {
            Ok(_) => {
                self.endpoint_real_traffic_health.insert(endpoint, window);
                Ok(())
            },
            Err(query) => Err(query),
        }
    }

    /// Notes whether a request of an endpoint succeeded.
    pub fn record_endpoint_request_result(
        &mut self,
        endpoint: &str,
        success: bool,
        now: u128,
        facts: &Vec<ThresholdFact>,
    ) -> (r: Result<(), ThresholdQuery>)
        ensures
            ({
                let h = old(self).deep_view();
                let outcome = if success {
                    RequestOutcome::Success
                } else {
                    RequestOutcome::Failure
                };
                let next = recorded(
                    window_of(h, endpoint@),
                    TrafficEvent { at: now, outcome },
                    h.config,
                    facts@,
                );
                match r {
                    Ok(_) => next is Ok && final(self).deep_view() == (SystemHealthView {
                        traffic: h.traffic.insert(endpoint@, next->Ok_0),
                        ..h
                    }),
                    Err(query) => next == Err::<RealTrafficWindowView, _>(query)
                        && final(self).deep_view() == h,
                }
            }),
    {
        let outcome: RequestOutcome = if success {
            RequestOutcome::Success
        } else {
            RequestOutcome::Failure
        };
        self.record_endpoint_request_outcome(endpoint, now, outcome, facts)
    }

    /// Notes that a request of an endpoint was turned away for overload.
    pub fn record_endpoint_request_overload(
        &mut self,
        endpoint: &str,
        now: u128,
        facts: &Vec<ThresholdFact>,
    ) -> (r: Result<(), ThresholdQuery>)
        ensures
            ({
                let h = old(self).deep_view();
                let next = recorded(
                    window_of(h, endpoint@),
                    TrafficEvent { at: now, outcome: RequestOutcome::Overloaded },
                    h.config,
                    facts@,
                );
                match r {
                    Ok(_) => next is Ok && final(self).deep_view() == (SystemHealthView {
                        traffic: h.traffic.insert(endpoint@, next->Ok_0),
                        ..h
                    }),
                    Err(query) => next == Err::<RealTrafficWindowView, _>(query)
                        && final(self).deep_view() == h,
                }
            }),
    {
        self.record_endpoint_request_outcome(endpoint, now, RequestOutcome::Overloaded, facts)
    }

    /// The status that the requests of an endpoint give; `None` for an endpoint that has
    /// no window.
    pub fn get_endpoint_real_traffic_health_status(
        &mut self,
        endpoint: &str,
        now: u128,
        facts: &Vec<ThresholdFact>,
    ) -> (r: Result<Option<HealthStatus>, ThresholdQuery>)
        ensures
            ({
                let h = old(self).deep_view();
                let next = refreshed(h.traffic[endpoint@], now, h.config, facts@);
                if !h.traffic.dom().contains(endpoint@) {
                    r == Ok::<_, ThresholdQuery>(None::<HealthStatus>) && final(self).deep_view()
                        == h
                } else {
                    match r {
                        Ok(status) => next is Ok && status == Some(next->Ok_0.status)
                            && final(self).deep_view() == (SystemHealthView {
                            traffic: h.traffic.insert(endpoint@, next->Ok_0),
                            ..h
                        }),
                        Err(query) => next == Err::<RealTrafficWindowView, _>(query)
                            && final(self).deep_view() == h,
                    }
                }
            }),
    {
        let window: RealTrafficWindow = match self.endpoint_real_traffic_health.get(endpoint) {
            Some(window) => match window.refresh(now, self.real_traffic_health_config, facts) {
                Ok(window) => window,
                Err(query) => {
                    return Err(query);
                },
            },
            None => {
                return Ok(None);
            },
        };
        let status: HealthStatus = window.status;
        self.endpoint_real_traffic_health.insert(endpoint, window);
        Ok(Some(status))
    }

    /// How long a request counts.
    pub fn real_traffic_window(&self) -> (r: u128)
        ensures
            r == self.deep_view().config.window,
    {
        self.real_traffic_health_config.window
    }

    /// Whether a request of an endpoint succeeded not longer ago than `within`; older
    /// requests at the front of its window go.
    pub fn has_recent_endpoint_success(&mut self, endpoint: &str, now: u128, within: u128) -> (r:
        bool)
        ensures
            ({
                let h = old(self).deep_view();
                let events = pruned(h.traffic[endpoint@].events, now, within);
                if !h.traffic.dom().contains(endpoint@) {
                    !r && final(self).deep_view() == h
                } else {
                    r == succeeded_within(events, now, within) && final(self).deep_view() == (
                    SystemHealthView {
                        traffic: h.traffic.insert(
                            endpoint@,
                            RealTrafficWindowView { events, ..h.traffic[endpoint@] },
                        ),
                        ..h
                    })
                }
            }),
    {
        let mut window: RealTrafficWindow = match self.endpoint_real_traffic_health.get(endpoint) {
            Some(window) => window.duplicate(),
            None => {
                return false;
            },
        };
        let r: bool = window.has_success_within(now, within);
        self.endpoint_real_traffic_health.insert(endpoint, window);
        r
    }

    /// The windows of all endpoints, refreshed where the endpoint has a status.
    fn refresh_all(&self, now: u128, facts: &Vec<ThresholdFact>) -> (r: Result<
        NameMap<RealTrafficWindow>,
        ThresholdQuery,
    >)
        ensures
            ({
                let h = self.deep_view();
                match r {
                    Ok(windows) => all_answered(h, now, facts@) && windows@ == all_refreshed(
                        h,
                        now,
                        facts@,
                    ).traffic,
                    Err(query) => exists|endpoint: Seq<char>| #[trigger]
                        h.traffic.dom().contains(endpoint) && refreshed_window(
                            h,
                            endpoint,
                            now,
                            facts@,
                        ) == Err::<RealTrafficWindowView, _>(query),
                }
            }),
    {
        let ghost h = self.deep_view();
        let names: Vec<String> = self.endpoint_real_traffic_health.names();
        let ghost all = names.deep_view();
        let mut windows: NameMap<RealTrafficWindow> = NameMap::new();
        let mut i: usize = 0;
        assert(windows@ =~= refreshed_first(h, all, 0, now, facts@));
        while i < names.len()
            invariant
                h == self.deep_view(),
                all == names.deep_view(),
                all.len() == names@.len(),
                i <= all.len(),
                all.no_duplicates(),
                forall|name: Seq<char>| #[trigger]
                    all.contains(name) <==> h.traffic.dom().contains(name),
                windows@ == refreshed_first(h, all, i as nat, now, facts@),
                forall|j: int|
                    0 <= j < i ==> refreshed_window(h, #[trigger] all[j], now, facts@) is Ok,
            decreases all.len() - i,
        {
            assert(all[i as int] == names@[i as int]@);
            assert(all.contains(all[i as int]));
            let name: &str = names[i].as_str();
            match self.endpoint_real_traffic_health.get(name) {
                Some(window) => {
                    let next: RealTrafficWindow = if self.endpoint_health.contains(name) {
                        match window.refresh(now, self.real_traffic_health_config, facts) {
                            Ok(next) => next,
                            Err(query) => {
                                assert(h.traffic.dom().contains(name@) && refreshed_window(
                                    h,
                                    name@,
                                    now,
                                    facts@,
                                ) == Err::<RealTrafficWindowView, _>(query));
                                return Err(query);
                            },
                        }
                    } else {
                        window.duplicate()
                    };
                    windows.insert(name, next);
                },
                None => {},
            }
            i += 1;
        }
        proof {
            lemma_refreshed_first(h, all, all.len(), now, facts@);
            assert forall|endpoint: Seq<char>| #[trigger]
                h.traffic.dom().contains(endpoint) implies refreshed_window(
                h,
                endpoint,
                now,
                facts@,
            ) is Ok by {
                assert(all.contains(endpoint));
                let j = choose|j: int| 0 <= j < all.len() && all[j] == endpoint;
                assert(refreshed_window(h, all[j], now, facts@) is Ok);
            }
            assert forall|name: Seq<char>| #[trigger]
                windows@.dom().contains(name) <==> h.traffic.dom().contains(name) by {
                if windows@.dom().contains(name) {
                    let j = choose|j: int| 0 <= j < all.len() && #[trigger] all[j] == name;
                    assert(all.contains(name));
                }
                if h.traffic.dom().contains(name) {
                    assert(all.contains(name));
                    let j = choose|j: int| 0 <= j < all.len() && all[j] == name;
                    assert(all[j] == name);
                }
            }
            assert(windows@ =~= all_refreshed(h, now, facts@).traffic);
        }
        Ok(windows)
    }

    /// Whether an endpoint is ready.
    fn endpoint_is_ready(&self, endpoint: &str) -> (r: bool)
        ensures
            r == endpoint_ready(self.deep_view(), endpoint@),
    {
        let base_ready: bool = match self.endpoint_health.get(endpoint) {
            Some(status) => *status == HealthStatus::Ready,
            None => false,
        };
        let real_ready: bool = match self.endpoint_real_traffic_health.get(endpoint) {
            Some(window) => window.status == HealthStatus::Ready,
            None => true,
        };
        base_ready && real_ready
    }

    /// Whether all endpoints of a list are ready.
    fn all_ready(&self, list: &Vec<String>) -> (r: bool)
        ensures
            r == forall|i: int|
                0 <= i < list.deep_view().len() ==> endpoint_ready(
                    self.deep_view(),
                    #[trigger] list.deep_view()[i],
                ),
    {
        let ghost all = list.deep_view();
        let mut i: usize = 0;
        while i < list.len()
            invariant
                all == list.deep_view(),
                all.len() == list@.len(),
                i <= all.len(),
                forall|j: int| 0 <= j < i ==> endpoint_ready(self.deep_view(), #[trigger] all[j]),
            decreases all.len() - i,
        {
            assert(all[i as int] == list@[i as int]@);
            if !self.endpoint_is_ready(list[i].as_str()) {
                assert(!endpoint_ready(self.deep_view(), list.deep_view()[i as int]));
                return false;
            }
            i += 1;
        }
        true
    }

    /// Whether the system is healthy, by the windows as they are.
    fn is_healthy(&self) -> (r: bool)
        ensures
            r == system_ready(self.deep_view()),
    {
        if !self.health_check_targets.is_empty() {
            let names: Vec<String> = self.health_check_targets.names();
            let r: bool = self.all_ready(&names);
            let ghost all = names.deep_view();
            let ghost h = self.deep_view();
            proof {
                if r {
                    assert forall|endpoint: Seq<char>| #[trigger]
                        h.targets.dom().contains(endpoint) implies endpoint_ready(h, endpoint) by {
                        assert(all.contains(endpoint));
                        let j = choose|j: int| 0 <= j < all.len() && all[j] == endpoint;
                        assert(endpoint_ready(h, all[j]));
                    }
                } else {
                    let j = choose|j: int|
                        0 <= j < all.len() && !endpoint_ready(h, #[trigger] all[j]);
                    assert(all.contains(all[j]));
                    assert(h.targets.dom().contains(all[j]));
                }
            }
            r
        } else if self.use_endpoint_health_status.len() > 0 {
            self.all_ready(&self.use_endpoint_health_status)
        } else {
            self.system_health == HealthStatus::Ready
        }
    }

    /// What all endpoints with a status report, by the windows as they are.
    fn report(&self) -> (r: NameMap<String>)
        ensures
            r@ == endpoint_words(self.deep_view()),
    {
        let ghost h = self.deep_view();
        let names: Vec<String> = self.endpoint_health.names();
        let ghost all = names.deep_view();
        let mut words: NameMap<String> = NameMap::new();
        let mut i: usize = 0;
        while i < names.len()
            invariant
                h == self.deep_view(),
                all == names.deep_view(),
                all.len() == names@.len(),
                i <= all.len(),
                forall|name: Seq<char>| #[trigger]
                    words@.dom().contains(name) <==> all.subrange(0, i as int).contains(name),
                forall|name: Seq<char>| #[trigger]
                    words@.dom().contains(name) ==> words@[name] == ready_word(
                        endpoint_ready(h, name),
                    ),
            decreases all.len() - i,
        {
            assert(all[i as int] == names@[i as int]@);
            let ready: bool = self.endpoint_is_ready(names[i].as_str());
            let word: String = if ready {
                "ready".to_owned()
            } else {
                "notready".to_owned()
            };
            let ghost before = words@;
            words.insert(names[i].as_str(), word);
            proof {
                let shorter = all.subrange(0, i as int);
                let longer = all.subrange(0, i + 1);
                assert(longer =~= shorter.push(all[i as int]));
                assert forall|name: Seq<char>| #[trigger]
                    words@.dom().contains(name) <==> longer.contains(name) by {
                    if shorter.contains(name) {
                        let j = choose|j: int| 0 <= j < shorter.len() && shorter[j] == name;
                        assert(longer[j] == name);
                    }
                    if longer.contains(name) && name != all[i as int] {
                        let j = choose|j: int| 0 <= j < longer.len() && longer[j] == name;
                        assert(shorter[j] == name);
                    }
                    if name == all[i as int] {
                        assert(longer[i as int] == name);
                    }
                    assert(before.dom().contains(name) <==> shorter.contains(name));
                }
            }
            i += 1;
        }
        assert(all.subrange(0, all.len() as int) =~= all);
        assert(words@ =~= endpoint_words(h));
        words
    }

    /// Whether the system is healthy, and what each endpoint with a status reports.
    /// Where a window has a question without an answer, nothing changes.
    pub fn get_health_status(&mut self, now: u128, facts: &Vec<ThresholdFact>) -> (r: Result<
        (bool, NameMap<String>),
        ThresholdQuery,
    >)
        ensures
            ({
                let h = old(self).deep_view();
                let after = all_refreshed(h, now, facts@);
                match r {
                    Ok(found) => all_answered(h, now, facts@) && final(self).deep_view() == after
                        && found.0 == system_ready(after) && found.1@ == endpoint_words(after),
                    Err(query) => final(self).deep_view() == h && exists|endpoint: Seq<char>|
                     #[trigger]
                        h.traffic.dom().contains(endpoint) && refreshed_window(
                            h,
                            endpoint,
                            now,
                            facts@,
                        ) == Err::<RealTrafficWindowView, _>(query),
                }
            }),
    {
        match self.refresh_all(now, facts) {
            Ok(windows) => {
                self.endpoint_real_traffic_health = windows;
                Ok((self.is_healthy(), self.report()))
            },
            Err(query) => Err(query),
        }
    }

    /// Registers a health check for an endpoint, and says whether it is new. The caller
    /// tells the health checks of a new one; a registered endpoint keeps its own.
    pub fn register_health_check_target(
        &mut self,
        endpoint_subject: &str,
        instance: Instance,
        payload: Json,
    ) -> (r: bool)
        ensures
            r == !old(self).deep_view().targets.dom().contains(endpoint_subject@),
            final(self).deep_view() == with_target(
                old(self).deep_view(),
                endpoint_subject@,
                HealthCheckTargetView { instance: instance.deep_view(), payload: payload@ },
            ),
    {
        if self.health_check_targets.contains(endpoint_subject) {
            return false;
        }
        self.health_check_targets.insert(endpoint_subject, HealthCheckTarget { instance, payload });
        if !self.endpoint_health.contains(endpoint_subject) {
            self.endpoint_health.insert(endpoint_subject, HealthStatus::NotReady);
        }
        if !self.endpoint_real_traffic_health.contains(endpoint_subject) {
            self.endpoint_real_traffic_health.insert(endpoint_subject, RealTrafficWindow::new());
        }
        true
    }

    /// Whether any health checks are registered.
    pub fn has_health_check_targets(&self) -> (r: bool)
        ensures
            r == (self.deep_view().targets != Map::<Seq<char>, HealthCheckTargetView>::empty()),
    {
        !self.health_check_targets.is_empty()
    }

    /// The endpoints with a health check, each once.
    pub fn get_health_check_endpoints(&self) -> (r: Vec<String>)
        ensures
            r.deep_view().no_duplicates(),
            forall|endpoint: Seq<char>| #[trigger]
                r.deep_view().contains(endpoint) <==> self.deep_view().targets.dom().contains(
                    endpoint,
                ),
    {
        self.health_check_targets.names()
    }

    /// The health check of an endpoint.
    pub fn get_health_check_target(&self, endpoint: &str) -> (r: Option<HealthCheckTarget>)
        ensures
            r matches Some(target) ==> self.deep_view().targets.dom().contains(endpoint@)
                && self.deep_view().targets[endpoint@] == target.deep_view(),
            r is None ==> !self.deep_view().targets.dom().contains(endpoint@),
    {
        match self.health_check_targets.get(endpoint) {
            Some(target) => Some(target.duplicate()),
            None => None,
        }
    }

    /// All health checks, each endpoint once.
    pub fn get_health_check_targets(&self) -> (r: Vec<(String, HealthCheckTarget)>)
        ensures
            forall|i: int, j: int|
                0 <= i < j < r@.len() ==> (#[trigger] r@[i]).0@ != (#[trigger] r@[j]).0@,
            forall|i: int|
                0 <= i < r@.len() ==> self.deep_view().targets.dom().contains(
                    (#[trigger] r@[i]).0@,
                ) && self.deep_view().targets[r@[i].0@] == r@[i].1.deep_view(),
            forall|endpoint: Seq<char>| #[trigger]
                self.deep_view().targets.dom().contains(endpoint) ==> exists|i: int|
                    0 <= i < r@.len() && (#[trigger] r@[i]).0@ == endpoint,
    {
        let ghost targets = self.deep_view().targets;
        let names: Vec<String> = self.health_check_targets.names();
        let ghost all = names.deep_view();
        let mut out: Vec<(String, HealthCheckTarget)> = Vec::new();
        let mut i: usize = 0;
        while i < names.len()
            invariant
                targets == self.deep_view().targets,
                all == names.deep_view(),
                all.len() == names@.len(),
                i <= all.len(),
                all.no_duplicates(),
                forall|name: Seq<char>| #[trigger]
                    all.contains(name) <==> targets.dom().contains(name),
                out@.len() == i,
                forall|k: int|
                    0 <= k < i ==> (#[trigger] out@[k]).0@ == all[k] && targets.dom().contains(
                        all[k],
                    ) && targets[all[k]] == out@[k].1.deep_view(),
            decreases all.len() - i,
        {
            assert(all[i as int] == names@[i as int]@);
            assert(all.contains(all[i as int]));
            match self.health_check_targets.get(names[i].as_str()) {
                Some(target) => {
                    out.push((names[i].clone(), target.duplicate()));
                },
                None => {
                    assert(false);
                },
            }
            i += 1;
        }
        proof {
            assert forall|endpoint: Seq<char>| #[trigger]
                targets.dom().contains(endpoint) implies exists|i: int|
                0 <= i < out@.len() && (#[trigger] out@[i]).0@ == endpoint by {
                assert(all.contains(endpoint));
                let j = choose|j: int| 0 <= j < all.len() && all[j] == endpoint;
                assert(out@[j].0@ == endpoint);
            }
        }
        out
    }

    /// The status of an endpoint.
    pub fn get_endpoint_health_status(&self, endpoint: &str) -> (r: Option<HealthStatus>)
        ensures
            r matches Some(status) ==> self.deep_view().endpoints.dom().contains(endpoint@)
                && self.deep_view().endpoints[endpoint@] == status,
            r is None ==> !self.deep_view().endpoints.dom().contains(endpoint@),
    {
        match self.endpoint_health.get(endpoint) {
            Some(status) => Some(*status),
            None => None,
        }
    }

    /// The path of the health check.
    pub fn health_path(&self) -> (r: &str)
        ensures
            r@ == self.deep_view().health_path,
    {
        self.health_path.as_str()
    }

    /// The path of the liveness check.
    pub fn live_path(&self) -> (r: &str)
        ensures
            r@ == self.deep_view().live_path,
    {
        self.live_path.as_str()
    }
}

/// The windows of the first `n` names, refreshed.
spec fn refreshed_first(
    h: SystemHealthView,
    names: Seq<Seq<char>>,
    n: nat,
    now: u128,
    facts: Seq<ThresholdFact>,
) -> Map<Seq<char>, RealTrafficWindowView>
    decreases n,
{
    if n == 0 {
        Map::empty()
    } else {
        refreshed_first(h, names, (n - 1) as nat, now, facts).insert(
            names[n - 1],
            refreshed_window(h, names[n - 1], now, facts)->Ok_0,
        )
    }
}

proof fn lemma_refreshed_first(
    h: SystemHealthView,
    names: Seq<Seq<char>>,
    n: nat,
    now: u128,
    facts: Seq<ThresholdFact>,
)
    requires
        n <= names.len(),
    ensures
        forall|name: Seq<char>| #[trigger]
            refreshed_first(h, names, n, now, facts).dom().contains(name) <==> exists|j: int|
                0 <= j < n && #[trigger] names[j] == name,
        forall|name: Seq<char>| #[trigger]
            refreshed_first(h, names, n, now, facts).dom().contains(name) ==> refreshed_first(
                h,
                names,
                n,
                now,
                facts,
            )[name] == refreshed_window(h, name, now, facts)->Ok_0,
    decreases n,
{
    if n > 0 {
        lemma_refreshed_first(h, names, (n - 1) as nat, now, facts);
        let m = refreshed_first(h, names, n, now, facts);
        let before = refreshed_first(h, names, (n - 1) as nat, now, facts);
        assert forall|name: Seq<char>| #[trigger] m.dom().contains(name) <==> exists|j: int|
            0 <= j < n && #[trigger] names[j] == name by {
            if m.dom().contains(name) {
                if name == names[n - 1] {
                    assert(names[n - 1] == name);
                } else {
                    assert(before.dom().contains(name));
                }
            }
            if exists|j: int| 0 <= j < n && #[trigger] names[j] == name {
                let j = choose|j: int| 0 <= j < n && #[trigger] names[j] == name;
                if j < n - 1 {
                    assert(before.dom().contains(name));
                }
            }
        }
        assert forall|name: Seq<char>| #[trigger] m.dom().contains(name) implies m[name]
            == refreshed_window(h, name, now, facts)->Ok_0 by {
            if name != names[n - 1] {
                assert(before.dom().contains(name));
            }
        }
    }
}

} // verus!
