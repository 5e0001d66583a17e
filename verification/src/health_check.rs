//! Health checks of endpoints: what to do when a timer runs out, when requests come in
//! and when a check ends. Times and spans are nanoseconds.

use crate::json::{fields_map, lemma_fields_push, Json, JsonField, JsonView};
use crate::name_map::NameMap;
use crate::system_health::{
    ready_word, HealthCheckTarget, HealthCheckTargetView, SystemHealth, SystemHealthView,
};
use crate::text::{decimal, decimal_text, join};
use crate::tools::json_int;
use crate::traffic::{elapsed, since, HealthStatus};
use vstd::prelude::*;

verus! {

/// How long a check waits for the instances of an endpoint: ten seconds.
pub const DISCOVERY_TIMEOUT: u128 = 10_000_000_000;

/// When endpoints are checked.
#[derive(Debug, Clone, Copy, PartialEq, Eq, Structural)]
pub struct HealthCheckConfig {
    /// How long an endpoint may be idle before it is checked.
    pub canary_wait_time: u128,
    /// How long a check may take.
    pub request_timeout: u128,
    /// How long an endpoint stays ready after its last successful check.
    pub success_ttl: u128,
}

/// A success that is recent enough to keep an endpoint ready.
pub open spec fn keeps_ready(last_success: Option<u128>, now: u128, success_ttl: u128) -> bool {
    last_success is Some && since(now, last_success->0) < success_ttl
}

/// Whether an endpoint stays ready though a check failed: its last success is recent
/// enough.
pub fn should_keep_endpoint_ready_after_failure(
    last_success: Option<u128>,
    now: u128,
    success_ttl: u128,
) -> (r: bool)
    ensures
        r == keeps_ready(last_success, now, success_ttl),
{
    match last_success {
        Some(last_success) => elapsed(now, last_success) < success_ttl,
        None => false,
    }
}

/// A success counts for no longer with time.
pub proof fn law_success_wears_off(
    last_success: Option<u128>,
    earlier: u128,
    later: u128,
    success_ttl: u128,
)
    requires
        earlier <= later,
        keeps_ready(last_success, later, success_ttl),
    ensures
        keeps_ready(last_success, earlier, success_ttl),
{
}

/// The text for a response that is an error.
pub open spec fn response_error(count: nat, error: Seq<char>) -> Seq<char> {
    "Health check returned an error response after "@ + decimal(count) + " response item(s): "@
        + error
}

/// One more, as far as a machine counts.
pub open spec fn one_more(count: usize) -> usize {
    if count < usize::MAX {
        (count + 1) as usize
    } else {
        usize::MAX
    }
}

/// The responses of a check that have come in. A check succeeds where all responses come
/// in, none is an error, and there is at least one.
#[derive(Debug, Clone, Copy, PartialEq, Eq, Structural)]
pub struct HealthCheckResponses {
    pub count: usize,
}

impl HealthCheckResponses {
    /// No responses yet.
    pub fn new() -> (r: HealthCheckResponses)
        ensures
            r.count == 0,
    {
        HealthCheckResponses { count: 0 }
    }

    /// Takes in a response; one that is an error ends the check with the text returned.
    pub fn observe(&mut self, error: Option<&str>) -> (r: Option<String>)
        ensures
            final(self).count == one_more(old(self).count),
            r.deep_view() == (match error.deep_view() {
                Some(error) => Some(response_error(final(self).count as nat, error)),
                None => None,
            }),
    {
        self.count = self.count.saturating_add(1);
        match error {
            Some(error) => {
                let mut text: String = join(
                    "Health check returned an error response after ",
                    decimal_text(self.count).as_str(),
                );
                text = join(text.as_str(), " response item(s): ");
                Some(join(text.as_str(), error))
            },
            None => None,
        }
    }

    /// How many responses came in, once all did.
    pub fn finish(&self) -> (r: Result<usize, String>)
        ensures
            self.count > 0 ==> r == Ok::<usize, String>(self.count),
            self.count == 0 ==> (r matches Err(error) && error@ == "Health check got no response"@),
    {
        if self.count == 0 {
            Err("Health check got no response".to_owned())
        } else {
            Ok(self.count)
        }
    }
}

/// Why a check failed.
#[derive(Debug, PartialEq, Eq)]
pub enum CheckFailure {
    /// There is no way to the endpoint.
    Router(String),
    /// The instances of the endpoint cannot be found.
    Discovery(String),
    /// The instances of the endpoint were not found in time.
    DiscoveryTimeout,
    /// The request was not taken.
    Request(String),
    /// The responses were not those of a healthy endpoint.
    Responses(String),
    /// The check took too long: more than the span that is written out.
    RequestTimeout(String),
}

/// The content of a [`CheckFailure`].
#[verifier::ext_equal]
pub enum CheckFailureView {
    Router(Seq<char>),
    Discovery(Seq<char>),
    DiscoveryTimeout,
    Request(Seq<char>),
    Responses(Seq<char>),
    RequestTimeout(Seq<char>),
}

impl DeepView for CheckFailure {
    type V = CheckFailureView;

    open spec fn deep_view(&self) -> CheckFailureView {
        match self {
            CheckFailure::Router(error) => CheckFailureView::Router(error@),
            CheckFailure::Discovery(error) => CheckFailureView::Discovery(error@),
            CheckFailure::DiscoveryTimeout => CheckFailureView::DiscoveryTimeout,
            CheckFailure::Request(error) => CheckFailureView::Request(error@),
            CheckFailure::Responses(error) => CheckFailureView::Responses(error@),
            CheckFailure::RequestTimeout(span) => CheckFailureView::RequestTimeout(span@),
        }
    }
}

/// The text of a failure.
pub open spec fn failure_text(endpoint: Seq<char>, failure: CheckFailureView) -> Seq<char> {
    match failure {
        CheckFailureView::Router(error) => error,
        CheckFailureView::Discovery(error) => "Failed to discover instances for "@ + endpoint
            + " during health check: "@ + error,
        CheckFailureView::DiscoveryTimeout => "Timeout waiting for instance discovery for "@
            + endpoint + " during health check"@,
        CheckFailureView::Request(error) => "Health check request failed for "@ + endpoint + ": "@
            + error,
        CheckFailureView::Responses(error) => error,
        CheckFailureView::RequestTimeout(span) => "Health check timed out for "@ + endpoint
            + " after "@ + span,
    }
}

impl CheckFailure {
    /// The text of the failure.
    pub fn text(&self, endpoint: &str) -> (r: String)
        ensures
            r@ == failure_text(endpoint@, self.deep_view()),
    {
        match self {
            CheckFailure::Router(error) => error.clone(),
            CheckFailure::Discovery(error) => join(
                join(
                    join("Failed to discover instances for ", endpoint).as_str(),
                    " during health check: ",
                ).as_str(),
                error.as_str(),
            ),
            CheckFailure::DiscoveryTimeout => join(
                join("Timeout waiting for instance discovery for ", endpoint).as_str(),
                " during health check",
            ),
            CheckFailure::Request(error) => join(
                join(join("Health check request failed for ", endpoint).as_str(), ": ").as_str(),
                error.as_str(),
            ),
            CheckFailure::Responses(error) => error.clone(),
            CheckFailure::RequestTimeout(span) => join(
                join(join("Health check timed out for ", endpoint).as_str(), " after ").as_str(),
                span.as_str(),
            ),
        }
    }
}

/// What wakes the task that watches an endpoint.
#[derive(Debug, Clone, Copy, PartialEq, Eq, Structural)]
pub enum TaskEvent {
    /// The endpoint has been idle for the wait time.
    TimerExpired,
    /// A request came in.
    Activity,
}

/// What the task that watches an endpoint does next.
#[derive(Debug, PartialEq, Eq)]
pub enum TaskAction {
    /// Checks the endpoint, then waits.
    Probe(HealthCheckTarget),
    /// Waits.
    Wait,
    /// Ends: the endpoint has no health check.
    Stop,
}

/// The content of a [`TaskAction`].
#[verifier::ext_equal]
pub enum TaskActionView {
    Probe(HealthCheckTargetView),
    Wait,
    Stop,
}

impl DeepView for TaskAction {
    type V = TaskActionView;

    open spec fn deep_view(&self) -> TaskActionView {
        match self {
            TaskAction::Probe(target) => TaskActionView::Probe(target.deep_view()),
            TaskAction::Wait => TaskActionView::Wait,
            TaskAction::Stop => TaskActionView::Stop,
        }
    }
}

/// What is done about an endpoint that is registered while checks run.
#[derive(Debug, Clone, Copy, PartialEq, Eq, Structural)]
pub enum MonitorAction {
    /// A task is started for it.
    Spawn,
    /// It has a task: no more endpoints are taken in.
    Stop,
}

/// The health checks of a system.
#[derive(Debug)]
pub struct HealthCheckManager {
    config: HealthCheckConfig,
    last_success: NameMap<u128>,
    endpoint_tasks: NameMap<u64>,
}

/// The content of a [`HealthCheckManager`].
#[verifier::ext_equal]
pub struct HealthCheckManagerView {
    pub config: HealthCheckConfig,
    pub last_success: Map<Seq<char>, u128>,
    pub tasks: Map<Seq<char>, u64>,
}

impl DeepView for HealthCheckManager {
    type V = HealthCheckManagerView;

    closed spec fn deep_view(&self) -> HealthCheckManagerView {
        HealthCheckManagerView {
            config: self.config,
            last_success: self.last_success@,
            tasks: self.endpoint_tasks@,
        }
    }
}

/// The last success of an endpoint.
pub open spec fn success_of(m: HealthCheckManagerView, endpoint: Seq<char>) -> Option<u128> {
    if m.last_success.dom().contains(endpoint) {
        Some(m.last_success[endpoint])
    } else {
        None
    }
}

/// What the task does with a check that is due.
pub open spec fn probe_action(h: SystemHealthView, endpoint: Seq<char>) -> TaskActionView {
    if h.targets.dom().contains(endpoint) {
        TaskActionView::Probe(h.targets[endpoint])
    } else {
        TaskActionView::Stop
    }
}

/// What the task that watches an endpoint does: a check is due when the endpoint has
/// been idle, and when a request comes in and the last success is no longer recent.
pub open spec fn task_action(
    m: HealthCheckManagerView,
    h: SystemHealthView,
    endpoint: Seq<char>,
    event: TaskEvent,
    now: u128,
) -> TaskActionView {
    match event {
        TaskEvent::TimerExpired => probe_action(h, endpoint),
        TaskEvent::Activity => if keeps_ready(
            success_of(m, endpoint),
            now,
            m.config.success_ttl,
        ) {
            TaskActionView::Wait
        } else {
            probe_action(h, endpoint)
        },
    }
}

/// The health after a status is set.
pub open spec fn with_status(
    h: SystemHealthView,
    endpoint: Seq<char>,
    status: HealthStatus,
) -> SystemHealthView {
    SystemHealthView { endpoints: h.endpoints.insert(endpoint, status), ..h }
}

/// The health after a check failed: an endpoint with a recent success keeps its status.
pub open spec fn after_failure(
    m: HealthCheckManagerView,
    h: SystemHealthView,
    endpoint: Seq<char>,
    now: u128,
) -> SystemHealthView {
    if keeps_ready(success_of(m, endpoint), now, m.config.success_ttl) {
        h
    } else {
        with_status(h, endpoint, HealthStatus::NotReady)
    }
}

/// The manager after a check succeeded.
pub open spec fn after_success(
    m: HealthCheckManagerView,
    endpoint: Seq<char>,
    now: u128,
) -> HealthCheckManagerView {
    HealthCheckManagerView { last_success: m.last_success.insert(endpoint, now), ..m }
}

/// A failure right after a success does not take an endpoint out of service, one after
/// the time to live does.
pub proof fn law_failures_count_when_stale(
    m: HealthCheckManagerView,
    h: SystemHealthView,
    endpoint: Seq<char>,
    success: u128,
    failure: u128,
)
    requires
        success <= failure,
    ensures
        failure - success < m.config.success_ttl ==> after_failure(
            after_success(m, endpoint, success),
            with_status(h, endpoint, HealthStatus::Ready),
            endpoint,
            failure,
        ).endpoints[endpoint] == HealthStatus::Ready,
        failure - success >= m.config.success_ttl ==> after_failure(
            after_success(m, endpoint, success),
            with_status(h, endpoint, HealthStatus::Ready),
            endpoint,
            failure,
        ).endpoints[endpoint] == HealthStatus::NotReady,
{
}

/// A check of one endpoint says nothing of the others.
pub proof fn law_failures_stay_with_their_endpoint(
    m: HealthCheckManagerView,
    h: SystemHealthView,
    endpoint: Seq<char>,
    now: u128,
    other: Seq<char>,
)
    requires
        other != endpoint,
        h.endpoints.dom().contains(other),
    ensures
        after_failure(m, h, endpoint, now).endpoints.dom().contains(other),
        after_failure(m, h, endpoint, now).endpoints[other] == h.endpoints[other],
{
}

impl HealthCheckManager {
    /// Health checks with nothing known yet.
    pub fn new(config: HealthCheckConfig) -> (r: HealthCheckManager)
        ensures
            r.deep_view() == (HealthCheckManagerView {
                config,
                last_success: Map::empty(),
                tasks: Map::empty(),
            }),
    {
        HealthCheckManager { config, last_success: NameMap::new(), endpoint_tasks: NameMap::new() }
    }

    /// When endpoints are checked.
    pub fn config(&self) -> (r: HealthCheckConfig)
        ensures
            r == self.deep_view().config,
    {
        self.config
    }

    /// The last success of an endpoint.
    pub fn last_success(&self, endpoint_subject: &str) -> (r: Option<u128>)
        ensures
            r == success_of(self.deep_view(), endpoint_subject@),
    {
        match self.last_success.get(endpoint_subject) {
            Some(at) => Some(*at),
            None => None,
        }
    }

    /// Whether a request that comes in makes a check due.
    pub fn should_probe_on_activity(&self, endpoint_subject: &str, now: u128) -> (r: bool)
        ensures
            r == !keeps_ready(
                success_of(self.deep_view(), endpoint_subject@),
                now,
                self.deep_view().config.success_ttl,
            ),
    {
        !should_keep_endpoint_ready_after_failure(
            self.last_success(endpoint_subject),
            now,
            self.config.success_ttl,
        )
    }

    /// Notes that a check succeeded, and makes the endpoint ready.
    pub fn mark_endpoint_ready(
        &mut self,
        endpoint_subject: &str,
        now: u128,
        health: &mut SystemHealth,
    )
        ensures
            final(self).deep_view() == after_success(
                old(self).deep_view(),
                endpoint_subject@,
                now,
            ),
            final(health).deep_view() == with_status(
                old(health).deep_view(),
                endpoint_subject@,
                HealthStatus::Ready,
            ),
    {
        self.last_success.insert(endpoint_subject, now);
        health.set_endpoint_health_status(endpoint_subject, HealthStatus::Ready);
    }

    /// Makes an endpoint whose check failed not ready, unless its last success is recent
    /// enough; says whether it keeps its status.
    pub fn mark_endpoint_not_ready_if_stale(
        &self,
        endpoint_subject: &str,
        now: u128,
        health: &mut SystemHealth,
    ) -> (r: bool)
        ensures
            r == keeps_ready(
                success_of(self.deep_view(), endpoint_subject@),
                now,
                self.deep_view().config.success_ttl,
            ),
            final(health).deep_view() == after_failure(
                self.deep_view(),
                old(health).deep_view(),
                endpoint_subject@,
                now,
            ),
    {
        if should_keep_endpoint_ready_after_failure(
            self.last_success(endpoint_subject),
            now,
            self.config.success_ttl,
        ) {
            return true;
        }
        health.set_endpoint_health_status(endpoint_subject, HealthStatus::NotReady);
        false
    }

    /// What the task that watches an endpoint does next.
    pub fn next_task_action(
        &self,
        endpoint_subject: &str,
        event: TaskEvent,
        now: u128,
        health: &SystemHealth,
    ) -> (r: TaskAction)
        ensures
            r.deep_view() == task_action(
                self.deep_view(),
                health.deep_view(),
                endpoint_subject@,
                event,
                now,
            ),
    {
        match event {
            TaskEvent::Activity => {
                if !self.should_probe_on_activity(endpoint_subject, now) {
                    return TaskAction::Wait;
                }
            },
            TaskEvent::TimerExpired => {},
        }
        match health.get_health_check_target(endpoint_subject) {
            Some(target) => TaskAction::Probe(target),
            None => TaskAction::Stop,
        }
    }

    /// Where a check goes and what it sends; an error for an endpoint without a check.
    pub fn begin_health_check_request(&self, endpoint_subject: &str, health: &SystemHealth) -> (r:
        Result<HealthCheckTarget, String>)
        ensures
            r matches Ok(target) ==> health.deep_view().targets.dom().contains(endpoint_subject@)
                && health.deep_view().targets[endpoint_subject@] == target.deep_view(),
            r matches Err(error) ==> !health.deep_view().targets.dom().contains(endpoint_subject@)
                && error@ == "No health check target found for "@ + endpoint_subject@,
    {
        match health.get_health_check_target(endpoint_subject) {
            Some(target) => Ok(target),
            None => Err(join("No health check target found for ", endpoint_subject)),
        }
    }

    /// Ends a check: a success makes the endpoint ready, a failure makes it not ready
    /// unless its last success is recent enough.
    pub fn finish_health_check_request(
        &mut self,
        endpoint_subject: &str,
        outcome: Result<usize, CheckFailure>,
        now: u128,
        health: &mut SystemHealth,
    ) -> (r: Result<(), String>)
        ensures
            outcome is Ok ==> r is Ok && final(self).deep_view() == after_success(
                old(self).deep_view(),
                endpoint_subject@,
                now,
            ) && final(health).deep_view() == with_status(
                old(health).deep_view(),
                endpoint_subject@,
                HealthStatus::Ready,
            ),
            outcome matches Err(failure) ==> (r matches Err(error) && error@ == failure_text(
                endpoint_subject@,
                failure.deep_view(),
            )) && final(self).deep_view() == old(self).deep_view() && final(health).deep_view()
                == after_failure(
                old(self).deep_view(),
                old(health).deep_view(),
                endpoint_subject@,
                now,
            ),
    {
        match outcome {
            Ok(_) => {
                self.mark_endpoint_ready(endpoint_subject, now, health);
                Ok(())
            },
            Err(failure) => {
                let _ = self.mark_endpoint_not_ready_if_stale(endpoint_subject, now, health);
                Err(failure.text(endpoint_subject))
            },
        }
    }

    /// What is done about an endpoint that is registered while checks run.
    pub fn on_endpoint_registered(&self, endpoint_subject: &str) -> (r: MonitorAction)
        ensures
            r == (if self.deep_view().tasks.dom().contains(endpoint_subject@) {
                MonitorAction::Stop
            } else {
                MonitorAction::Spawn
            }),
    {
        if self.endpoint_tasks.contains(endpoint_subject) {
            MonitorAction::Stop
        } else {
            MonitorAction::Spawn
        }
    }

    /// Notes the task that watches an endpoint.
    pub fn task_started(&mut self, endpoint_subject: &str, handle: u64)
        ensures
            final(self).deep_view() == (HealthCheckManagerView {
                tasks: old(self).deep_view().tasks.insert(endpoint_subject@, handle),
                ..old(self).deep_view()
            }),
    {
        self.endpoint_tasks.insert(endpoint_subject, handle);
    }

    /// The endpoints that a task watches, each once.
    pub fn watched_endpoints(&self) -> (r: Vec<String>)
        ensures
            r.deep_view().no_duplicates(),
            forall|endpoint: Seq<char>| #[trigger]
                r.deep_view().contains(endpoint) <==> self.deep_view().tasks.dom().contains(
                    endpoint,
                ),
    {
        self.endpoint_tasks.names()
    }
}

/// An endpoint whose own status is ready.
pub open spec fn status_ready(h: SystemHealthView, endpoint: Seq<char>) -> bool {
    h.endpoints.dom().contains(endpoint) && h.endpoints[endpoint] == HealthStatus::Ready
}

/// The report on one endpoint.
pub open spec fn endpoint_report(ready: bool) -> JsonView {
    JsonView::Object(
        Map::empty().insert("healthy"@, JsonView::Bool(ready)).insert(
            "status"@,
            JsonView::Text(
                if ready {
                    "Ready"@
                } else {
                    "NotReady"@
                },
            ),
        ),
    )
}

/// The report on all endpoints with a health check: ready where all of them are.
pub open spec fn status_report(h: SystemHealthView) -> JsonView {
    let all_ready = forall|endpoint: Seq<char>| #[trigger]
        h.targets.dom().contains(endpoint) ==> status_ready(h, endpoint);
    JsonView::Object(
        Map::empty().insert("status"@, JsonView::Text(ready_word(all_ready))).insert(
            "endpoints_checked"@,
            json_int(h.targets.dom().len() as int),
        ).insert(
            "endpoint_statuses"@,
            JsonView::Object(
                Map::new(
                    |endpoint: Seq<char>| h.targets.dom().contains(endpoint),
                    |endpoint: Seq<char>| endpoint_report(status_ready(h, endpoint)),
                ),
            ),
        ),
    )
}

/// The reports on the first `n` endpoints.
spec fn reports_on(h: SystemHealthView, names: Seq<Seq<char>>, n: nat) -> Map<Seq<char>, JsonView>
    decreases n,
{
    if n == 0 {
        Map::empty()
    } else {
        reports_on(h, names, (n - 1) as nat).insert(
            names[n - 1],
            endpoint_report(status_ready(h, names[n - 1])),
        )
    }
}

proof fn lemma_reports_on(h: SystemHealthView, names: Seq<Seq<char>>, n: nat)
    requires
        n <= names.len(),
    ensures
        forall|name: Seq<char>| #[trigger]
            reports_on(h, names, n).dom().contains(name) <==> exists|j: int|
                0 <= j < n && #[trigger] names[j] == name,
        forall|name: Seq<char>| #[trigger]
            reports_on(h, names, n).dom().contains(name) ==> reports_on(h, names, n)[name]
                == endpoint_report(status_ready(h, name)),
    decreases n,
{
    if n > 0 {
        lemma_reports_on(h, names, (n - 1) as nat);
        let m = reports_on(h, names, n);
        let before = reports_on(h, names, (n - 1) as nat);
        assert forall|name: Seq<char>| #[trigger] m.dom().contains(name) <==> exists|j: int|
            0 <= j < n && #[trigger] names[j] == name by {
            if m.dom().contains(name) {
                if name == names[n - 1] {
                    assert(names[n - 1] == name);
                } else {
                    assert(before.dom().contains(name));
                }
            }
            if exists|j: int| 0 <= j < n && #[trigger] names[j] == name {
                let j = choose|j: int| 0 <= j < n && #[trigger] names[j] == name;
                if j < n - 1 {
                    assert(before.dom().contains(name));
                }
            }
        }
        assert forall|name: Seq<char>| #[trigger] m.dom().contains(name) implies m[name]
            == endpoint_report(status_ready(h, name)) by {
            if name != names[n - 1] {
                assert(before.dom().contains(name));
            }
        }
    }
}

/// The report on all endpoints with a health check.
pub fn get_health_check_status(health: &SystemHealth) -> (r: Json)
    ensures
        r@ == status_report(health.deep_view()),
{
    let ghost h = health.deep_view();
    let names: Vec<String> = health.get_health_check_endpoints();
    let ghost all = names.deep_view();
    let mut statuses: Vec<JsonField> = Vec::new();
    let mut overall: bool = true;
    let mut i: usize = 0;
    while i < names.len()
        invariant
            h == health.deep_view(),
            all == names.deep_view(),
            all.len() == names@.len(),
            i <= all.len(),
            fields_map(statuses@) == reports_on(h, all, i as nat),
            overall == forall|j: int| 0 <= j < i ==> status_ready(h, #[trigger] all[j]),
        decreases all.len() - i,
    {
        assert(all[i as int] == names@[i as int]@);
        let ready: bool = match health.get_endpoint_health_status(names[i].as_str()) {
            Some(status) => status == HealthStatus::Ready,
            None => false,
        };
        let word: &str = if ready {
            "Ready"
        } else {
            "NotReady"
        };
        let report: Json = Json::empty_object().with("healthy", Json::Bool(ready)).with(
            "status",
            Json::text(word),
        );
        let field: JsonField = JsonField { key: names[i].clone(), value: report };
        proof {
            lemma_fields_push(statuses@, field);
        }
        statuses.push(field);
        if !ready {
            assert(!status_ready(h, all[i as int]));
            overall = false;
        }
        i += 1;
    }
    proof {
        lemma_reports_on(h, all, all.len());
        all.unique_seq_to_set();
        assert(all.to_set() =~= h.targets.dom()) by {
            assert forall|name: Seq<char>|
                all.to_set().contains(name) <==> #[trigger] h.targets.dom().contains(
                name,
            ) by {
                assert(all.contains(name) <==> h.targets.dom().contains(name));
            }
        }
        let m = fields_map(statuses@);
        assert forall|name: Seq<char>| #[trigger] m.dom().contains(name) <==> h.targets.dom().contains(
            name,
        ) by {
            if m.dom().contains(name) {
                let j = choose|j: int| 0 <= j < all.len() && #[trigger] all[j] == name;
                assert(all.contains(name));
            }
            if h.targets.dom().contains(name) {
                assert(all.contains(name));
                let j = choose|j: int| 0 <= j < all.len() && all[j] == name;
                assert(all[j] == name);
            }
        }
        assert(m =~= Map::new(
            |endpoint: Seq<char>| h.targets.dom().contains(endpoint),
            |endpoint: Seq<char>| endpoint_report(status_ready(h, endpoint)),
        ));
        let all_ready = forall|endpoint: Seq<char>| #[trigger]
            h.targets.dom().contains(endpoint) ==> status_ready(h, endpoint);
        if overall {
            assert forall|endpoint: Seq<char>| #[trigger]
                h.targets.dom().contains(endpoint) implies status_ready(h, endpoint) by {
                assert(all.contains(endpoint));
                let j = choose|j: int| 0 <= j < all.len() && all[j] == endpoint;
                assert(status_ready(h, all[j]));
            }
        } else {
            let j = choose|j: int| 0 <= j < all.len() && !status_ready(h, #[trigger] all[j]);
            assert(all.contains(all[j]));
            assert(h.targets.dom().contains(all[j]));
        }
    }
    let word: &str = if overall {
        "ready"
    } else {
        "notready"
    };
    Json::empty_object().with("status", Json::text(word)).with(
        "endpoints_checked",
        Json::unsigned(names.len() as u64),
    ).with("endpoint_statuses", Json::Object(statuses))
}

} // verus!
