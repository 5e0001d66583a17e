use dynamo_llm::health_check::{
    get_health_check_status, should_keep_endpoint_ready_after_failure, CheckFailure,
    HealthCheckConfig, HealthCheckManager, HealthCheckResponses, MonitorAction, TaskAction,
    TaskEvent, DISCOVERY_TIMEOUT,
};
use dynamo_llm::json::{json_equal, Json};
use dynamo_llm::system_health::{Instance, SystemHealth};
use dynamo_llm::traffic::{
    elapsed, HealthStatus, RealTrafficHealthConfig, RealTrafficWindow, RequestOutcome,
    ThresholdFact, ThresholdQuery,
};

const SECOND: u128 = 1_000_000_000;

fn traffic_config() -> RealTrafficHealthConfig {
    RealTrafficHealthConfig { window: 60 * SECOND, min_samples: 2 }
}

fn system(endpoints: Vec<String>) -> SystemHealth {
    SystemHealth::new(
        HealthStatus::NotReady,
        endpoints,
        "/health".to_string(),
        "/live".to_string(),
        traffic_config(),
    )
}

fn instance(endpoint: &str, instance_id: u64) -> Instance {
    Instance {
        component: "test_component".to_string(),
        endpoint: endpoint.to_string(),
        namespace: "test_namespace".to_string(),
        instance_id,
        transport: 0,
    }
}

fn payload(prompt: &str) -> Json {
    Json::empty_object().with("prompt", Json::text(prompt)).with("_health_check", Json::Bool(true))
}

fn check_config() -> HealthCheckConfig {
    HealthCheckConfig {
        canary_wait_time: 5 * SECOND,
        request_timeout: 3 * SECOND,
        success_ttl: 120 * SECOND,
    }
}

fn reached(failures: usize, total: usize, reached: bool) -> ThresholdFact {
    ThresholdFact { query: ThresholdQuery { failures, total }, reached }
}

#[test]
fn test_consume_health_check_stream_requires_full_completion() {
    let mut responses = HealthCheckResponses::new();
    assert_eq!(responses.observe(None), None);
    assert_eq!(responses.observe(None), None);
    assert_eq!(responses.finish().unwrap(), 2);
}

#[test]
fn test_consume_health_check_stream_fails_if_error_arrives_after_first_chunk() {
    let mut responses = HealthCheckResponses::new();
    assert_eq!(responses.observe(None), None);
    let err = responses
        .observe(Some("late stream failure"))
        .expect("stream should fail when any later chunk is an error");
    assert!(err.contains("late stream failure"));
    assert_eq!(
        err,
        "Health check returned an error response after 2 response item(s): late stream failure"
    );
}

#[test]
fn test_consume_health_check_stream_rejects_empty_stream() {
    let err = HealthCheckResponses::new()
        .finish()
        .expect_err("empty streams should be unhealthy");
    assert!(err.contains("no response"));
}

#[test]
fn test_should_keep_endpoint_ready_after_failure_only_with_recent_success() {
    let now = 1_000 * SECOND;
    let success_ttl = 120 * SECOND;

    assert!(should_keep_endpoint_ready_after_failure(Some(now - 60 * SECOND), now, success_ttl));
    assert!(!should_keep_endpoint_ready_after_failure(Some(now - 121 * SECOND), now, success_ttl));
    assert!(!should_keep_endpoint_ready_after_failure(None, now, success_ttl));
}

#[test]
fn a_success_counts_until_its_span_is_over() {
    assert!(should_keep_endpoint_ready_after_failure(Some(10), 129, 120));
    assert!(!should_keep_endpoint_ready_after_failure(Some(10), 130, 120));
    // A success that lies ahead is as recent as can be.
    assert!(should_keep_endpoint_ready_after_failure(Some(50), 10, 1));
    assert_eq!(elapsed(10, 50), 0);
    assert_eq!(elapsed(50, 10), 40);
}

#[test]
fn test_initialization() {
    let manager = HealthCheckManager::new(check_config());
    assert_eq!(manager.config().canary_wait_time, 5 * SECOND);
    assert_eq!(manager.config().request_timeout, 3 * SECOND);
}

#[test]
fn test_payload_registration() {
    let mut health = system(vec![]);
    let endpoint = "test.endpoint";
    health.register_health_check_target(endpoint, instance("test_endpoint", 12345), payload("test"));

    let retrieved = health.get_health_check_target(endpoint).map(|t| t.payload);
    assert!(retrieved.is_some());
    assert!(json_equal(&retrieved.unwrap(), &payload("test")));

    let endpoints = health.get_health_check_endpoints();
    assert!(endpoints.contains(&endpoint.to_string()));
}

#[test]
fn test_spawn_per_endpoint_tasks() {
    let mut health = system(vec![]);
    for i in 0..3u64 {
        let endpoint = format!("test.endpoint.{}", i);
        health.register_health_check_target(
            &endpoint,
            instance(&format!("test_endpoint_{}", i), i),
            payload(&format!("test{}", i)),
        );
    }

    let mut manager = HealthCheckManager::new(HealthCheckConfig {
        canary_wait_time: 5 * SECOND,
        request_timeout: SECOND,
        success_ttl: 120 * SECOND,
    });
    let mut handle = 0u64;
    for (endpoint, _) in health.get_health_check_targets() {
        manager.task_started(&endpoint, handle);
        handle += 1;
    }

    let endpoints = manager.watched_endpoints();
    assert_eq!(endpoints.len(), 3);
    assert!(endpoints.contains(&"test.endpoint.0".to_string()));
    assert!(endpoints.contains(&"test.endpoint.1".to_string()));
    assert!(endpoints.contains(&"test.endpoint.2".to_string()));
}

#[test]
fn test_endpoint_health_check_notifier_created() {
    let mut health = system(vec![]);
    let endpoint = "test.endpoint.notifier";
    let registered = health.register_health_check_target(
        endpoint,
        instance("test_endpoint_notifier", 999),
        payload("test"),
    );
    assert!(registered, "a new endpoint is announced");

    let status = health.get_endpoint_health_status(endpoint);
    assert_eq!(status, Some(HealthStatus::NotReady));
}

#[test]
fn the_first_registration_counts() {
    let mut health = system(vec![]);
    assert!(!health.has_health_check_targets());
    assert!(health.register_health_check_target("e", instance("e", 1), payload("first")));
    health.set_endpoint_health_status("e", HealthStatus::Ready);
    assert!(!health.register_health_check_target("e", instance("e", 2), payload("second")));
    let target = health.get_health_check_target("e").unwrap();
    assert_eq!(target.instance.instance_id, 1);
    assert!(json_equal(&target.payload, &payload("first")));
    assert_eq!(health.get_endpoint_health_status("e"), Some(HealthStatus::Ready));
    assert!(health.get_health_check_target("other").is_none());
    assert!(health.has_health_check_targets());
    assert_eq!(health.health_path(), "/health");
    assert_eq!(health.live_path(), "/live");
    assert_eq!(health.real_traffic_window(), 60 * SECOND);
}

#[test]
fn failures_count_once_there_are_enough_samples() {
    let mut health = system(vec!["e".to_string()]);
    // One sample is too few to judge by.
    assert_eq!(health.record_endpoint_request_result("e", false, 0, &vec![]), Ok(()));
    // Two failures of two: whether that is too much is asked.
    assert_eq!(
        health.record_endpoint_request_result("e", false, SECOND, &vec![]),
        Err(ThresholdQuery { failures: 2, total: 2 })
    );
    let facts = vec![reached(2, 2, true), reached(1, 1, true), reached(2, 3, false)];
    assert_eq!(health.record_endpoint_request_result("e", false, SECOND, &facts), Ok(()));
    assert_eq!(
        health.get_endpoint_real_traffic_health_status("e", SECOND, &facts),
        Ok(Some(HealthStatus::NotReady))
    );
    // An overload does not count.
    assert_eq!(health.record_endpoint_request_overload("e", SECOND, &facts), Ok(()));
    assert_eq!(
        health.get_endpoint_real_traffic_health_status("e", SECOND, &facts),
        Ok(Some(HealthStatus::NotReady))
    );
    assert!(!health.has_recent_endpoint_success("e", SECOND, SECOND));
    assert_eq!(health.record_endpoint_request_result("e", true, SECOND, &facts), Ok(()));
    assert!(health.has_recent_endpoint_success("e", SECOND, SECOND));
    assert_eq!(
        health.get_endpoint_real_traffic_health_status("e", SECOND, &facts),
        Ok(Some(HealthStatus::Ready))
    );
    // After the window nothing is left to judge by.
    assert_eq!(
        health.get_endpoint_real_traffic_health_status("e", 200 * SECOND, &vec![]),
        Ok(Some(HealthStatus::Ready))
    );
    assert_eq!(
        health.get_endpoint_real_traffic_health_status("unknown", 0, &vec![]),
        Ok(None)
    );
}

#[test]
fn a_window_forgets_what_is_old() {
    let config = traffic_config();
    let mut window = RealTrafficWindow::new();
    assert_eq!(window.status, HealthStatus::Ready);
    assert_eq!(window.record(0, RequestOutcome::Failure, config, &vec![]), Ok(()));
    assert_eq!(window.record(10 * SECOND, RequestOutcome::Overloaded, config, &vec![]), Ok(()));
    assert_eq!(window.sample_counts(), (1, 1));
    window.prune(60 * SECOND, 60 * SECOND);
    assert_eq!(window.events.len(), 2);
    window.prune(60 * SECOND + 1, 60 * SECOND);
    assert_eq!(window.events.len(), 1);
    assert_eq!(window.sample_counts(), (0, 0));
    assert!(!window.has_success_within(61 * SECOND, 60 * SECOND));
    assert!(RequestOutcome::Failure.is_failure());
    assert!(!RequestOutcome::Overloaded.is_eligible_for_failure_ratio());
}

#[test]
fn overall_health_follows_the_endpoints_that_count() {
    // Nothing registered: the status of the system.
    let mut plain = system(vec![]);
    assert!(!plain.get_health_status(0, &vec![]).unwrap().0);
    plain.set_health_status(HealthStatus::Ready);
    assert!(plain.get_health_status(0, &vec![]).unwrap().0);

    // Registered targets decide.
    plain.register_health_check_target("e", instance("e", 1), payload("p"));
    let (healthy, endpoints) = plain.get_health_status(0, &vec![]).unwrap();
    assert!(!healthy);
    assert_eq!(endpoints.get("e").map(|s| s.as_str()), Some("notready"));
    plain.set_endpoint_health_status("e", HealthStatus::Ready);
    let (healthy, endpoints) = plain.get_health_status(0, &vec![]).unwrap();
    assert!(healthy);
    assert_eq!(endpoints.get("e").map(|s| s.as_str()), Some("ready"));

    // Without targets, endpoints that are named decide.
    let mut named = system(vec!["a".to_string(), "b".to_string()]);
    named.set_endpoint_health_status("a", HealthStatus::Ready);
    assert!(!named.get_health_status(0, &vec![]).unwrap().0);
    named.set_endpoint_health_status("b", HealthStatus::Ready);
    assert!(named.get_health_status(0, &vec![]).unwrap().0);

    // Too many failures make an endpoint that is ready count as not ready.
    let facts = vec![reached(2, 2, true)];
    assert_eq!(named.record_endpoint_request_result("b", false, 0, &facts), Ok(()));
    assert_eq!(named.record_endpoint_request_result("b", false, 0, &facts), Ok(()));
    assert!(matches!(
        named.get_health_status(0, &vec![]),
        Err(ThresholdQuery { failures: 2, total: 2 })
    ));
    let (healthy, endpoints) = named.get_health_status(0, &facts).unwrap();
    assert!(!healthy);
    assert_eq!(endpoints.get("a").map(|s| s.as_str()), Some("ready"));
    assert_eq!(endpoints.get("b").map(|s| s.as_str()), Some("notready"));

    // A registered target decides, whether or not it is named.
    let mut both = system(vec!["a".to_string()]);
    both.set_endpoint_health_status("a", HealthStatus::Ready);
    assert!(both.get_health_status(0, &vec![]).unwrap().0);
    both.register_health_check_target("e", instance("e", 1), payload("p"));
    assert!(!both.get_health_status(0, &vec![]).unwrap().0);
    both.set_endpoint_health_status("e", HealthStatus::Ready);
    assert!(both.get_health_status(0, &vec![]).unwrap().0);
    both.set_endpoint_health_status("a", HealthStatus::NotReady);
    assert!(both.get_health_status(0, &vec![]).unwrap().0);
}

#[test]
fn checks_change_what_is_reported() {
    let mut health = system(vec![]);
    let mut manager = HealthCheckManager::new(check_config());
    health.register_health_check_target("e", instance("e", 7), payload("p"));

    assert_eq!(manager.begin_health_check_request("e", &health).unwrap().instance.instance_id, 7);
    let missing = manager.begin_health_check_request("unknown", &health);
    assert!(missing.is_err());

    let start = 1_000 * SECOND;
    assert!(manager.finish_health_check_request("e", Ok(2), start, &mut health).is_ok());
    assert_eq!(health.get_endpoint_health_status("e"), Some(HealthStatus::Ready));
    assert_eq!(manager.last_success("e"), Some(start));
    assert_eq!(manager.last_success("unknown"), None);

    // A failure soon after a success does not count.
    let soon = start + 60 * SECOND;
    let failed = manager.finish_health_check_request(
        "e",
        Err(CheckFailure::DiscoveryTimeout),
        soon,
        &mut health,
    );
    assert_eq!(
        failed,
        Err("Timeout waiting for instance discovery for e during health check".to_string())
    );
    assert_eq!(health.get_endpoint_health_status("e"), Some(HealthStatus::Ready));

    // Later it does.
    let later = start + 121 * SECOND;
    let failed = manager.finish_health_check_request(
        "e",
        Err(CheckFailure::RequestTimeout("3s".to_string())),
        later,
        &mut health,
    );
    assert_eq!(failed, Err("Health check timed out for e after 3s".to_string()));
    assert_eq!(health.get_endpoint_health_status("e"), Some(HealthStatus::NotReady));
}

#[test]
fn every_failure_has_its_text() {
    assert_eq!(CheckFailure::Router("r".to_string()).text("e"), "r");
    assert_eq!(
        CheckFailure::Discovery("d".to_string()).text("e"),
        "Failed to discover instances for e during health check: d"
    );
    assert_eq!(
        CheckFailure::Request("q".to_string()).text("e"),
        "Health check request failed for e: q"
    );
    assert_eq!(CheckFailure::Responses("s".to_string()).text("e"), "s");
    assert_eq!(DISCOVERY_TIMEOUT, 10 * SECOND);
}

#[test]
fn an_idle_endpoint_is_probed() {
    let mut health = system(vec![]);
    let mut manager = HealthCheckManager::new(check_config());
    health.register_health_check_target("e", instance("e", 7), payload("p"));
    let now = 1_000 * SECOND;
    assert!(matches!(
        manager.next_task_action("e", TaskEvent::TimerExpired, now, &health),
        TaskAction::Probe(_)
    ));
    assert_eq!(
        manager.next_task_action("unknown", TaskEvent::TimerExpired, now, &health),
        TaskAction::Stop
    );
    // Activity calls for a probe only where no success is recent.
    assert!(manager.should_probe_on_activity("e", now));
    manager.mark_endpoint_ready("e", now, &mut health);
    assert!(!manager.should_probe_on_activity("e", now + SECOND));
    assert_eq!(
        manager.next_task_action("e", TaskEvent::Activity, now + SECOND, &health),
        TaskAction::Wait
    );
    assert!(manager.mark_endpoint_not_ready_if_stale("e", now + SECOND, &mut health));
    assert!(!manager.mark_endpoint_not_ready_if_stale("e", now + 200 * SECOND, &mut health));

    assert_eq!(manager.on_endpoint_registered("e"), MonitorAction::Spawn);
    manager.task_started("e", 1);
    assert_eq!(manager.on_endpoint_registered("e"), MonitorAction::Stop);
}

#[test]
fn the_status_report_lists_every_endpoint() {
    let mut health = system(vec![]);
    health.register_health_check_target("a", instance("a", 1), payload("p"));
    health.register_health_check_target("b", instance("b", 2), payload("p"));
    health.set_endpoint_health_status("a", HealthStatus::Ready);
    let report = get_health_check_status(&health);
    let expected = Json::parse(
        r#"{"status":"notready","endpoints_checked":2,"endpoint_statuses":{
            "a":{"healthy":true,"status":"Ready"},
            "b":{"healthy":false,"status":"NotReady"}}}"#,
    )
    .unwrap();
    assert!(json_equal(&report, &expected), "{}", report.to_text());

    health.set_endpoint_health_status("b", HealthStatus::Ready);
    let report = get_health_check_status(&health);
    assert_eq!(report.get("status").and_then(|s| s.as_str()), Some("ready"));
}
