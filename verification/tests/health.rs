use a3s_dev::config::HealthKind;
use a3s_dev::health::{
    outcome_of_response, probe_path, probe_request, probe_succeeded, HealthMonitor, HealthState,
    HealthTransition, ProbeOutcome,
};

#[test]
fn unhealthy_after_exactly_three_failures_healthy_after_one_success() {
    let mut m = HealthMonitor::new(3);
    m.start();
    assert_eq!(m.state, HealthState::Probing);
    assert_eq!(m.observe(HealthKind::Http, ProbeOutcome::Status(500)), None);
    assert_eq!(m.state, HealthState::Probing);
    assert_eq!(m.observe(HealthKind::Http, ProbeOutcome::TimedOut), None);
    assert_eq!(m.state, HealthState::Probing);
    assert_eq!(m.failures, 2);
    assert_eq!(
        m.observe(HealthKind::Http, ProbeOutcome::Refused),
        Some(HealthTransition::BecameUnhealthy)
    );
    assert_eq!(m.state, HealthState::Unhealthy);
    assert_eq!(m.failures, 3);
    assert_eq!(m.observe(HealthKind::Http, ProbeOutcome::Status(503)), None);
    assert_eq!(m.state, HealthState::Unhealthy);
    assert_eq!(
        m.observe(HealthKind::Http, ProbeOutcome::Status(200)),
        Some(HealthTransition::BecameHealthy)
    );
    assert_eq!(m.state, HealthState::Healthy);
    assert_eq!(m.failures, 0);
}

#[test]
fn success_between_failures_clears_the_count() {
    let mut m = HealthMonitor::new(3);
    m.start();
    assert_eq!(m.record(false), None);
    assert_eq!(m.record(false), None);
    assert_eq!(m.record(true), Some(HealthTransition::BecameHealthy));
    assert_eq!(m.record(false), None);
    assert_eq!(m.record(false), None);
    assert_eq!(m.state, HealthState::Healthy);
    assert_eq!(m.record(false), Some(HealthTransition::BecameUnhealthy));
}

#[test]
fn healthy_service_stays_healthy_on_success() {
    let mut m = HealthMonitor::new(2);
    m.start();
    assert_eq!(m.record(true), Some(HealthTransition::BecameHealthy));
    assert_eq!(m.record(true), None);
    assert_eq!(m.state, HealthState::Healthy);
}

#[test]
fn probes_of_an_unmonitored_service_are_not_counted() {
    let mut m = HealthMonitor::new(1);
    assert_eq!(m.record(false), None);
    assert_eq!(m.record(false), None);
    assert_eq!(m.state, HealthState::Unknown);
    assert_eq!(m.failures, 0);
    m.start();
    assert_eq!(m.record(false), Some(HealthTransition::BecameUnhealthy));
    m.stop();
    assert_eq!(m.state, HealthState::Unknown);
    assert_eq!(m.failures, 0);
    assert_eq!(m.record(true), None);
    assert_eq!(m.state, HealthState::Unknown);
}

#[test]
fn threshold_of_zero_fails_at_the_first_failure() {
    let mut m = HealthMonitor::new(0);
    m.start();
    assert_eq!(m.record(false), Some(HealthTransition::BecameUnhealthy));
}

#[test]
fn failure_count_stops_at_its_limit() {
    let mut m = HealthMonitor { state: HealthState::Unhealthy, failures: u32::MAX, retries: 3 };
    assert_eq!(m.record(false), None);
    assert_eq!(m.failures, u32::MAX);
}

#[test]
fn http_probe_succeeds_on_a_status_that_is_no_error() {
    assert!(probe_succeeded(HealthKind::Http, ProbeOutcome::Status(200)));
    assert!(probe_succeeded(HealthKind::Http, ProbeOutcome::Status(302)));
    assert!(probe_succeeded(HealthKind::Http, ProbeOutcome::Status(399)));
    assert!(!probe_succeeded(HealthKind::Http, ProbeOutcome::Status(400)));
    assert!(!probe_succeeded(HealthKind::Http, ProbeOutcome::Status(500)));
    assert!(!probe_succeeded(HealthKind::Http, ProbeOutcome::TimedOut));
    assert!(!probe_succeeded(HealthKind::Http, ProbeOutcome::Refused));
    assert!(!probe_succeeded(HealthKind::Http, ProbeOutcome::Connected));
}

#[test]
fn tcp_probe_succeeds_on_a_connection() {
    assert!(probe_succeeded(HealthKind::Tcp, ProbeOutcome::Connected));
    assert!(probe_succeeded(HealthKind::Tcp, ProbeOutcome::Status(500)));
    assert!(!probe_succeeded(HealthKind::Tcp, ProbeOutcome::TimedOut));
    assert!(!probe_succeeded(HealthKind::Tcp, ProbeOutcome::Refused));
}

#[test]
fn response_line_gives_the_status() {
    assert_eq!(outcome_of_response("HTTP/1.1 200 OK\r\n"), ProbeOutcome::Status(200));
    assert_eq!(outcome_of_response("HTTP/1.0 503 Service Unavailable"), ProbeOutcome::Status(503));
    assert_eq!(outcome_of_response("HTTP/1.1 65535"), ProbeOutcome::Status(65535));
    assert_eq!(outcome_of_response("HTTP/1.1 65536 Big"), ProbeOutcome::Connected);
    assert_eq!(outcome_of_response("HTTP/1.1 abc"), ProbeOutcome::Connected);
    assert_eq!(outcome_of_response("HTTP/1.1"), ProbeOutcome::Connected);
    assert_eq!(outcome_of_response(""), ProbeOutcome::Connected);
}

#[test]
fn probe_asks_for_the_configured_path_or_the_root() {
    assert_eq!(probe_path(Some("/health")), "/health");
    assert_eq!(probe_path(None), "/");
    assert_eq!(probe_request("/health"), "GET /health HTTP/1.0\r\nHost: localhost\r\n\r\n");
}
