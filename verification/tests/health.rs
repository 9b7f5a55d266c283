use edge_lb::config::{Listener, Protocol, TargetGroup};
use edge_lb::health::{
    apply_outcome, health_matches_group, http_status_is_healthy, normalize_health_state,
    HealthProbeConfig, HealthState, ProbeOutcome, TargetHealthEntry,
};

fn listeners(target_port: u16) -> Vec<Listener> {
    vec![Listener {
        name: "tcp-80".to_string(),
        port: 80,
        target_port,
        target_group: "web".to_string(),
        protocols: vec![Protocol::Tcp],
        ..Listener::default()
    }]
}

#[test]
fn health_matching_falls_back_to_listener_target_port() {
    let ls = listeners(8080);
    let group = TargetGroup {
        name: "web".to_string(),
        probe_type: None,
        probe_port: None,
        ..TargetGroup::default()
    };
    let entry = TargetHealthEntry {
        host_name: "192.0.2.10".to_string(),
        probe_type: Some("none".to_string()),
        probe_port: Some(8080),
        ..Default::default()
    };
    assert!(health_matches_group(&ls, &group, &entry));
}

#[test]
fn health_matching_keeps_explicit_probe_port() {
    let ls = listeners(8080);
    let group = TargetGroup {
        name: "web".to_string(),
        probe_type: Some("http".to_string()),
        probe_port: Some(9090),
        ..TargetGroup::default()
    };
    let entry = TargetHealthEntry {
        host_name: "192.0.2.10".to_string(),
        probe_type: Some("http".to_string()),
        probe_port: Some(9090),
        ..Default::default()
    };
    assert!(health_matches_group(&ls, &group, &entry));
}

#[test]
fn health_states_are_reduced_to_the_three_api_states() {
    assert_eq!(normalize_health_state("ok"), "ok");
    assert_eq!(normalize_health_state("active"), "ok");
    assert_eq!(normalize_health_state("nok"), "nok");
    assert_eq!(normalize_health_state("unknown"), "nok");
}

#[test]
fn http_status_rule_accepts_success_redirects_by_default() {
    assert!(http_status_is_healthy(200, None));
    assert!(http_status_is_healthy(302, None));
    assert!(!http_status_is_healthy(199, None));
    assert!(!http_status_is_healthy(400, None));
}

#[test]
fn http_status_rule_supports_exact_expected_status() {
    assert!(http_status_is_healthy(204, Some(204)));
    assert!(!http_status_is_healthy(200, Some(204)));
}

#[test]
fn health_matching_rejects_other_ports() {
    let ls = listeners(8080);
    let group = TargetGroup { name: "web".to_string(), ..TargetGroup::default() };
    let entry = TargetHealthEntry {
        host_name: "192.0.2.10".to_string(),
        probe_type: Some("none".to_string()),
        probe_port: Some(9999),
        ..Default::default()
    };
    assert!(!health_matches_group(&ls, &group, &entry));
}

#[test]
fn probing_is_off_for_none_or_blank_types() {
    let probe = |t: Option<&str>| HealthProbeConfig { probe_type: t.map(str::to_string), ..Default::default() };
    assert!(!probe(None).enabled());
    assert!(!probe(Some(" ")).enabled());
    assert!(!probe(Some("NONE")).enabled());
    assert!(probe(Some("http")).enabled());
}

#[test]
fn failures_below_the_retry_count_keep_a_target_healthy() {
    let (state, failures) = apply_outcome(HealthState::Healthy, 0, ProbeOutcome::Fail, 2);
    assert_eq!((state, failures), (HealthState::Healthy, 1));
    let (state, failures) = apply_outcome(state, failures, ProbeOutcome::Fail, 2);
    assert_eq!((state, failures), (HealthState::Unhealthy, 2));
    let (state, failures) = apply_outcome(state, failures, ProbeOutcome::Pass, 2);
    assert_eq!((state, failures), (HealthState::Healthy, 0));
}
