use edge_lb::config::{BackendTarget, Listener, Protocol, TargetGroup};
use edge_lb::health::{ProbeOutcome, TargetHealthEntry};
use edge_lb::probe_schedule::{apply_health_updates, health_updates, scheduled_targets, target_health_identity, HealthUpdate};
use edge_lb::registry::NameMap;
use edge_lb::route_msg::IpAddress;

fn v4(text: &str) -> u32 {
    edge_lb::ipnet::parse_ipv4(text).unwrap()
}

struct Cfg {
    listeners: Vec<Listener>,
    groups: Vec<TargetGroup>,
    resolved: Vec<Vec<IpAddress>>,
}

fn cfg_with_group(monitor: bool, probe_type: Option<&str>) -> Cfg {
    let group = TargetGroup {
        name: "web".to_string(),
        monitor,
        probe_type: probe_type.map(str::to_string),
        probe_port: None,
        probe_req: None,
        probe_resp: None,
        probe_status: None,
        probe_skip_tls_verify: false,
        period_secs: Some(5),
        retries: Some(2),
        targets: vec![BackendTarget { backend: None, address: "192.0.2.10".to_string(), weight: 1 }],
    };
    let listener = Listener {
        name: "web".to_string(),
        port: 80,
        target_port: 8080,
        target_group: "web".to_string(),
        protocols: vec![Protocol::Tcp],
        ..Listener::default()
    };
    Cfg { listeners: vec![listener], groups: vec![group], resolved: vec![vec![IpAddress::V4(v4("192.0.2.10"))]] }
}

fn schedule(cfg: &Cfg) -> Vec<edge_lb::probe_schedule::ProbeTarget> {
    scheduled_targets(&cfg.listeners, &cfg.groups, &cfg.resolved)
}

#[test]
fn unsupported_probe_types_are_not_scheduled() {
    for probe in ["none", ""] {
        let cfg = cfg_with_group(true, if probe.is_empty() { None } else { Some(probe) });
        assert!(schedule(&cfg).is_empty(), "probe {probe:?}");
    }
}

#[test]
fn ping_probe_is_scheduled_without_a_port() {
    let cfg = cfg_with_group(true, Some("ping"));
    let targets = schedule(&cfg);
    assert_eq!(targets.len(), 1);
    assert_eq!(targets[0].port, 0);
    assert_eq!(targets[0].probe_type, "ping");
}

#[test]
fn unmonitored_groups_are_not_scheduled() {
    let cfg = cfg_with_group(false, Some("tcp"));
    assert!(schedule(&cfg).is_empty());
}

#[test]
fn executable_target_uses_listener_protocol_identity() {
    let cfg = cfg_with_group(true, Some("http"));
    let targets = schedule(&cfg);
    assert_eq!(targets.len(), 1);
    let target = &targets[0];
    assert_eq!(target.probe_type, "http");
    assert_eq!(target.port, 8080, "probe port falls back to service port");
    assert_eq!(target.retries, 2);
    assert_eq!(target.period_secs, 5);
    assert_eq!(target.timeout_ms, 3000);
    assert_eq!(target.names, vec![target_health_identity(v4("192.0.2.10"), "tcp", 8080)]);
}

#[test]
fn probe_port_does_not_change_listener_target_identity() {
    let mut cfg = cfg_with_group(true, Some("http"));
    cfg.groups[0].probe_port = Some(9090);
    let targets = schedule(&cfg);
    assert_eq!(targets[0].port, 9090);
    assert_eq!(targets[0].names, vec![target_health_identity(v4("192.0.2.10"), "tcp", 8080)]);
}

#[test]
fn multiple_listener_protocols_expand_to_one_name_each() {
    let mut cfg = cfg_with_group(true, Some("tcp"));
    cfg.listeners[0].protocols = vec![Protocol::Tcp, Protocol::Udp];
    let targets = schedule(&cfg);
    assert_eq!(targets.len(), 1);
    assert_eq!(targets[0].names.len(), 2);
    assert_eq!(targets[0].names[1], "192.0.2.10_udp_8080");
}

#[test]
fn unresolvable_auto_addresses_are_skipped() {
    let mut cfg = cfg_with_group(true, Some("tcp"));
    cfg.resolved[0][0] = IpAddress::V4(0);
    assert!(schedule(&cfg).is_empty());
    cfg.resolved[0][0] = IpAddress::V4(v4("127.0.0.1"));
    assert!(schedule(&cfg).is_empty());
}

#[test]
fn target_health_identity_matches_store_convention() {
    assert_eq!(target_health_identity(v4("192.0.2.10"), "TCP", 8080), "192.0.2.10_tcp_8080");
    assert_eq!(target_health_identity(v4("192.0.2.10"), " udp ", 53), "192.0.2.10_udp_53");
}

#[test]
fn probe_settings_follow_the_group() {
    let mut cfg = cfg_with_group(true, Some(" HTTPS "));
    cfg.groups[0].period_secs = Some(0);
    cfg.groups[0].retries = Some(0);
    cfg.groups[0].probe_req = Some("/health".to_string());
    cfg.listeners.push(Listener {
        name: "alt".to_string(),
        port: 81,
        target_port: 7070,
        target_group: "web".to_string(),
        protocols: vec![Protocol::Udp, Protocol::Tcp],
        ..Listener::default()
    });
    let targets = schedule(&cfg);
    let t = &targets[0];
    assert_eq!(t.probe_type, "https");
    assert_eq!(t.period_secs, 1);
    assert_eq!(t.timeout_ms, 1000);
    assert_eq!(t.retries, 1);
    assert_eq!(t.port, 8080);
    assert_eq!(t.probe_req.as_deref(), Some("/health"));
    assert_eq!(
        t.names,
        vec!["192.0.2.10_tcp_7070", "192.0.2.10_tcp_8080", "192.0.2.10_udp_7070"]
    );
}

fn entry(name: &str, state: Option<&str>, retries: Option<u32>) -> TargetHealthEntry {
    TargetHealthEntry {
        name: name.to_string(),
        current_state: state.map(str::to_string),
        inactive_retries: retries,
        ..TargetHealthEntry::default()
    }
}

#[test]
fn failures_turn_a_record_down_only_at_the_retry_threshold() {
    let cfg = cfg_with_group(true, Some("tcp"));
    let targets = schedule(&cfg);
    let mut counters = NameMap::new();
    let mut entries = vec![entry("192.0.2.10_tcp_8080", Some("ok"), None), entry("other", None, None)];

    let ups = health_updates(&targets, &vec![ProbeOutcome::Fail], &mut counters);
    assert_eq!(ups, vec![HealthUpdate { name: "192.0.2.10_tcp_8080".to_string(), healthy: false, failures: 1 }]);
    assert_eq!(apply_health_updates(&mut entries, &ups), 0);
    assert_eq!(entries[0].current_state.as_deref(), Some("ok"));

    let ups = health_updates(&targets, &vec![ProbeOutcome::Fail], &mut counters);
    assert_eq!(ups[0].failures, 2);
    assert_eq!(apply_health_updates(&mut entries, &ups), 1);
    assert_eq!(entries[0].current_state.as_deref(), Some("nok"));

    let ups = health_updates(&targets, &vec![ProbeOutcome::Pass], &mut counters);
    assert_eq!(ups[0].failures, 0);
    assert_eq!(apply_health_updates(&mut entries, &ups), 1);
    assert_eq!(entries[0].current_state.as_deref(), Some("ok"));
    assert_eq!(entries[1].current_state, None);
    // Updates for unknown records and repeated states change nothing.
    let stray = vec![HealthUpdate { name: "missing".to_string(), healthy: true, failures: 0 }];
    assert_eq!(apply_health_updates(&mut entries, &stray), 0);
    assert_eq!(apply_health_updates(&mut entries, &ups), 0);
}
