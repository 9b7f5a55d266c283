use edge_lb::config::{BackendTarget, LbMode, LbSelect, Listener, Protocol, TargetGroup};
use edge_lb::group_views::{target_group_views, target_state_of};
use edge_lb::health::TargetHealthEntry;

fn listener(group: &str, target_port: u16) -> Listener {
    Listener {
        name: "web".to_string(),
        port: 80,
        target_port,
        target_group: group.to_string(),
        vip_ips: Vec::new(),
        protocols: vec![Protocol::Tcp],
        select: LbSelect::Rr,
        mode: LbMode::Default,
        inactive_timeout: None,
    }
}

fn group(name: &str, n: usize) -> TargetGroup {
    TargetGroup {
        name: name.to_string(),
        probe_type: Some("tcp".to_string()),
        targets: (0..n).map(|i| BackendTarget { backend: None, address: format!("10.0.0.{}", i + 1), weight: 1 }).collect(),
        ..TargetGroup::default()
    }
}

fn record(host: &str, port: u16, state: Option<&str>) -> TargetHealthEntry {
    TargetHealthEntry {
        host_name: host.to_string(),
        name: format!("{host}_tcp_{port}"),
        probe_type: Some("TCP".to_string()),
        probe_port: Some(port),
        current_state: state.map(|s| s.to_string()),
        ..TargetHealthEntry::default()
    }
}

#[test]
fn group_health_needs_every_backend_ok() {
    let listeners = vec![listener("pool", 8080)];
    let health = vec![record("10.0.0.1", 8080, Some("Active")), record("10.0.0.2", 8080, Some("down")), record("10.0.0.2", 9000, Some("ok"))];
    let groups = vec![group("pool", 2), group("idle", 1), group("empty", 0)];
    let resolved = vec![
        vec!["10.0.0.1".to_string(), "10.0.0.2".to_string()],
        vec!["10.0.0.1".to_string()],
        Vec::new(),
    ];
    let views = target_group_views(groups, &listeners, &health, &resolved);
    assert_eq!(views[0].target_health, vec!["ok", "nok"]);
    assert_eq!(views[0].health, "nok");
    assert_eq!(views[1].target_health, vec!["unassociated"]);
    assert_eq!(views[1].health, "unassociated");
    assert_eq!(views[2].health, "unassociated");
    assert_eq!(views[0].group.name, "pool");
}

#[test]
fn backend_without_matching_record_is_nok() {
    let listeners = vec![listener("pool", 8080), listener("empty", 80)];
    let health = vec![record("10.0.0.1", 8080, None)];
    assert_eq!(target_state_of(&listeners, &group("pool", 1), &health, "10.0.0.1"), "nok");
    assert_eq!(target_state_of(&listeners, &group("pool", 1), &health, "10.0.0.9"), "nok");
    let all_ok = vec![record("10.0.0.1", 8080, Some("up"))];
    let views = target_group_views(vec![group("pool", 1), group("empty", 0)], &listeners, &all_ok, &vec![vec!["10.0.0.1".to_string()], Vec::new()]);
    assert_eq!(views[0].health, "ok");
    assert_eq!(views[1].health, "nok");
}
