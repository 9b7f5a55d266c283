use edge_lb::native_store::StateDirty;
use edge_lb::state_change::{same_state, save_if_changed};
use edge_lb::config::{BackendTarget, LbMode, LbSelect, Listener, Protocol, TargetGroup};
use edge_lb::health::HealthProbeConfig;
use edge_lb::native_state::{
    create_or_update_listener, create_runtime_rule_state, get_runtime_rules, is_generated_listener_name,
    listener_entries, listener_protocols, replace_runtime_rule_state_by_name, runtime_rules_native,
    same_listener_identity, target_group_probe, target_health_key, StoreError,
};
use edge_lb::native_store::{NativeProxyState, RuntimeRuleSpec, RuntimeRuleStateEntry, RuntimeRuleTarget};

fn entry(name: Option<&str>, vips: &[&str], port: u16, protocols: &[&str], targets: &[(&str, u16)]) -> RuntimeRuleStateEntry {
    RuntimeRuleStateEntry {
        spec: RuntimeRuleSpec {
            vip_ips: vips.iter().map(|v| v.to_string()).collect(),
            port,
            protocol: protocols.first().map(|p| p.to_string()).unwrap_or_else(|| "tcp".to_string()),
            name: name.map(|n| n.to_string()),
            ..RuntimeRuleSpec::default()
        },
        targets: targets
            .iter()
            .map(|(a, p)| RuntimeRuleTarget { address: a.to_string(), target_port: *p, weight: 0, state: None, counter: None })
            .collect(),
        protocols: protocols.iter().map(|p| p.to_string()).collect(),
    }
}

#[test]
fn health_keys_trim_and_lower_case() {
    assert_eq!(target_health_key(" 10.0.0.5 ", " TCP ", 8080), "10.0.0.5_tcp_8080");
    let e = entry(None, &[], 80, &["TCP", "Udp"], &[]);
    assert_eq!(listener_protocols(&e), vec!["tcp", "udp"]);
}

#[test]
fn generated_names_are_recognized() {
    assert!(is_generated_listener_name(None, 80));
    assert!(is_generated_listener_name(Some(" tcp-udp-443 "), 443));
    assert!(is_generated_listener_name(Some("auto-udp-53"), 53));
    assert!(!is_generated_listener_name(Some("tcp-443"), 80));
    assert!(!is_generated_listener_name(Some("web"), 80));
}

#[test]
fn storing_normalizes_and_writes_default_health_records() {
    let mut state = NativeProxyState::default();
    let e = entry(Some("web"), &[], 80, &["TCP", "tcp", "udp"], &[("10.0.0.5", 8080)]);
    create_runtime_rule_state(&mut state, &e, None, &vec![" 192.0.2.1 ".to_string()]);
    assert_eq!(state.listeners.len(), 1);
    let stored = &state.listeners[0];
    assert_eq!(stored.spec.vip_ips, vec!["192.0.2.1"]);
    assert_eq!(stored.protocols, vec!["tcp", "udp"]);
    assert_eq!(stored.spec.protocol, "tcp");
    assert_eq!(stored.spec.inactive_timeout, 240);
    assert_eq!(stored.targets[0].weight, 1);
    assert_eq!(stored.targets[0].state.as_deref(), Some("active"));
    assert_eq!(stored.targets[0].counter.as_deref(), Some("0:0"));
    assert_eq!(state.target_health.len(), 2);
    assert_eq!(state.target_health[0].name, "10.0.0.5_tcp_8080");
    assert_eq!(state.target_health[0].current_state.as_deref(), Some("ok"));
    assert_eq!(state.target_health[0].probe_type.as_deref(), Some("none"));
    assert_eq!(state.target_health[1].name, "10.0.0.5_udp_8080");
}

#[test]
fn storing_again_keeps_one_listener_and_observed_health() {
    let mut state = NativeProxyState::default();
    let e = entry(Some("web"), &["192.0.2.1"], 80, &["tcp"], &[("10.0.0.5", 8080)]);
    create_runtime_rule_state(&mut state, &e, None, &Vec::new());
    state.target_health[0].current_state = Some("nok".to_string());
    let before = state.clone();
    create_runtime_rule_state(&mut state, &e, None, &Vec::new());
    assert_eq!(state, before);
}

#[test]
fn probed_listener_is_monitored_with_unknown_health() {
    let mut state = NativeProxyState::default();
    let probe = HealthProbeConfig { probe_type: Some("HTTP".to_string()), probe_port: Some(9000), ..HealthProbeConfig::default() };
    let e = entry(Some("web"), &["192.0.2.1"], 80, &["tcp"], &[("10.0.0.5", 8080)]);
    create_runtime_rule_state(&mut state, &e, Some(&probe), &Vec::new());
    assert!(state.listeners[0].spec.monitor);
    assert_eq!(state.target_health[0].probe_type.as_deref(), Some("http"));
    assert_eq!(state.target_health[0].probe_port, Some(9000));
    assert_eq!(state.target_health[0].current_state.as_deref(), Some("unknown"));
    let off = HealthProbeConfig { probe_type: Some("none".to_string()), ..HealthProbeConfig::default() };
    let mut other = NativeProxyState::default();
    create_runtime_rule_state(&mut other, &e, Some(&off), &Vec::new());
    assert!(!other.listeners[0].spec.monitor);
}

#[test]
fn same_identity_needs_shared_address_port_and_name() {
    let a = entry(Some("web"), &["192.0.2.1", "192.0.2.2"], 80, &["tcp"], &[]);
    let b = entry(Some(" web "), &["192.0.2.2"], 80, &["udp"], &[]);
    let c = entry(Some("api"), &["192.0.2.2"], 80, &["udp"], &[]);
    let d = entry(None, &["192.0.2.2"], 80, &["udp"], &[]);
    let g = entry(Some("tcp-80"), &["192.0.2.2"], 80, &["tcp"], &[]);
    assert!(same_listener_identity(&a, &b));
    assert!(!same_listener_identity(&a, &c));
    assert!(same_listener_identity(&d, &g));
    assert!(!same_listener_identity(&a, &entry(Some("web"), &["192.0.2.9"], 80, &["tcp"], &[])));
}

#[test]
fn listing_merges_listeners_of_one_identity() {
    let state = NativeProxyState {
        listeners: vec![
            entry(None, &["192.0.2.1"], 443, &["tcp"], &[("10.0.0.5", 8443)]),
            entry(Some("udp-443"), &["192.0.2.1", "192.0.2.2"], 443, &["UDP"], &[("10.0.0.6", 8443)]),
            entry(Some("dns"), &["192.0.2.1"], 53, &["udp"], &[]),
        ],
        target_health: Vec::new(),
    };
    let merged = runtime_rules_native(&state).rules;
    assert_eq!(merged.len(), 2);
    assert_eq!(merged[0].spec.vip_ips, vec!["192.0.2.1", "192.0.2.2"]);
    assert_eq!(merged[0].protocols, vec!["tcp", "udp"]);
    assert_eq!(merged[0].spec.name.as_deref(), Some("tcp-udp-443"));
    assert_eq!(merged[0].targets[0].address, "10.0.0.5");
    let listed = get_runtime_rules(&state);
    assert_eq!(listed.len(), 2);
    assert_eq!(listed[0].vip_ip, "192.0.2.1");
    assert_eq!(listed[0].backend_ip, "10.0.0.5");
    assert_eq!(listed[0].inactive_timeout, None);
    assert_eq!(listed[1].name.as_deref(), Some("dns"));
    assert_eq!(listed[1].backend_ip, "");
}

fn listener(target_port: u16, protocols: Vec<Protocol>) -> Listener {
    Listener {
        name: "web".to_string(),
        port: 80,
        target_port,
        target_group: "pool".to_string(),
        vip_ips: Vec::new(),
        protocols,
        select: LbSelect::Hash,
        mode: LbMode::Default,
        inactive_timeout: None,
    }
}

fn group() -> TargetGroup {
    TargetGroup {
        name: "pool".to_string(),
        monitor: true,
        probe_type: Some("tcp".to_string()),
        targets: vec![BackendTarget { backend: Some("b1".to_string()), address: "b1".to_string(), weight: 3 }],
        ..TargetGroup::default()
    }
}

#[test]
fn listener_entries_carry_group_probe_and_listener_port() {
    let v = listener_entries(&listener(8080, vec![Protocol::Tcp, Protocol::Udp]), &group(), &vec!["10.0.0.7".to_string()]).unwrap();
    assert_eq!(v.len(), 1);
    assert_eq!(v[0].spec.sel, 1);
    assert_eq!(v[0].spec.inactive_timeout, 240);
    assert_eq!(v[0].protocols, vec!["tcp", "udp"]);
    assert_eq!(v[0].targets[0].address, "10.0.0.7");
    assert_eq!(v[0].targets[0].target_port, 8080);
    assert_eq!(v[0].targets[0].weight, 3);
    assert!(target_group_probe(&group()).is_some());
    assert_eq!(
        listener_entries(&listener(0, vec![Protocol::Tcp]), &group(), &vec!["10.0.0.7".to_string()]),
        Err(StoreError::TargetPortOutOfRange("web".to_string()))
    );
    assert_eq!(listener_entries(&listener(8080, vec![]), &group(), &vec!["10.0.0.7".to_string()]), Err(StoreError::NoProtocol));
}

#[test]
fn creating_a_listener_needs_its_group() {
    let mut state = NativeProxyState::default();
    let groups = vec![group()];
    let resolved = vec![vec!["10.0.0.7".to_string()]];
    let mut missing = listener(8080, vec![Protocol::Tcp]);
    missing.target_group = "other".to_string();
    assert_eq!(
        create_or_update_listener(&mut state, &missing, &groups, &resolved, &Vec::new()),
        Err(StoreError::TargetGroupNotFound("other".to_string()))
    );
    assert_eq!(StoreError::TargetGroupNotFound("other".to_string()).message(), "target group other not found");
    assert!(state.listeners.is_empty());
    create_or_update_listener(&mut state, &listener(8080, vec![Protocol::Tcp]), &groups, &resolved, &vec!["192.0.2.1".to_string()]).unwrap();
    assert_eq!(state.listeners.len(), 1);
    assert!(state.listeners[0].spec.monitor);
    assert_eq!(state.target_health[0].name, "10.0.0.7_tcp_8080");
    assert_eq!(state.target_health[0].current_state.as_deref(), Some("unknown"));
    let again = state.listeners[0].clone();
    replace_runtime_rule_state_by_name(&mut state, "web", &again, None, &Vec::new());
    assert_eq!(state.listeners.len(), 1);
}

#[test]
fn storing_the_same_listener_again_does_not_mark_the_datapath() {
    let e = entry(Some("web"), &["192.0.2.10"], 80, &["tcp"], &[("10.0.0.2", 8080)]);
    let mut dirty = StateDirty::default();
    let mut state = NativeProxyState::default();
    create_runtime_rule_state(&mut state, &e, None, &Vec::new());
    assert!(save_if_changed(None, &state, &mut dirty));
    assert!(dirty.take_state_dirty());
    let stored = state.clone();
    create_runtime_rule_state(&mut state, &e, None, &Vec::new());
    assert!(same_state(&stored, &state));
    assert!(!save_if_changed(Some(&stored), &state, &mut dirty));
    assert!(!dirty.take_state_dirty());
    let other = entry(Some("web"), &["192.0.2.10"], 80, &["tcp"], &[("10.0.0.3", 8080)]);
    create_runtime_rule_state(&mut state, &other, None, &Vec::new());
    assert!(save_if_changed(Some(&stored), &state, &mut dirty));
    assert!(dirty.take_state_dirty());
}
