use edge_lb::native_store::{
    default_external_ip, delete_listener, mark_if_changed, expanded_runtime_rule_entries, listener_name,
    target_health, target_health_native, NativeProtocol, NativeProxyState, RuntimeRuleSpec,
    RuntimeRuleStateEntry, StateDirty, desired_runtime_rules, ManagedRuntimeRule, ManagedTarget,
};
use edge_lb::health::TargetHealthEntry;

#[test]
fn aggregate_listener_expands_to_both_transport_keys() {
    let entry = RuntimeRuleStateEntry {
        spec: RuntimeRuleSpec {
            vip_ips: vec!["192.0.2.10".to_string()],
            port: 9999,
            protocol: "tcp".to_string(),
            ..RuntimeRuleSpec::default()
        },
        protocols: vec!["tcp".to_string(), "udp".to_string()],
        ..RuntimeRuleStateEntry::default()
    };

    let expanded = expanded_runtime_rule_entries(&entry, &Vec::new());

    assert_eq!(expanded.len(), 2);
    assert_eq!(expanded[0].spec.protocol, "tcp");
    assert_eq!(expanded[1].spec.protocol, "udp");
    assert_eq!(expanded[0].protocols, vec!["tcp"]);
    assert_eq!(expanded[1].protocols, vec!["udp"]);
}

#[test]
fn listener_without_addresses_expands_over_the_default_ones() {
    let entry = RuntimeRuleStateEntry {
        spec: RuntimeRuleSpec { port: 53, protocol: "udp".to_string(), ..RuntimeRuleSpec::default() },
        ..RuntimeRuleStateEntry::default()
    };
    let defaults = vec!["198.51.100.1".to_string(), "198.51.100.2".to_string()];
    let expanded = expanded_runtime_rule_entries(&entry, &defaults);
    assert_eq!(expanded.len(), 2);
    assert_eq!(expanded[0].spec.vip_ips, vec!["198.51.100.1"]);
    assert_eq!(expanded[1].spec.vip_ips, vec!["198.51.100.2"]);
    assert_eq!(expanded[1].protocols, vec!["udp"]);
}

#[test]
fn blank_addresses_are_dropped_and_others_trimmed() {
    let entry = RuntimeRuleStateEntry {
        spec: RuntimeRuleSpec {
            vip_ips: vec![" 192.0.2.1 ".to_string(), "  ".to_string()],
            port: 80,
            protocol: "tcp".to_string(),
            ..RuntimeRuleSpec::default()
        },
        ..RuntimeRuleStateEntry::default()
    };
    let expanded = expanded_runtime_rule_entries(&entry, &Vec::new());
    assert_eq!(expanded.len(), 1);
    assert_eq!(expanded[0].spec.vip_ips, vec!["192.0.2.1"]);
}

#[test]
fn listener_names_are_explicit_or_generated() {
    let named = RuntimeRuleStateEntry {
        spec: RuntimeRuleSpec { name: Some(" web ".to_string()), port: 80, ..RuntimeRuleSpec::default() },
        ..RuntimeRuleStateEntry::default()
    };
    let generated = RuntimeRuleStateEntry {
        spec: RuntimeRuleSpec { port: 443, protocol: "tcp".to_string(), ..RuntimeRuleSpec::default() },
        protocols: vec!["tcp".to_string(), "udp".to_string()],
        ..RuntimeRuleStateEntry::default()
    };
    assert_eq!(listener_name(&named).iter().collect::<String>(), "web");
    assert_eq!(listener_name(&generated).iter().collect::<String>(), "tcp-udp-443");
}

#[test]
fn deleting_a_listener_reports_whether_it_existed() {
    let mut state = NativeProxyState {
        listeners: vec![RuntimeRuleStateEntry {
            spec: RuntimeRuleSpec { name: Some("web".to_string()), ..RuntimeRuleSpec::default() },
            ..RuntimeRuleStateEntry::default()
        }],
        target_health: vec![TargetHealthEntry { name: "x".to_string(), ..TargetHealthEntry::default() }],
    };
    assert!(!delete_listener(&mut state, "other"));
    assert!(delete_listener(&mut state, "web"));
    assert!(state.listeners.is_empty());
    assert_eq!(target_health(&state).len(), 1);
    assert_eq!(target_health_native(state).entries.len(), 1);
}

#[test]
fn dirty_flag_is_reported_once() {
    let mut flag = StateDirty::default();
    assert!(!flag.take_state_dirty());
    flag.mark_state_dirty();
    assert!(flag.take_state_dirty());
    assert!(!flag.take_state_dirty());
}

#[test]
fn only_a_changed_store_marks_the_state_dirty() {
    let mut flag = StateDirty::default();
    mark_if_changed(&mut flag, false);
    assert!(!flag.take_state_dirty());
    mark_if_changed(&mut flag, true);
    assert!(flag.take_state_dirty());
    assert!(!flag.take_state_dirty());
}

#[test]
fn protocol_numbers_and_default_address() {
    assert_eq!(NativeProtocol::Tcp.ip_proto(), 6);
    assert_eq!(NativeProtocol::Udp.ip_proto(), 17);
    assert_eq!(default_external_ip(&vec!["192.0.2.1".to_string()], "10.0.0.1"), "192.0.2.1");
    assert_eq!(default_external_ip(&Vec::new(), "10.0.0.1"), "10.0.0.1");
}

fn managed_target(ip: &str, port: u16, weight: u32) -> ManagedTarget {
    ManagedTarget {
        backend_ip: ip.to_string(),
        backend_port: port,
        weight,
        probe_type: Some("tcp".to_string()),
        probe_port: Some(port),
        probe_req: None,
        probe_resp: None,
        period_secs: Some(5),
        retries: Some(3),
    }
}

#[test]
fn service_rules_cover_every_protocol_and_address_protocol_first() {
    let template = ManagedRuntimeRule {
        service: "web".to_string(),
        vip_port: 80,
        select: 1,
        mode: 2,
        bgp: true,
        mark: Some(7),
        host: Some("example.org".to_string()),
        ..ManagedRuntimeRule::default()
    };
    let endpoints = vec![managed_target("10.255.255.2", 8080, 3), managed_target("10.255.255.3", 8081, 1)];
    let rules = desired_runtime_rules(
        &template,
        &vec!["tcp".to_string(), "udp".to_string()],
        &vec!["198.51.100.1".to_string(), "198.51.100.2".to_string()],
        &endpoints,
    );
    let keys: Vec<(String, String)> = rules.iter().map(|r| (r.protocol.clone(), r.vip_ip.clone())).collect();
    assert_eq!(
        keys,
        vec![
            ("tcp".to_string(), "198.51.100.1".to_string()),
            ("tcp".to_string(), "198.51.100.2".to_string()),
            ("udp".to_string(), "198.51.100.1".to_string()),
            ("udp".to_string(), "198.51.100.2".to_string()),
        ]
    );
    for r in &rules {
        assert_eq!(r.service, "web");
        assert_eq!((r.vip_port, r.select, r.mode, r.bgp, r.mark), (80, 1, 2, true, Some(7)));
        assert_eq!(r.host.as_deref(), Some("example.org"));
        assert_eq!((r.backend_ip.as_str(), r.backend_port, r.backend_weight), ("10.255.255.2", 8080, 3));
        assert_eq!(r.endpoints, endpoints);
    }
    let none = desired_runtime_rules(&template, &vec!["tcp".to_string()], &vec!["198.51.100.1".to_string()], &Vec::new());
    assert_eq!(none.len(), 1);
    assert_eq!((none[0].backend_ip.as_str(), none[0].backend_port, none[0].backend_weight), ("", 0, 0));
}
