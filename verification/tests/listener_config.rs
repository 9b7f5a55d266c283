use edge_lb::config::{LbMode, LbSelect, Listener, Protocol};
use edge_lb::listener_config::{
    coalesce_listener_resources, listener_resource_conflicts, validate_listener_config, ListenerConfigResource,
    ListenerError,
};
use edge_lb::native_model::{listener_from_target_group, merge_vip_ips, ModelError, ResolvedTarget};
use edge_lb::native_store::NativeProtocol;
use edge_lb::route_msg::IpAddress;

fn ip(text: &str) -> IpAddress {
    IpAddress::V4(edge_lb::ipnet::parse_ipv4(text).unwrap())
}

fn v4(text: &str) -> u32 {
    edge_lb::ipnet::parse_ipv4(text).unwrap()
}

fn resource(name: &str, vips: Vec<IpAddress>, port: u16, protocols: Vec<Protocol>) -> ListenerConfigResource {
    ListenerConfigResource {
        name: name.to_string(),
        vip_ips: vips,
        port,
        target_port: 18080,
        protocols,
        target_group: "web".to_string(),
        select: LbSelect::Hash,
        inactive_timeout: Some(60),
    }
}

#[test]
fn empty_target_group_can_back_a_listener_before_backend_registration() {
    let listener = Listener {
        name: "tcp-8080".to_string(),
        port: 8080,
        target_port: 18080,
        target_group: "pending".to_string(),
        protocols: vec![Protocol::Tcp],
        ..Listener::default()
    };
    validate_listener_config(&listener, &vec!["pending".to_string()], &Vec::new(), None, ip("192.0.2.11"), None)
        .expect("empty target groups must not block listener creation");
}

#[test]
fn empty_external_ip_list_preserves_automatic_vip_expansion() {
    let listener = resource("", Vec::new(), 8080, vec![Protocol::Tcp]).into_listener();
    assert!(listener.vip_ips.is_empty());
    assert_eq!(listener.name, "tcp-8080");
}

#[test]
fn listener_name_is_always_generated_from_protocol_and_port() {
    let listener = resource("stale-name", vec![ip("192.168.0.12")], 8080, vec![Protocol::Tcp]).into_listener();
    assert_eq!(listener.name, "tcp-8080");
}

#[test]
fn auto_listener_name_is_preserved_for_generated_listeners() {
    let listener = resource("auto-stale-name", vec![ip("192.168.0.12")], 8080, vec![Protocol::Tcp]).into_listener();
    assert_eq!(listener.name, "auto-tcp-8080");
}

#[test]
fn listener_protocols_are_normalized_and_deduplicated() {
    let listener =
        resource("stale-name", vec![ip("192.168.0.12")], 8080, vec![Protocol::Udp, Protocol::Tcp, Protocol::Udp]).into_listener();
    assert_eq!(listener.protocols, vec![Protocol::Udp, Protocol::Tcp]);
    assert_eq!(listener.name, "udp-tcp-8080");
}

#[test]
fn combined_protocol_listener_keeps_one_generated_name() {
    let listener = resource("stale-name", vec![ip("192.168.0.12")], 8080, vec![Protocol::Tcp, Protocol::Udp]).into_listener();
    assert_eq!(listener.protocols, vec![Protocol::Tcp, Protocol::Udp]);
    assert_eq!(listener.name, "tcp-udp-8080");
}

#[test]
fn listener_conflict_uses_socket_identity_not_name_only() {
    let make = |port: u16| ListenerConfigResource {
        name: "tcp-80".to_string(),
        vip_ips: vec![ip("192.168.0.12")],
        port,
        target_port: 8080,
        protocols: vec![Protocol::Tcp],
        target_group: "web".to_string(),
        select: LbSelect::Hash,
        inactive_timeout: Some(60),
    };
    let existing = make(80);
    let same_name_other_port = make(81);
    let same_socket_other_name = ListenerConfigResource { name: "old".to_string(), ..make(80) };
    let gateway = ip("192.0.2.11");
    assert!(!listener_resource_conflicts(&existing, &same_name_other_port, gateway, None).unwrap());
    assert!(listener_resource_conflicts(&existing, &same_socket_other_name, gateway, None).unwrap());
}

#[test]
fn listener_resource_round_trip_preserves_protocols_and_empty_vips() {
    let stored = ListenerConfigResource {
        name: "tcp-udp-443".to_string(),
        vip_ips: Vec::new(),
        port: 443,
        target_port: 8443,
        protocols: vec![Protocol::Tcp, Protocol::Udp],
        target_group: "tls-targets".to_string(),
        select: LbSelect::Hash,
        inactive_timeout: Some(60),
    };
    let listener = stored.into_listener();
    let restored = ListenerConfigResource::from_listener(&listener);
    assert_eq!(restored.name, "tcp-udp-443");
    assert_eq!(restored.protocols, vec![Protocol::Tcp, Protocol::Udp]);
    assert!(restored.vip_ips.is_empty());
    assert_eq!(restored.target_port, 8443);
}

#[test]
fn listener_resources_merge_vips_without_merging_different_listeners() {
    let make = |vip: &str, port: u16| ListenerConfigResource {
        name: "tcp-80".to_string(),
        vip_ips: vec![ip(vip)],
        port,
        target_port: 8080,
        protocols: vec![Protocol::Tcp],
        target_group: "web".to_string(),
        select: LbSelect::Hash,
        inactive_timeout: Some(60),
    };
    let result = coalesce_listener_resources(vec![make("192.0.2.10", 80), make("192.0.2.11", 80), make("192.0.2.12", 81)]);
    assert_eq!(result.len(), 2);
    assert_eq!(result[0].vip_ips.len(), 2);
    assert_eq!(result[1].port, 81);
}

#[test]
fn listener_validation_reports_each_error() {
    let base = Listener {
        name: "tcp-80".to_string(),
        port: 80,
        target_port: 8080,
        target_group: "web".to_string(),
        protocols: vec![Protocol::Tcp],
        ..Listener::default()
    };
    let groups = vec!["web".to_string()];
    let gw = ip("192.0.2.11");
    let check = |l: &Listener, existing: &Vec<ListenerConfigResource>, old: Option<&str>| {
        validate_listener_config(l, &groups, existing, old, gw, None)
    };
    assert_eq!(check(&Listener { name: "  ".to_string(), ..base.clone() }, &Vec::new(), None), Err(ListenerError::NameRequired));
    assert_eq!(check(&Listener { port: 0, ..base.clone() }, &Vec::new(), None), Err(ListenerError::PortRequired));
    assert_eq!(check(&Listener { target_port: 0, ..base.clone() }, &Vec::new(), None), Err(ListenerError::TargetPortRequired));
    assert_eq!(check(&Listener { protocols: Vec::new(), ..base.clone() }, &Vec::new(), None), Err(ListenerError::ProtocolRequired));
    assert_eq!(
        check(&Listener { target_group: "missing".to_string(), ..base.clone() }, &Vec::new(), None),
        Err(ListenerError::TargetGroupNotFound)
    );
    let stored = vec![resource("other", Vec::new(), 80, vec![Protocol::Tcp])];
    assert_eq!(check(&base, &stored, None), Err(ListenerError::Conflict("other".to_string())));
    assert_eq!(check(&base, &stored, Some("other")), Ok(()));
    let v6 = vec![resource("v6", vec![IpAddress::V6(1)], 80, vec![Protocol::Tcp])];
    assert_eq!(check(&base, &v6, None), Err(ListenerError::Vip(ModelError::Ipv6Unsupported)));
}

#[test]
fn empty_target_group_is_not_a_datapath_error() {
    let listener = Listener {
        name: "tcp-80".to_string(),
        port: 80,
        target_port: 8080,
        target_group: "empty".to_string(),
        ..Listener::default()
    };
    assert!(listener_from_target_group(&listener, &Vec::new(), ip("192.0.2.10"), None, 0).unwrap().is_empty());
}

#[test]
fn target_group_endpoints_are_expanded_with_weights() {
    let listener = Listener {
        name: "api".to_string(),
        port: 8080,
        target_group: "api-targets".to_string(),
        protocols: vec![Protocol::Tcp],
        mode: LbMode::Default,
        ..Listener::default()
    };
    let targets = vec![
        ResolvedTarget { address: ip("192.0.2.20"), weight: 2 },
        ResolvedTarget { address: ip("192.0.2.21"), weight: 5 },
    ];
    let listeners = listener_from_target_group(&listener, &targets, ip("192.0.2.10"), None, 0).unwrap();
    assert_eq!(listeners.len(), 1);
    assert_eq!(listeners[0].endpoints.len(), 2);
    assert_eq!(listeners[0].endpoints[0].weight, 2);
    assert_eq!(listeners[0].endpoints[1].weight, 5);
}

#[test]
fn listener_vip_list_expands_to_independent_runtime_keys() {
    let listener = Listener {
        name: "api".to_string(),
        port: 8080,
        target_group: "api-targets".to_string(),
        vip_ips: vec![ip("192.0.2.10"), ip("192.0.2.11")],
        protocols: vec![Protocol::Tcp, Protocol::Udp],
        ..Listener::default()
    };
    let targets = vec![ResolvedTarget { address: ip("192.0.2.20"), weight: 1 }];
    let listeners = listener_from_target_group(&listener, &targets, ip("192.0.2.1"), None, 46).unwrap();
    assert_eq!(listeners.len(), 6);
    assert_eq!(listeners[0].key.vip_ip, v4("192.0.2.1"));
    assert_eq!(listeners[0].key.protocol, NativeProtocol::Tcp);
    assert_eq!(listeners[1].key.protocol, NativeProtocol::Udp);
    assert_eq!(listeners[2].key.vip_ip, v4("192.0.2.10"));
    assert_eq!(listeners[4].key.vip_ip, v4("192.0.2.11"));
    assert_eq!(listeners[5].dscp, 46);
    assert_eq!(listeners[5].inactive_timeout_secs, 240);
    assert_eq!(listeners[5].endpoints[0].port, 0);
}

#[test]
fn non_default_listener_modes_are_rejected() {
    let listener = Listener { name: "fullnat".to_string(), port: 8080, mode: LbMode::Fullnat, ..Listener::default() };
    let targets = vec![ResolvedTarget { address: ip("192.0.2.20"), weight: 1 }];
    assert_eq!(listener_from_target_group(&listener, &targets, ip("192.0.2.10"), None, 0), Err(ModelError::NonDefaultMode));
    let bad_target = vec![ResolvedTarget { address: IpAddress::V4(0), weight: 1 }];
    let ok_mode = Listener { mode: LbMode::Default, ..listener };
    assert_eq!(listener_from_target_group(&ok_mode, &bad_target, ip("192.0.2.10"), None, 0), Err(ModelError::Unspecified));
}

#[test]
fn shared_vip_is_installed_for_backup_datapath() {
    let values = merge_vip_ips(v4("192.0.2.1"), &Vec::new(), Some(v4("192.0.2.100"))).unwrap();
    assert_eq!(values, vec![v4("192.0.2.1"), v4("192.0.2.100")]);
    let dup = merge_vip_ips(v4("192.0.2.1"), &vec![ip("192.0.2.1"), ip("192.0.2.5")], Some(v4("192.0.2.5"))).unwrap();
    assert_eq!(dup, vec![v4("192.0.2.1"), v4("192.0.2.5")]);
}
