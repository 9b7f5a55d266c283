use edge_lb::native_dnat::{apply_step, DatapathStep};
use edge_lb::datapath::{NativeFlowKey, NativeFlowValue};
use edge_lb::flow::{canonical_flow_pair, flow_apply_applies, flow_expired, INGRESS_PREF_OFFSET, RETURN_PREF_OFFSET};

fn flow_key(src: u32, dst: u32, sport: u16, dport: u16) -> NativeFlowKey {
    NativeFlowKey {
        src,
        dst,
        sport: sport.to_be(),
        dport: dport.to_be(),
        proto: 6,
        _pad: [0; 3],
    }
}

#[test]
fn flow_expiry_uses_monotonic_nanoseconds() {
    assert!(!flow_expired(0, 1, 10_000_000_000));
    assert!(!flow_expired(1_000_000_000, 0, 10_000_000_000));
    assert!(!flow_expired(1_000_000_000, 10, 5_000_000_000));
    assert!(flow_expired(1_000_000_000, 3, 5_000_000_001));
}

#[test]
fn canonical_flow_pair_is_identical_from_both_directions() {
    let forward = flow_key(0x0a00_0001, 0xc0a8_000a, 40000, 80);
    let reverse = flow_key(0xc0a8_000b, 0x0a00_0001, 8080, 40000);
    let value = NativeFlowValue {
        vip: 0xc0a8_000a,
        endpoint: 0xc0a8_000b,
        vip_port: 80_u16.to_be(),
        endpoint_port: 8080,
        ..NativeFlowValue::default()
    };
    assert_eq!(canonical_flow_pair(forward, value), canonical_flow_pair(reverse, value));
}

#[test]
fn preferences_are_disjoint_from_marker() {
    assert_eq!(INGRESS_PREF_OFFSET, 10);
    assert_eq!(RETURN_PREF_OFFSET, 11);
}

#[test]
fn replicated_flow_applies_only_when_absent_or_fresher() {
    let older = NativeFlowValue { last_seen_ns: 10, ..NativeFlowValue::default() };
    let newer = NativeFlowValue { last_seen_ns: 20, ..NativeFlowValue::default() };
    assert!(flow_apply_applies(None, &older));
    assert!(flow_apply_applies(Some(&older), &newer));
    assert!(!flow_apply_applies(Some(&newer), &older));
    assert!(!flow_apply_applies(Some(&newer), &newer));
}

#[test]
fn expiry_is_strictly_after_the_timeout() {
    assert!(!flow_expired(1_000_000_000, 3, 4_000_000_000));
    assert!(flow_expired(1_000_000_000, 3, 4_000_000_001));
}

use edge_lb::datapath::{NativeEndpointKey, NativeServiceKey, DEFAULT_PERSIST_TIMEOUT_SECS, NATIVE_SELECT_PERSIST};
use edge_lb::health::{TargetHealthEntry, TargetHealthList};
use edge_lb::native_dnat::{
    attached, datapath_map_entries, observed_endpoint_is_active, AttachError, NativeListener,
    NativeListenerKey, NativeTarget,
};
use edge_lb::native_store::{NativeProtocol, NativeTargetState};

#[test]
fn health_identity_uses_forwarding_port_not_probe_port() {
    let endpoint = TargetHealthEntry {
        host_name: "192.0.2.10".to_string(),
        name: "192.0.2.10_tcp_8080".to_string(),
        probe_type: Some("http".to_string()),
        probe_port: Some(9090),
        current_state: Some("nok".to_string()),
        ..TargetHealthEntry::default()
    };
    let list = TargetHealthList { entries: vec![endpoint] };

    assert!(!observed_endpoint_is_active(Some(&list), 0xc000_020a, 6, 8080));
    assert!(observed_endpoint_is_active(Some(&list), 0xc000_020a, 6, 9090));
    assert!(observed_endpoint_is_active(None, 0xc000_020a, 6, 8080));
}

fn listener(select: u32, endpoints: Vec<NativeTarget>) -> NativeListener {
    NativeListener {
        name: "tcp-80".to_string(),
        key: NativeListenerKey { vip_ip: 0xc0a8_000a, vip_port: 80, protocol: NativeProtocol::Tcp },
        select,
        inactive_timeout_secs: 240,
        dscp: 46,
        endpoints,
    }
}

fn target(address: u32, weight: u32, state: NativeTargetState) -> NativeTarget {
    NativeTarget { address, port: 8080, weight, state }
}

#[test]
fn datapath_maps_number_services_and_endpoints() {
    let down = TargetHealthList {
        entries: vec![TargetHealthEntry {
            name: "10.0.0.2_tcp_8080".to_string(),
            current_state: Some("down".to_string()),
            ..TargetHealthEntry::default()
        }],
    };
    let ls = vec![
        listener(0, vec![target(0x0a00_0001, 3, NativeTargetState::Active), target(0x0a00_0002, 5, NativeTargetState::Active)]),
        listener(NATIVE_SELECT_PERSIST, vec![target(0x0a00_0003, 70_000, NativeTargetState::Inactive)]),
    ];
    let maps = datapath_map_entries(&ls, Some(&down)).unwrap();
    assert_eq!(maps.services.len(), 2);
    let (key, value) = maps.services[0];
    assert_eq!(key, NativeServiceKey { vip: 0xc0a8_000a, port: 80u16.to_be(), proto: 6, _pad: 0 });
    assert_eq!(value.service_id, 1);
    assert_eq!(value.endpoint_count, 2);
    assert_eq!(value.weight_total, 3);
    assert_eq!(value.timeout_secs, 240);
    assert_eq!(maps.services[1].1.timeout_secs, DEFAULT_PERSIST_TIMEOUT_SECS);
    assert_eq!(maps.services[1].1.weight_total, 0);
    assert_eq!(maps.endpoints.len(), 3);
    assert_eq!(maps.endpoints[1].0, NativeEndpointKey { service_id: 1, endpoint_id: 1 });
    assert_eq!(maps.endpoints[1].1.flags, 0);
    assert_eq!(maps.endpoints[0].1.flags, 1);
    assert_eq!(maps.endpoints[2].0, NativeEndpointKey { service_id: 2, endpoint_id: 0 });
    assert_eq!(maps.endpoints[2].1.weight, u16::MAX);
}

#[test]
fn datapath_maps_refuse_empty_or_oversized_listeners() {
    assert_eq!(datapath_map_entries(&Vec::new(), None), Err(AttachError::NoListeners));
    let many = (0..65).map(|i| target(i, 1, NativeTargetState::Active)).collect::<Vec<_>>();
    assert_eq!(
        datapath_map_entries(&vec![listener(0, Vec::new()), listener(0, many)], None),
        Err(AttachError::TooManyEndpoints(80, 65))
    );
}

#[test]
fn attachment_is_read_from_tc_output() {
    let out = "filter protocol all pref 110 bpf chain 0\nfilter protocol all pref 110 bpf chain 0 handle 0x1 native_dnat_ingress direct-action\n";
    assert!(attached(out, 100));
    assert!(!attached(out, 101));
    assert!(!attached("", 100));
}

#[test]
fn apply_keeps_an_unchanged_attachment_and_cleans_up_without_listeners() {
    assert_eq!(apply_step(0, Some("sig"), "sig", true), DatapathStep::Cleanup);
    assert_eq!(apply_step(2, Some("sig"), "sig", true), DatapathStep::RefreshHealth);
    assert_eq!(apply_step(2, Some("sig"), "sig", false), DatapathStep::Reattach);
    assert_eq!(apply_step(2, Some("old"), "sig", true), DatapathStep::Reattach);
    assert_eq!(apply_step(2, None, "sig", true), DatapathStep::Reattach);
}
