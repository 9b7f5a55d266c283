use edge_lb::ha::GatewayHaPeer;
use edge_lb::overlay::GatewayNode;
use edge_lb::peer_merge::{merge_gateway_peers, merge_gateway_peers_best_effort, PeerMergeError};
use edge_lb::registry::BackendNode;
use edge_lb::route_msg::IpAddress;

fn v4(a: u8, b: u8, c: u8, d: u8) -> IpAddress {
    IpAddress::V4(u32::from_be_bytes([a, b, c, d]))
}

fn local_gateway() -> GatewayNode {
    GatewayNode {
        name: "gateway-a".to_string(),
        public_ip: v4(203, 0, 113, 10),
        underlay_ip: v4(192, 168, 0, 12),
        overlay_ip: "10.255.255.1/24".to_string(),
    }
}

#[test]
fn merge_gateway_peers_prunes_gateway_underlays_from_backend_nodes() {
    let peers = vec![GatewayHaPeer {
        name: "gateway-b".to_string(),
        underlay_ip: "192.168.0.16".to_string(),
        public_ip: Some("203.0.113.11".to_string()),
        overlay_ip: Some("10.255.16.1/24".to_string()),
        ..GatewayHaPeer::default()
    }];
    let mut gateways = vec![local_gateway()];
    let mut backends = vec![BackendNode {
        name: "old-backend".to_string(),
        public_ip: v4(203, 0, 113, 11),
        underlay_ip: v4(192, 168, 0, 16),
        overlay_ip: "10.255.255.3/24".to_string(),
    }];
    assert_eq!(merge_gateway_peers(&peers, "10.255.255.1/24", &mut gateways, &mut backends), Ok(true));
    assert!(gateways.iter().any(|gw| gw.name == "gateway-b"
        && gw.underlay_ip == v4(192, 168, 0, 16)
        && gw.overlay_ip == "10.255.16.1/24"));
    assert!(backends.is_empty());
}

#[test]
fn a_known_peer_updates_its_node_and_a_second_merge_changes_nothing() {
    let peers = vec![GatewayHaPeer {
        name: " gateway-b ".to_string(),
        underlay_ip: "192.168.0.16".to_string(),
        ..GatewayHaPeer::default()
    }];
    let mut gateways = vec![
        local_gateway(),
        GatewayNode {
            name: "old-name".to_string(),
            public_ip: v4(198, 51, 100, 7),
            underlay_ip: v4(192, 168, 0, 16),
            overlay_ip: "10.255.9.1/24".to_string(),
        },
    ];
    let mut backends = Vec::new();
    assert_eq!(merge_gateway_peers(&peers, "10.255.255.1/24", &mut gateways, &mut backends), Ok(true));
    assert_eq!(gateways.len(), 2);
    assert_eq!(gateways[1].name, "gateway-b");
    assert_eq!(gateways[1].public_ip, v4(198, 51, 100, 7));
    assert_eq!(gateways[1].overlay_ip, "10.255.255.1/24");
    assert_eq!(merge_gateway_peers(&peers, "10.255.255.1/24", &mut gateways, &mut backends), Ok(false));
}

#[test]
fn a_bad_peer_address_stops_the_merge() {
    let peers = vec![
        GatewayHaPeer { name: "".to_string(), underlay_ip: "junk".to_string(), ..GatewayHaPeer::default() },
        GatewayHaPeer { name: "gateway-b".to_string(), underlay_ip: "junk".to_string(), ..GatewayHaPeer::default() },
    ];
    let mut gateways = vec![local_gateway()];
    let mut backends = Vec::new();
    let e = merge_gateway_peers(&peers, "10.255.255.1/24", &mut gateways, &mut backends).unwrap_err();
    assert_eq!(e, PeerMergeError::BadUnderlay("gateway-b".to_string()));
    assert_eq!(e.message(), "bad HA peer gateway-b underlay_ip");
    let peers = vec![GatewayHaPeer {
        name: "gateway-b".to_string(),
        underlay_ip: "192.168.0.16".to_string(),
        public_ip: Some("nope".to_string()),
        ..GatewayHaPeer::default()
    }];
    assert!(!merge_gateway_peers_best_effort(&peers, "10.255.255.1/24", &mut gateways, &mut backends));
    assert_eq!(gateways.len(), 1);
}
