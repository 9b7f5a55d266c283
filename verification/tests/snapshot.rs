use edge_lb::pb::{ConfigSnapshot, DiscoveryResponse, GatewayNode, GatewayReturnPath, Network};
use edge_lb::route::{return_mark, return_table_id};
use edge_lb::route_msg::IpAddress;
use edge_lb::snapshot::{
    combine_gateway_responses, gateway_return_path_from_proto, overlay_addr, snapshot_gateway_key, snapshot_version,
    ReturnPathError, SnapshotError,
};
use edge_lb::file_config::{
    ActiveSource, ApiConfig, BackendSection, ControlPlaneConfig, ControlPlaneMode, FileConfig, GatewaySection,
    HaSettings, NetworkConfig, NodeRole,
};
use edge_lb::registry::BackendNode;
use edge_lb::snapshot_file::{file_from_snapshot, SnapshotFileError};

fn gateway_response(name: &str, gateway_ip: &str, overlay_cidr: &str, dscp: u32) -> DiscoveryResponse {
    let slot = if gateway_ip == "192.0.2.11" { 0 } else { 1 };
    DiscoveryResponse {
        version: format!("{name}-version"),
        nonce: format!("{name}-nonce"),
        snapshot: Some(ConfigSnapshot {
            network: Some(Network {
                gateway_ip: gateway_ip.to_string(),
                gateway_vxlan_dev: "edge-hub".to_string(),
                vni: 100,
                vxlan_port: 4789,
                vxlan_mtu: 1450,
                dscp,
                overlay_cidr: overlay_cidr.to_string(),
            }),
            gateway_nodes: vec![
                GatewayNode {
                    name: "gateway-a".to_string(),
                    underlay_ip: "192.0.2.11".to_string(),
                    overlay_ip: "10.255.12.1/24".to_string(),
                },
                GatewayNode {
                    name: "gateway-b".to_string(),
                    underlay_ip: "192.0.2.16".to_string(),
                    overlay_ip: "10.255.16.1/24".to_string(),
                },
            ],
            gateway_return_paths: vec![GatewayReturnPath {
                gateway: name.to_string(),
                gateway_underlay_ip: gateway_ip.to_string(),
                gateway_overlay_ip: if name == "gateway-a" { "10.255.12.1".to_string() } else { "10.255.16.1".to_string() },
                dscp,
                mark: return_mark(dscp, slot),
                route_table_id: return_table_id(dscp, slot),
                backend_overlay_ip: String::new(),
            }],
        }),
    }
}

#[test]
fn combined_snapshot_uses_deterministic_gateway_network_as_base() {
    let combined = combine_gateway_responses(
        vec![
            gateway_response("gateway-a", "192.0.2.11", "10.255.12.0/24", 46),
            gateway_response("gateway-b", "192.0.2.16", "10.255.16.0/24", 40),
        ],
        "n".to_string(),
    )
    .expect("snapshots combine");
    let snapshot = combined.snapshot.expect("combined snapshot");
    let network = snapshot.network.expect("combined network");
    assert_eq!(network.gateway_ip, "192.0.2.11");
    assert_eq!(network.overlay_cidr, "10.255.12.0/24");
    assert_eq!(network.dscp, 46);
    assert_eq!(snapshot.gateway_return_paths.len(), 2);
}

#[test]
fn combined_snapshot_accepts_multiple_gateway_views() {
    let combined = combine_gateway_responses(
        vec![
            gateway_response("gateway-a", "192.0.2.11", "10.255.12.0/24", 46),
            gateway_response("gateway-b", "192.0.2.16", "10.255.16.0/24", 40),
        ],
        "n".to_string(),
    )
    .expect("snapshots combine");
    let snapshot = combined.snapshot.expect("combined snapshot");
    assert_eq!(snapshot.gateway_return_paths.len(), 2);
}

#[test]
fn combined_snapshot_merges_partial_gateway_inventory() {
    let mut gateway_a = gateway_response("gateway-a", "192.0.2.11", "10.255.12.0/24", 46);
    let mut gateway_b = gateway_response("gateway-b", "192.0.2.16", "10.255.16.0/24", 40);
    gateway_a.snapshot.as_mut().unwrap().gateway_nodes.retain(|gateway| gateway.name == "gateway-a");
    gateway_b.snapshot.as_mut().unwrap().gateway_nodes.retain(|gateway| gateway.name == "gateway-b");
    let combined = combine_gateway_responses(vec![gateway_a, gateway_b], "n".to_string())
        .expect("partial gateway inventories combine");
    let snapshot = combined.snapshot.expect("combined snapshot");
    let mut underlays = snapshot.gateway_nodes.iter().map(|gateway| gateway.underlay_ip.as_str()).collect::<Vec<_>>();
    underlays.sort_unstable();
    assert_eq!(underlays, vec!["192.0.2.11", "192.0.2.16"]);
    assert_eq!(snapshot.gateway_return_paths.len(), 2);
}

#[test]
fn combined_version_and_base_ignore_arrival_order() {
    let a = gateway_response("gateway-a", "192.0.2.11", "10.255.12.0/24", 46);
    let b = gateway_response("gateway-b", "192.0.2.16", "10.255.16.0/24", 40);
    let one = combine_gateway_responses(vec![a.clone(), b.clone()], "n1".to_string()).unwrap();
    let two = combine_gateway_responses(vec![b, DiscoveryResponse::default(), a], "n2".to_string()).unwrap();
    assert_eq!(one.version, two.version);
    assert_eq!(one.version.len(), 64);
    assert_eq!(one.snapshot.as_ref().unwrap().network, two.snapshot.as_ref().unwrap().network);
    assert_eq!(one.snapshot.as_ref().unwrap().gateway_nodes.len(), 2);
    assert_eq!(two.nonce, "n2");
    assert_eq!(
        combine_gateway_responses(vec![DiscoveryResponse::default()], "n".to_string()),
        Err(SnapshotError::NoSnapshots)
    );
    assert_eq!(snapshot_gateway_key(&DiscoveryResponse::default()), "");
}

#[test]
fn snapshot_version_is_the_sha256_hex_digest() {
    assert_eq!(snapshot_version(b""), "e3b0c44298fc1c149afbf4c8996fb92427ae41e4649b934ca495991b7852b855");
    assert_eq!(snapshot_version(b"abc"), "ba7816bf8f01cfea414140de5dae2223b00361a396177a9cb410ff61f20015ad");
}

#[test]
fn return_paths_fill_the_local_overlay_and_reject_bad_addresses() {
    let path = GatewayReturnPath {
        gateway: String::new(),
        gateway_underlay_ip: "192.0.2.11".to_string(),
        gateway_overlay_ip: "10.255.12.1".to_string(),
        backend_overlay_ip: String::new(),
        dscp: 46,
        mark: 1,
        route_table_id: 2,
    };
    let cfg = gateway_return_path_from_proto(&path, "10.255.12.9/24".to_string()).unwrap();
    assert_eq!(cfg.gateway, None);
    assert_eq!(cfg.backend_overlay_ip.as_deref(), Some("10.255.12.9/24"));
    assert_eq!(cfg.gateway_overlay_ip, IpAddress::V4(0x0aff_0c01));
    let bad = GatewayReturnPath { gateway_overlay_ip: "nope".to_string(), ..path.clone() };
    assert_eq!(gateway_return_path_from_proto(&bad, String::new()), Err(ReturnPathError::BadGatewayOverlay));
    let bad = GatewayReturnPath { gateway_underlay_ip: "".to_string(), ..path };
    assert_eq!(gateway_return_path_from_proto(&bad, String::new()), Err(ReturnPathError::BadGatewayUnderlay));
    assert_eq!(overlay_addr("10.255.12.1/24"), Some(IpAddress::V4(0x0aff_0c01)));
    assert_eq!(overlay_addr("10.255.12.1"), Some(IpAddress::V4(0x0aff_0c01)));
    assert_eq!(overlay_addr("auto"), None);
}

fn v4(a: u8, b: u8, c: u8, d: u8) -> IpAddress {
    IpAddress::V4(u32::from_be_bytes([a, b, c, d]))
}

fn backend_base() -> FileConfig {
    FileConfig {
        node_role: NodeRole::Backend,
        control_plane: ControlPlaneConfig {
            enabled: true,
            mode: ControlPlaneMode::Xds,
            listen: "127.0.0.1:22222".to_string(),
            gateway_port: None,
            token: None,
            trusted_source_cidrs: Vec::new(),
        },
        ha: HaSettings { active_source: ActiveSource::Xds, watch_interval_secs: 5 },
        network: NetworkConfig {
            gateway_public_ip: IpAddress::V4(0),
            gateway_ip: IpAddress::V4(0),
            standby_gateway_ip: None,
            backend_public_ip: None,
            backend_ip: None,
            overlay_cidr: "10.255.255.0/24".to_string(),
            underlay_dev: "auto".to_string(),
            vxlan_dev: "edge-lb0".to_string(),
            vni: 100,
            vxlan_port: 4789,
            vxlan_mtu: 0,
            vxlan_mtu_auto: true,
            dscp: 46,
        },
        api: ApiConfig { listen: "127.0.0.1:18080".to_string(), auth_token: None },
        gateway: GatewaySection { xds: None, reconcile: None, control_plane: None, network: None, api: None },
        backend: BackendSection {
            xds: None,
            return_path: None,
            control: None,
            control_plane: None,
            network: None,
            api: None,
            ct_mark: "0x1".to_string(),
            fwmark: "0x1/0xff".to_string(),
            route_table: "edge".to_string(),
            route_table_id: 100,
            rule_priority: 1000,
            nft_table: "edge_lb".to_string(),
            mss: 1410,
        },
        gateway_nodes: Vec::new(),
    }
}

#[test]
fn backend_config_accepts_gateway_inventory_from_multiple_overlay_cidrs() {
    let combined = combine_gateway_responses(
        vec![
            gateway_response("gateway-a", "192.0.2.11", "10.255.12.0/24", 46),
            gateway_response("gateway-b", "192.0.2.16", "10.255.16.0/24", 40),
        ],
        "n".to_string(),
    )
    .expect("snapshots combine");
    let snapshot = combined.snapshot.expect("combined snapshot");
    let local = BackendNode {
        name: "backend-1".to_string(),
        public_ip: v4(198, 51, 100, 20),
        underlay_ip: v4(192, 0, 2, 22),
        overlay_ip: "10.255.12.2/24".to_string(),
    };
    let file = file_from_snapshot(backend_base(), local, &snapshot)
        .ok()
        .expect("backend xDS config accepts multi-overlay gateway inventory");
    assert_eq!(file.file.gateway_nodes.len(), 2);
    assert!(file.backend_return_paths.len() >= 2);
}

#[test]
fn snapshot_to_backend_config_keeps_only_return_path_contract() {
    let local = BackendNode {
        name: "backend-2".to_string(),
        public_ip: v4(198, 51, 100, 21),
        underlay_ip: v4(192, 0, 2, 23),
        overlay_ip: "10.255.255.3/24".to_string(),
    };
    let snapshot = ConfigSnapshot {
        network: Some(Network {
            gateway_ip: "192.0.2.11".to_string(),
            overlay_cidr: "10.255.255.0/24".to_string(),
            gateway_vxlan_dev: "edge-hub".to_string(),
            vni: 100,
            vxlan_port: 4789,
            vxlan_mtu: 1450,
            dscp: 46,
        }),
        gateway_nodes: vec![GatewayNode {
            name: "gateway-a".to_string(),
            underlay_ip: "192.0.2.11".to_string(),
            overlay_ip: "10.255.255.1/24".to_string(),
        }],
        gateway_return_paths: vec![
            GatewayReturnPath {
                gateway: "gateway-a".to_string(),
                gateway_underlay_ip: "192.0.2.11".to_string(),
                gateway_overlay_ip: "10.255.255.1".to_string(),
                backend_overlay_ip: "10.255.255.3/24".to_string(),
                dscp: 46,
                mark: return_mark(46, 0),
                route_table_id: return_table_id(46, 0),
            },
            GatewayReturnPath {
                gateway: "gateway-b".to_string(),
                gateway_underlay_ip: "192.0.2.16".to_string(),
                gateway_overlay_ip: "10.255.16.1".to_string(),
                backend_overlay_ip: "10.255.16.3/24".to_string(),
                dscp: 40,
                mark: return_mark(40, 1),
                route_table_id: return_table_id(40, 1),
            },
        ],
    };
    let file = file_from_snapshot(backend_base(), local, &snapshot).ok().expect("snapshot converts");
    assert_eq!(file.file.network.gateway_ip, v4(192, 0, 2, 11));
    assert_eq!(file.backend_return_paths.len(), 2);
    assert_eq!(file.backend_return_paths[0].gateway_underlay_ip, v4(192, 0, 2, 11));
}

#[test]
fn snapshot_settings_replace_the_network_and_pin_the_xds_source() {
    let local = BackendNode {
        name: "backend-1".to_string(),
        public_ip: v4(198, 51, 100, 20),
        underlay_ip: v4(192, 0, 2, 22),
        overlay_ip: "10.255.12.2/24".to_string(),
    };
    let mut base = backend_base();
    base.ha.active_source = ActiveSource::File;
    let response = gateway_response("gateway-b", "192.0.2.16", "  ", 40);
    let snapshot = response.snapshot.unwrap();
    let out = file_from_snapshot(base, local, &snapshot).ok().unwrap();
    assert_eq!(out.file.ha.active_source, ActiveSource::Xds);
    assert_eq!(out.file.network.gateway_public_ip, v4(192, 0, 2, 16));
    // A blank overlay network keeps the local one; the devices stay local.
    assert_eq!(out.file.network.overlay_cidr, "10.255.255.0/24");
    assert_eq!(out.file.network.vxlan_dev, "edge-lb0");
    assert_eq!(out.file.network.dscp, 40);
    assert!(!out.file.network.vxlan_mtu_auto);
    assert_eq!(out.file.gateway_nodes[1].public_ip, v4(192, 0, 2, 16));
    // The path has no backend overlay address: the local one fills it and stays.
    assert_eq!(out.backend_return_paths[0].backend_overlay_ip.as_deref(), Some("10.255.12.2/24"));
    assert_eq!(out.backend_nodes.len(), 1);
    assert_eq!(out.backend_nodes[0].overlay_ip, "10.255.12.2/24");
}

#[test]
fn snapshot_errors_name_the_first_bad_item() {
    let local = BackendNode {
        name: "backend-1".to_string(),
        public_ip: v4(198, 51, 100, 20),
        underlay_ip: v4(192, 0, 2, 22),
        overlay_ip: "10.255.12.2/24".to_string(),
    };
    let mut snapshot = gateway_response("gateway-a", "192.0.2.11", "10.255.12.0/24", 46).snapshot.unwrap();
    snapshot.gateway_return_paths[0].gateway_overlay_ip = "bad".to_string();
    assert!(matches!(
        file_from_snapshot(backend_base(), local.clone(), &snapshot),
        Err(SnapshotFileError::BadReturnPath(0, ReturnPathError::BadGatewayOverlay))
    ));
    snapshot.gateway_nodes[1].underlay_ip = "nope".to_string();
    assert!(matches!(
        file_from_snapshot(backend_base(), local.clone(), &snapshot),
        Err(SnapshotFileError::BadGatewayUnderlay(1))
    ));
    snapshot.network.as_mut().unwrap().gateway_ip = "x".to_string();
    assert!(matches!(file_from_snapshot(backend_base(), local.clone(), &snapshot), Err(SnapshotFileError::BadGatewayIp)));
    snapshot.network = None;
    assert!(matches!(file_from_snapshot(backend_base(), local, &snapshot), Err(SnapshotFileError::MissingNetwork)));
}
