use edge_lb::file_config::{
    apply_role_sections, split_host_port_text, underlay_dev_is_auto, ActiveSource, ApiConfig, BackendControl,
    BackendSection, BackendXds, ControlPlaneConfig, ControlPlaneMode, FileConfig, GatewaySection, GatewayXds,
    HaSettings, NetworkConfig, NodeRole, ReconcileSection, ReturnPathSection,
};
use edge_lb::overlay::GatewayNode;
use edge_lb::route_msg::IpAddress;

fn network(underlay_dev: &str, vxlan_dev: &str) -> NetworkConfig {
    NetworkConfig {
        gateway_public_ip: IpAddress::V4(0xcb00_710a),
        gateway_ip: IpAddress::V4(0xc000_020b),
        standby_gateway_ip: None,
        backend_public_ip: None,
        backend_ip: None,
        overlay_cidr: "10.255.255.0/24".to_string(),
        underlay_dev: underlay_dev.to_string(),
        vxlan_dev: vxlan_dev.to_string(),
        vni: 100,
        vxlan_port: 4789,
        vxlan_mtu: 1450,
        vxlan_mtu_auto: false,
        dscp: 46,
    }
}

fn control_plane(listen: &str) -> ControlPlaneConfig {
    ControlPlaneConfig {
        enabled: false,
        mode: ControlPlaneMode::File,
        listen: listen.to_string(),
        gateway_port: None,
        token: None,
        trusted_source_cidrs: Vec::new(),
    }
}

fn base(role: NodeRole) -> FileConfig {
    FileConfig {
        node_role: role,
        control_plane: control_plane("0.0.0.0:22222"),
        ha: HaSettings { active_source: ActiveSource::File, watch_interval_secs: 5 },
        network: network("eth0", "auto"),
        api: ApiConfig { listen: "127.0.0.1:18080".to_string(), auth_token: None },
        gateway: GatewaySection { xds: None, reconcile: None, control_plane: None, network: None, api: None },
        backend: BackendSection {
            xds: None,
            return_path: None,
            control: None,
            control_plane: None,
            network: None,
            api: None,
            ct_mark: "0x1".to_string(),
            fwmark: "0x1/0xff".to_string(),
            route_table: "edge".to_string(),
            route_table_id: 100,
            rule_priority: 1000,
            nft_table: "edge_lb".to_string(),
            mss: 1410,
        },
        gateway_nodes: Vec::new(),
    }
}

#[test]
fn gateway_sections_fold_into_the_control_plane_network_and_api() {
    let mut f = base(NodeRole::Gateway);
    f.gateway.xds = Some(GatewayXds {
        listen: "0.0.0.0:30000".to_string(),
        token: Some("tok".to_string()),
        trusted_source_cidrs: vec!["10.0.0.0/8".to_string()],
    });
    f.gateway.reconcile = Some(ReconcileSection { interval_secs: 9 });
    f.gateway.network = Some(network("auto", "vx-gw"));
    f.gateway.api = Some(ApiConfig { listen: "0.0.0.0:8080".to_string(), auth_token: Some("a".to_string()) });
    let sections = f.gateway.clone();
    apply_role_sections(&mut f);
    assert!(f.control_plane.enabled);
    assert_eq!(f.control_plane.mode, ControlPlaneMode::Xds);
    assert_eq!(f.control_plane.listen, "0.0.0.0:30000");
    assert_eq!(f.control_plane.token.as_deref(), Some("tok"));
    assert_eq!(f.control_plane.trusted_source_cidrs, vec!["10.0.0.0/8".to_string()]);
    assert_eq!(f.ha.watch_interval_secs, 9);
    assert_eq!(f.network.vxlan_dev, "vx-gw");
    assert_eq!(f.network.underlay_dev, "eth0");
    assert_eq!(f.api.listen, "0.0.0.0:8080");
    assert_eq!(f.gateway, sections);
}

#[test]
fn a_gateway_control_plane_section_wins_over_its_xds_section() {
    let mut f = base(NodeRole::Gateway);
    f.gateway.xds = Some(GatewayXds { listen: "0.0.0.0:30000".to_string(), token: None, trusted_source_cidrs: Vec::new() });
    f.gateway.control_plane = Some(control_plane("1.2.3.4:1"));
    apply_role_sections(&mut f);
    assert!(!f.control_plane.enabled);
    assert_eq!(f.control_plane.listen, "1.2.3.4:1");
}

#[test]
fn backend_xds_section_builds_the_gateway_inventory() {
    let mut f = base(NodeRole::Backend);
    f.backend.xds = Some(BackendXds {
        gateways: vec!["192.168.0.12:22222".to_string(), "bad".to_string(), "not-an-ip:1".to_string(), "192.168.0.16:3".to_string()],
        gateway: String::new(),
        token: Some("t".to_string()),
        reconnect_interval_secs: 7,
    });
    apply_role_sections(&mut f);
    assert_eq!(f.ha.active_source, ActiveSource::Xds);
    assert_eq!(f.ha.watch_interval_secs, 7);
    assert!(f.control_plane.enabled);
    assert_eq!(f.control_plane.mode, ControlPlaneMode::Xds);
    assert_eq!(f.control_plane.token.as_deref(), Some("t"));
    assert_eq!(f.control_plane.gateway_port, Some(22222));
    assert_eq!(
        f.gateway_nodes,
        vec![
            GatewayNode {
                name: "gateway-1".to_string(),
                public_ip: IpAddress::V4(0),
                underlay_ip: IpAddress::V4(0xc0a8_000c),
                overlay_ip: "10.255.255.1/24".to_string(),
            },
            GatewayNode {
                name: "gateway-4".to_string(),
                public_ip: IpAddress::V4(0),
                underlay_ip: IpAddress::V4(0xc0a8_0010),
                overlay_ip: "10.255.255.1/24".to_string(),
            },
        ]
    );
}

#[test]
fn backend_keeps_a_configured_inventory_and_folds_its_other_sections() {
    let mut f = base(NodeRole::Backend);
    f.gateway_nodes = vec![GatewayNode {
        name: "gw".to_string(),
        public_ip: IpAddress::V4(1),
        underlay_ip: IpAddress::V4(2),
        overlay_ip: "10.0.0.1/24".to_string(),
    }];
    f.backend.xds = Some(BackendXds {
        gateways: Vec::new(),
        gateway: "192.168.0.12:22222".to_string(),
        token: None,
        reconnect_interval_secs: 3,
    });
    f.backend.return_path = Some(ReturnPathSection {
        vxlan_dev: "vx-be".to_string(),
        ct_mark: "0x2".to_string(),
        fwmark: "0x2/0xff".to_string(),
        route_table: "rt".to_string(),
        route_table_id: 200,
        rule_priority: 2000,
        nft_table: "tbl".to_string(),
        mss: 1300,
    });
    f.backend.control = Some(BackendControl { source: ActiveSource::File, reconnect_interval_secs: 11 });
    apply_role_sections(&mut f);
    assert_eq!(f.gateway_nodes.len(), 1);
    assert_eq!(f.control_plane.gateway_port, None);
    assert_eq!(f.network.vxlan_dev, "vx-be");
    assert_eq!(f.backend.route_table_id, 200);
    assert_eq!(f.backend.mss, 1300);
    assert_eq!(f.backend.nft_table, "tbl");
    assert_eq!(f.ha.active_source, ActiveSource::File);
    assert_eq!(f.ha.watch_interval_secs, 11);
}

#[test]
fn host_port_and_auto_device_helpers() {
    assert_eq!(split_host_port_text("10.0.0.1:80"), Some(("10.0.0.1".to_string(), 80)));
    assert_eq!(split_host_port_text("a:b:8080"), Some(("a:b".to_string(), 8080)));
    assert_eq!(split_host_port_text("10.0.0.1:70000"), None);
    assert_eq!(split_host_port_text("10.0.0.1"), None);
    assert!(underlay_dev_is_auto("  AUTO "));
    assert!(underlay_dev_is_auto(""));
    assert!(!underlay_dev_is_auto("eth0"));
}
