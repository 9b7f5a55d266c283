use edge_lb::discovery::{
    clamp_backend_mss, conservative_vxlan_mtu, pmtu_peers, resolve_auto_vxlan_mtu, vxlan_mtu_is_explicit,
    vxlan_overhead, MtuTooSmall,
};
use edge_lb::file_config::{
    ActiveSource, ApiConfig, BackendSection, ControlPlaneConfig, ControlPlaneMode, FileConfig, GatewaySection,
    HaSettings, NetworkConfig, NodeRole,
};
use edge_lb::route_msg::IpAddress;

#[test]
fn auto_mtu_does_not_infer_jumbo_support_from_local_mtu() {
    for routes in [vec![], vec![9000], vec![9000, 1500]] {
        assert_eq!(conservative_vxlan_mtu(9000, 50, &routes).unwrap(), 1450);
    }
    assert_eq!(conservative_vxlan_mtu(1500, 50, &[]).unwrap(), 1450);
}

#[test]
fn auto_mtu_respects_smallest_known_bound_and_ipv6_overhead() {
    assert_eq!(conservative_vxlan_mtu(1400, 50, &[1500]).unwrap(), 1350);
    assert_eq!(conservative_vxlan_mtu(1500, 50, &[1400, 1300]).unwrap(), 1250);
    assert_eq!(conservative_vxlan_mtu(1500, 70, &[]).unwrap(), 1430);
    assert_eq!(conservative_vxlan_mtu(9000, 70, &[1300]).unwrap(), 1230);
}

#[test]
fn too_small_mtu_is_rejected_instead_of_increased() {
    for overhead in [50, 70] {
        assert_eq!(conservative_vxlan_mtu(576 + overhead, overhead, &[]).unwrap(), 576);
        for bound in [0, overhead, 575 + overhead] {
            assert!(conservative_vxlan_mtu(bound, overhead, &[]).is_err());
            assert!(conservative_vxlan_mtu(1500, overhead, &[bound]).is_err());
        }
    }
}

#[test]
fn too_small_mtu_reports_the_bound_and_overhead() {
    assert_eq!(
        conservative_vxlan_mtu(1500, 50, &[600]),
        Err(MtuTooSmall { outer: 600, overhead: 50 })
    );
}

#[test]
fn ipv6_peers_use_the_larger_overhead() {
    assert_eq!(vxlan_overhead(false), 50);
    assert_eq!(vxlan_overhead(true), 70);
}

#[test]
fn mss_is_clamped_to_the_vxlan_mtu_but_never_raised() {
    let mut mss = 8960;
    clamp_backend_mss(&mut mss, 1450);
    assert_eq!(mss, 1410);
    let mut small = 1200;
    clamp_backend_mss(&mut small, 1450);
    assert_eq!(small, 1200);
}

fn default_file() -> FileConfig {
    FileConfig {
        node_role: NodeRole::Gateway,
        control_plane: ControlPlaneConfig {
            enabled: false,
            mode: ControlPlaneMode::File,
            listen: "0.0.0.0:22222".to_string(),
            gateway_port: None,
            token: None,
            trusted_source_cidrs: Vec::new(),
        },
        ha: HaSettings { active_source: ActiveSource::File, watch_interval_secs: 5 },
        network: NetworkConfig {
            gateway_public_ip: IpAddress::V4(0),
            gateway_ip: IpAddress::V4(0),
            standby_gateway_ip: None,
            backend_public_ip: None,
            backend_ip: None,
            overlay_cidr: "10.255.255.0/24".to_string(),
            underlay_dev: "auto".to_string(),
            vxlan_dev: "auto".to_string(),
            vni: 100,
            vxlan_port: 4789,
            vxlan_mtu: 0,
            vxlan_mtu_auto: true,
            dscp: 46,
        },
        api: ApiConfig { listen: "127.0.0.1:18080".to_string(), auth_token: None },
        gateway: GatewaySection { xds: None, reconcile: None, control_plane: None, network: None, api: None },
        backend: BackendSection {
            xds: None,
            return_path: None,
            control: None,
            control_plane: None,
            network: None,
            api: None,
            ct_mark: "0x1".to_string(),
            fwmark: "0x1/0xff".to_string(),
            route_table: "edge".to_string(),
            route_table_id: 100,
            rule_priority: 1000,
            nft_table: "edge_lb".to_string(),
            mss: 1410,
        },
        gateway_nodes: Vec::new(),
    }
}

#[test]
fn explicit_mtu_does_not_query_missing_device_or_change_mss() {
    let mut file = default_file();
    file.network.vxlan_mtu = 8950;
    file.network.vxlan_mtu_auto = false;
    file.network.underlay_dev = "missing-mtu-dev".into();
    let mss = file.backend.mss;
    assert!(vxlan_mtu_is_explicit(&file.network));
    resolve_auto_vxlan_mtu(&mut file, IpAddress::V4(0), &[], None, &[]).unwrap();
    assert_eq!(file.network.vxlan_mtu, 8950);
    assert_eq!(file.backend.mss, mss);
}

#[test]
fn missing_device_fallback_and_mss_are_conservative() {
    let mut file = default_file();
    file.network.vxlan_mtu = 0;
    file.network.underlay_dev = "missing-mtu-dev".into();
    file.backend.mss = 8960;
    resolve_auto_vxlan_mtu(&mut file, IpAddress::V4(0), &[], None, &[]).unwrap();
    assert_eq!(file.network.vxlan_mtu, 1450);
    assert!(file.network.vxlan_mtu_auto);
    assert_eq!(file.backend.mss, 1410);
    file.backend.mss = 1200;
    clamp_backend_mss(&mut file.backend.mss, 1450);
    assert_eq!(file.backend.mss, 1200);
}

#[test]
fn pmtu_peers_skip_unspecified_local_and_repeated_addresses() {
    let local = IpAddress::V4(0x0a00_0001);
    let peers = pmtu_peers(
        local,
        &[
            IpAddress::V4(0x0a00_0002),
            IpAddress::V4(0),
            local,
            IpAddress::V4(0x0a00_0002),
            IpAddress::V6(1),
            IpAddress::V6(0),
        ],
    );
    assert_eq!(peers, vec![IpAddress::V4(0x0a00_0002), IpAddress::V6(1)]);
}

#[test]
fn ipv6_peer_and_route_mtus_lower_the_automatic_mtu() {
    let mut file = default_file();
    file.backend.mss = 1460;
    let local = IpAddress::V4(0x0a00_0001);
    resolve_auto_vxlan_mtu(&mut file, local, &[IpAddress::V6(5)], Some(9000), &[]).unwrap();
    assert_eq!(file.network.vxlan_mtu, 1430);
    assert_eq!(file.backend.mss, 1390);

    let mut file = default_file();
    resolve_auto_vxlan_mtu(&mut file, local, &[IpAddress::V4(0x0a00_0002)], Some(9000), &[1400]).unwrap();
    assert_eq!(file.network.vxlan_mtu, 1350);
    assert!(file.network.vxlan_mtu_auto);
}

#[test]
fn too_small_an_underlay_changes_nothing() {
    let mut file = default_file();
    let before = file.clone();
    let r = resolve_auto_vxlan_mtu(&mut file, IpAddress::V4(0x0a00_0001), &[], Some(600), &[]);
    assert_eq!(r, Err(MtuTooSmall { outer: 600, overhead: 50 }));
    assert_eq!(file, before);
}
