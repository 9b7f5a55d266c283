use edge_lb::ha::{GatewayHaPeer, GatewayHaRuntimeConfig};
use edge_lb::ha_write::{peer_api_base, write_role, WriteRole};

fn peer(api_addr: Option<&str>) -> GatewayHaPeer {
    GatewayHaPeer {
        name: "gateway-b".to_string(),
        underlay_ip: "192.168.0.16".to_string(),
        api_addr: api_addr.map(str::to_string),
        ..GatewayHaPeer::default()
    }
}

#[test]
fn peer_api_base_defaults_to_the_underlay_api_port() {
    assert_eq!(peer_api_base(&peer(None)), "http://192.168.0.16:18080");
    assert_eq!(peer_api_base(&peer(Some("  "))), "http://192.168.0.16:18080");
}

#[test]
fn peer_api_base_keeps_a_scheme_and_drops_trailing_slashes() {
    assert_eq!(peer_api_base(&peer(Some("https://gw-b:8443//"))), "https://gw-b:8443");
    assert_eq!(peer_api_base(&peer(Some(" 10.0.0.2:9000/ "))), "http://10.0.0.2:9000");
}

#[test]
fn write_role_follows_the_active_gateway() {
    let off = GatewayHaRuntimeConfig::default();
    assert_eq!(write_role(&off, false), Ok(WriteRole::LocalMaster(None)));

    let on = GatewayHaRuntimeConfig {
        enabled: true,
        peers: vec![peer(None)],
        ..GatewayHaRuntimeConfig::default()
    };
    assert_eq!(write_role(&on, true), Ok(WriteRole::LocalMaster(Some(peer(None)))));
    assert_eq!(write_role(&on, false), Ok(WriteRole::Backup(peer(None))));

    let lonely = GatewayHaRuntimeConfig { enabled: true, ..GatewayHaRuntimeConfig::default() };
    assert!(write_role(&lonely, false).is_err());
    assert_eq!(write_role(&lonely, true), Ok(WriteRole::LocalMaster(None)));
}
