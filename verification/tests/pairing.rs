use edge_lb::ha::GatewayIdentity;
use edge_lb::route_msg::IpAddress;
use edge_lb::pairing::{
    advertised_addr, local_identity, normalize_endpoint, pairing_precheck, LocalGatewaySettings,
    PairedGateway, PairingError,
};

fn settings() -> LocalGatewaySettings {
    LocalGatewaySettings {
        node_name: "gw-a".to_string(),
        underlay_ip: IpAddress::V4(0xc000_0201),
        public_ip: "203.0.113.7".to_string(),
        api_listen: "0.0.0.0:18080".to_string(),
        xds_listen: "192.0.2.9:18000".to_string(),
        overlay_cidr: "10.255.0.0/16".to_string(),
        overlay_ip: "10.255.0.1".to_string(),
        dscp: 46,
        vni: 4242,
        vxlan_port: 4789,
        mtu: 1450,
        version: "1.2.3".to_string(),
    }
}

#[test]
fn unspecified_listen_address_is_advertised_as_the_underlay() {
    let gw = IpAddress::V4(0xc000_0201);
    assert_eq!(advertised_addr("0.0.0.0:18080", gw), "192.0.2.1:18080");
    assert_eq!(advertised_addr("192.0.2.9:18000", gw), "192.0.2.9:18000");
    assert_eq!(advertised_addr("localhost:80", gw), "localhost:80");
    assert_eq!(advertised_addr("1.2.3.4:99999", gw), "1.2.3.4:99999");
}

#[test]
fn ipv6_listen_addresses_are_advertised_without_brackets() {
    let v6 = IpAddress::V6(0x2001_0db8_0000_0000_0000_0000_0000_0007);
    assert_eq!(advertised_addr("[::]:18080", v6), "2001:db8::7:18080");
    assert_eq!(advertised_addr("[::]:18080", IpAddress::V4(0xc000_0201)), "192.0.2.1:18080");
    assert_eq!(advertised_addr("[2001:db8::9]:443", v6), "2001:db8::9:443");
    assert_eq!(advertised_addr("[fe80::1%2]:80", v6), "fe80::1:80");
    assert_eq!(advertised_addr("0.0.0.0:80", v6), "2001:db8::7:80");
    assert_eq!(advertised_addr("[::1]", v6), "[::1]");
    assert_eq!(advertised_addr("[fe80::1%x]:80", v6), "[fe80::1%x]:80");
    assert_eq!(advertised_addr("::1:80", v6), "::1:80");
}

#[test]
fn local_identity_announces_settings_and_capabilities() {
    let id = local_identity(&settings());
    assert_eq!(id.name, "gw-a");
    assert_eq!(id.underlay_ip, "192.0.2.1");
    assert_eq!(id.api_addr, "192.0.2.1:18080");
    assert_eq!(id.xds_addr, "192.0.2.9:18000");
    assert_eq!(id.capabilities, vec!["ha.active_backup", "ha.peer_token", "vip.l2", "vip.bgp", "vip.hook"]);
    let shown: PairedGateway = PairedGateway::from(id.clone());
    assert_eq!(shown.name, id.name);
    assert_eq!(shown.vni, 4242);
}

#[test]
fn pairing_needs_a_gateway_and_a_token() {
    assert_eq!(pairing_precheck(false, "t"), Err(PairingError::NotAGateway));
    assert_eq!(pairing_precheck(true, "  "), Err(PairingError::MissingBootstrapToken));
    assert_eq!(pairing_precheck(true, "token"), Ok(()));
    assert_eq!(PairingError::MissingBootstrapToken.message(), "bootstrap_token is required");
}

#[test]
fn endpoints_get_a_scheme() {
    assert_eq!(normalize_endpoint("10.0.0.2:18000"), "http://10.0.0.2:18000");
    assert_eq!(normalize_endpoint("https://peer:18000"), "https://peer:18000");
    let _unused: Option<GatewayIdentity> = None;
}
