use edge_lb::gateway_nodes::gateway_nodes_effective;
use edge_lb::ha::GatewayHaPeer;
use edge_lb::ipnet::parse_ipv4;
use edge_lb::overlay::GatewayNode;
use edge_lb::route_msg::IpAddress;

fn v4(s: &str) -> IpAddress {
    IpAddress::V4(parse_ipv4(s).unwrap())
}

fn node(name: &str, underlay: &str) -> GatewayNode {
    GatewayNode { name: name.to_string(), public_ip: v4(underlay), underlay_ip: v4(underlay), overlay_ip: "10.255.0.1".to_string() }
}

fn peer(name: &str, underlay: &str, public: Option<&str>, overlay: Option<&str>) -> GatewayHaPeer {
    GatewayHaPeer {
        name: name.to_string(),
        underlay_ip: underlay.to_string(),
        public_ip: public.map(|s| s.to_string()),
        api_addr: None,
        xds_addr: None,
        overlay_cidr: None,
        overlay_ip: overlay.map(|s| s.to_string()),
        dscp: None,
        vni: None,
        vxlan_port: None,
        mtu: None,
        version: None,
        capabilities: Vec::new(),
    }
}

#[test]
fn peers_replace_or_extend_the_configured_gateways() {
    let nodes = vec![node("gw-a", "192.0.2.1"), node("gw-old", "192.0.2.2")];
    let peers = vec![
        peer("gw-b", " 192.0.2.2 ", Some("203.0.113.9"), Some(" 10.255.0.2 ")),
        peer("gw-c", "192.0.2.3", Some("bad"), Some("  ")),
        peer("gw-x", "not-an-ip", None, None),
    ];
    let out = gateway_nodes_effective(nodes.clone(), true, Some(&peers), "10.255.0.1");
    assert_eq!(out.len(), 3);
    assert_eq!(out[1].name, "gw-b");
    assert_eq!(out[1].public_ip, v4("203.0.113.9"));
    assert_eq!(out[1].overlay_ip, "10.255.0.2");
    assert_eq!(out[2].name, "gw-c");
    assert_eq!(out[2].public_ip, v4("192.0.2.3"));
    assert_eq!(out[2].overlay_ip, "10.255.0.1");
    assert_eq!(gateway_nodes_effective(nodes.clone(), false, Some(&peers), "10.255.0.1"), nodes);
    assert_eq!(gateway_nodes_effective(nodes.clone(), true, None, "10.255.0.1"), nodes);
}
