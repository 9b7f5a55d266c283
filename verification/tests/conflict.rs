use edge_lb::ipnet::{format_ipv4, is_edge_lb_overlay_device, parse_ipv4, route_destination_network, Ipv4Net};

#[test]
fn parses_route_destination_networks() {
    assert_eq!(route_destination_network("10.255.12.0/24 dev eth1 proto kernel").unwrap().prefix, 24);
    assert_eq!(route_destination_network("10.255.12.9 dev eth1 scope link").unwrap().prefix, 32);
    assert!(route_destination_network("default via 192.0.2.1 dev eth0").is_none());
}

#[test]
fn managed_backend_return_device_is_not_an_overlay_conflict() {
    let vxlan_dev = "";
    let return_dev = Some("edge-return");
    assert!(is_edge_lb_overlay_device(
        vxlan_dev,
        return_dev,
        "10.255.16.0/24 dev edge-return proto kernel scope link src 10.255.16.2"
    ));
    assert!(!is_edge_lb_overlay_device(vxlan_dev, return_dev, "10.255.16.0/24 dev eth0 proto static"));
    assert!(is_edge_lb_overlay_device(
        vxlan_dev,
        return_dev,
        "10.255.16.0/24 dev edge-return(3) src 10.255.16.2 table 254"
    ));
}

#[test]
fn ipv4_overlap_detects_nested_networks() {
    let a = Ipv4Net::parse("10.255.0.0/16").unwrap();
    let b = Ipv4Net::parse("10.255.12.2/24").unwrap();
    let c = Ipv4Net::parse("192.168.0.1/24").unwrap();
    assert!(a.overlaps(&b));
    assert!(!a.overlaps(&c));
}

#[test]
fn overlap_is_symmetric_for_nested_networks() {
    let wide = Ipv4Net::parse("10.0.0.0/8").unwrap();
    let narrow = Ipv4Net::parse("10.1.0.0/16").unwrap();
    let other = Ipv4Net::parse("192.168.0.0/16").unwrap();
    assert!(wide.overlaps(&narrow));
    assert!(narrow.overlaps(&wide));
    assert!(!wide.overlaps(&other));
}

#[test]
fn dotted_quads_round_trip() {
    assert_eq!(parse_ipv4("192.168.0.12"), Some(0xc0a8_000c));
    assert_eq!(format_ipv4(0xc0a8_000c), "192.168.0.12");
    assert_eq!(parse_ipv4("192.168.0.012"), None);
    assert_eq!(parse_ipv4("256.0.0.1"), None);
    assert_eq!(parse_ipv4("1.2.3"), None);
}

#[test]
fn auto_return_device_is_not_a_device_name() {
    assert!(!is_edge_lb_overlay_device("", Some("auto"), "10.0.0.0/24 dev auto"));
    assert!(is_edge_lb_overlay_device("edge-vxlan", None, "10.0.0.0/24 dev edge-vxlan"));
}
