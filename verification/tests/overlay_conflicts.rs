use edge_lb::ipnet::{parse_ipv4, Ipv4Net};
use edge_lb::control::NodeConflict;
use edge_lb::overlay_conflicts::{
    inspect_backend, overlay_address_conflicts, overlay_route_conflicts, parse_ip_addr_show, planned_overlay_addrs,
    planned_overlay_ips, planned_overlay_networks, InterfaceAddr,
};

#[test]
fn parses_ip_addr_show_lines() {
    let addrs = parse_ip_addr_show(
        "2: eth0    inet 192.168.0.14/24 brd 192.168.0.255 scope global eth0\n\
         8: edge-return    inet 10.255.12.2/24 scope global edge-return\n",
    );
    assert_eq!(addrs.len(), 2);
    assert_eq!(addrs[0].dev, "eth0");
    assert!(addrs[0].network.contains_ip(parse_ipv4("192.168.0.20").unwrap()));
}

#[test]
fn ip_addr_show_skips_lines_without_inet() {
    let addrs = parse_ip_addr_show(
        "1: lo    inet6 ::1/128 scope host\n3: eth1:    inet 10.0.0.5/8 scope global eth1\nnoise\n",
    );
    assert_eq!(addrs.len(), 1);
    assert_eq!(addrs[0].dev, "eth1");
    assert_eq!(addrs[0].raw, "10.0.0.5/8");
    assert_eq!(addrs[0].network.prefix, 8);
    assert_eq!(addrs[0].network.network, 0x0a00_0000);
}

#[test]
fn planned_addresses_are_sorted_and_distinct() {
    let paths = vec![Some("10.255.9.2/24".to_string()), None, Some("10.255.1.2/24".to_string())];
    let addrs = planned_overlay_addrs(Some("10.255.9.2/24".to_string()), &paths);
    assert_eq!(addrs, vec!["10.255.1.2/24".to_string(), "10.255.9.2/24".to_string()]);
    assert_eq!(planned_overlay_ips(&addrs), vec!["10.255.1.2".to_string(), "10.255.9.2".to_string()]);
}

#[test]
fn planned_networks_hold_the_overlay_and_each_address_once() {
    let addrs = vec!["10.255.9.2/24".to_string(), "10.255.9.7/24".to_string(), "bad".to_string()];
    let nets = planned_overlay_networks("10.255.0.0/16", &addrs);
    assert_eq!(nets.len(), 2);
    assert_eq!(nets[0], Ipv4Net::parse("10.255.0.0/16").unwrap());
    assert_eq!(nets[1], Ipv4Net::parse("10.255.9.0/24").unwrap());
}

fn iface(dev: &str, raw: &str) -> InterfaceAddr {
    InterfaceAddr { dev: dev.to_string(), network: Ipv4Net::parse(raw).unwrap(), raw: raw.to_string() }
}

#[test]
fn overlapping_interface_is_reported_once_per_network() {
    let planned = vec![Ipv4Net::parse("10.255.0.0/16").unwrap()];
    let ips = vec!["10.255.12.2".to_string()];
    let existing = vec![iface("eth1", "10.255.12.9/24"), iface("edge-vxlan", "10.255.12.2/24"), iface("eth0", "192.168.0.4/24")];
    let out = overlay_address_conflicts("edge-vxlan", &planned, &ips, &existing);
    assert_eq!(out.len(), 2);
    assert_eq!(out[0].severity, "warning");
    assert_eq!(out[0].kind, "overlay_cidr");
    assert_eq!(out[0].subject, "10.255.12.9/24");
    assert_eq!(out[0].detail, "planned overlay network overlaps interface eth1 address 10.255.12.9/24");
    assert_eq!(out[1].kind, "overlay_ip");
    assert_eq!(out[1].subject, "10.255.12.2");
    assert_eq!(out[1].detail, "planned overlay IP belongs to interface eth1 address 10.255.12.9/24");
}

#[test]
fn routes_of_own_devices_and_defaults_are_not_conflicts() {
    let planned = vec![Ipv4Net::parse("10.255.0.0/16").unwrap()];
    let routes = vec![
        "default via 192.0.2.1 dev eth0".to_string(),
        "10.255.12.0/24 dev edge-vxlan proto kernel".to_string(),
        "10.255.16.0/24 dev edge-return proto kernel".to_string(),
        "10.255.20.0/24 dev eth1 proto static".to_string(),
        "192.168.0.0/24 dev eth0 proto kernel".to_string(),
    ];
    let out = overlay_route_conflicts(&routes, &planned, "edge-vxlan", Some("edge-return"));
    assert_eq!(out.len(), 1);
    assert_eq!(out[0].kind, "overlay_route");
    assert_eq!(out[0].subject, "10.255.20.0/24");
    assert_eq!(out[0].detail, "main route overlaps planned overlay network: 10.255.20.0/24 dev eth1 proto static");
    assert!(overlay_route_conflicts(&routes, &Vec::new(), "edge-vxlan", None).is_empty());
}

#[test]
fn no_planned_network_means_no_address_conflict() {
    let ips = vec!["10.255.12.2".to_string()];
    let existing = vec![iface("eth1", "10.255.12.9/24")];
    assert!(overlay_address_conflicts("edge-vxlan", &Vec::new(), &ips, &existing).is_empty());
}

#[test]
fn inspection_appends_ownership_result() {
    let existing = vec![iface("eth1", "10.255.12.9/24")];
    let routes = vec!["10.255.20.0/24 dev eth1 proto static".to_string()];
    let out = inspect_backend(
        "edge-vxlan",
        None,
        "10.255.0.0/16",
        Some("10.255.12.2/24".to_string()),
        &Vec::new(),
        &existing,
        &routes,
        Err("netlink unavailable".to_string()),
    );
    let kinds: Vec<&str> = out.iter().map(|c| c.kind.as_str()).collect();
    assert_eq!(kinds, vec!["overlay_cidr", "overlay_cidr", "overlay_ip", "overlay_route", "route_ownership"]);
    assert_eq!(out[4].subject, "inspection");
    assert_eq!(out[4].detail, "cannot verify route ownership: netlink unavailable");
    let owned = vec![NodeConflict::warning("route_ownership".to_string(), "table 28046".to_string(), "foreign".to_string())];
    let none = inspect_backend("edge-vxlan", None, "", None, &Vec::new(), &existing, &routes, Ok(owned));
    assert_eq!(none.len(), 1);
    assert_eq!(none[0].subject, "table 28046");
}
