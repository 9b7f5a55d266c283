use edge_lb::ipnet::parse_ipv4;
use edge_lb::nft::{hex_chars, return_marks, ruleset};
use edge_lb::route::{return_mark, return_table_id};
use edge_lb::route_msg::IpAddress;
use edge_lb::snapshot::ReturnPathConfig;

fn v4(s: &str) -> IpAddress {
    IpAddress::V4(parse_ipv4(s).unwrap())
}

fn path(dscp: u32, slot: u32, overlay: Option<&str>) -> ReturnPathConfig {
    ReturnPathConfig {
        gateway: Some("gateway-a".to_string()),
        gateway_underlay_ip: v4("192.0.2.1"),
        gateway_overlay_ip: v4("10.44.0.1"),
        backend_overlay_ip: overlay.map(|o| o.to_string()),
        dscp,
        mark: return_mark(dscp, slot),
        route_table_id: return_table_id(dscp, slot),
    }
}

#[test]
fn udp_reply_repair_is_derived_from_ingress_dscp_not_service_ports() {
    let paths = vec![path(46, 0, Some("10.44.0.2/24"))];
    let rules = ruleset("edge-return", "edge_lb", 1360, &paths);
    assert!(rules.contains("iifname \"edge-return\" ip dscp 46"));
    assert!(rules.contains("update @udp_reply_106e { ip saddr . udp sport timeout 30s }"));
    assert!(rules.contains("ip daddr . udp dport @udp_reply_106e"));
    assert!(rules.contains("ip saddr set 10.44.0.2"));
    assert!(!rules.contains("8080"));
}

#[test]
fn ruleset_replaces_the_table_and_clamps_mss() {
    let rules = ruleset("edge-return", "edge_lb", 1360, &Vec::new());
    assert!(rules.starts_with("table inet edge_lb\ndelete table inet edge_lb\n\ntable inet edge_lb {\n"));
    assert!(rules.contains("oifname \"edge-return\" tcp flags & (fin | syn | rst | ack) == syn counter tcp option maxseg size set 1360\n"));
    assert!(rules.ends_with("}\n}\n"));
    assert!(!rules.contains("udp_reply_"));
}

#[test]
fn path_without_ipv4_overlay_gets_steering_only() {
    let paths = vec![path(40, 1, None), path(46, 0, Some("fd00::2/64"))];
    let rules = ruleset("edge-return", "edge_lb", 1360, &paths);
    assert!(rules.contains("        iifname \"edge-return\" ip dscp 40 counter ct mark set 0x10a8\n"));
    assert!(rules.contains("        iifname \"edge-return\" ip dscp 46 counter ct mark set 0x106e\n"));
    assert!(!rules.contains("udp_reply_"));
    assert!(rules.contains("        ct mark 0x106e ct direction reply counter meta mark set 0x106e\n        ct mark 0x10a8"));
}

#[test]
fn reply_marks_are_sorted_and_distinct() {
    let paths = vec![path(46, 1, None), path(46, 0, None), path(46, 1, None)];
    assert_eq!(return_marks(&paths), vec![0x106e, 0x10ae]);
    assert_eq!(hex_chars(0x106e).into_iter().collect::<String>(), "106e");
    assert_eq!(hex_chars(0).into_iter().collect::<String>(), "0");
}
