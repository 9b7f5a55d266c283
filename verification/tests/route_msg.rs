use edge_lb::ipnet::parse_ipv4;
use edge_lb::netlink::{NetlinkError, AF_INET, AF_INET6};
use edge_lb::policy_routing::{
    default_entry, entry_is_ours_by_shape, expected_table_entries, host_entry, plan_cleanup, plan_rules,
    plan_table, policy_rule_present, route_reconcile_plan, ReturnRoute,
};
use edge_lb::route::PolicyRule;
use edge_lb::route_msg::{
    delete_rule_body, netlink_message, parse_policy_rule, parse_route_entry, push_attr, push_attr_ip, push_attr_u32,
    route_body, route_entry_body, rule_body, scan_request_ack, scan_route_dump, scan_rule_dump, IpAddress, RouteEntry,
    RTA_DST, RTA_OIF, RTA_PREFSRC, RTA_TABLE, RTM_NEWROUTE, RTM_NEWRULE, RT_SCOPE_LINK,
};

fn v4(ip: &str) -> IpAddress {
    IpAddress::V4(parse_ipv4(ip).unwrap())
}

#[test]
fn shape_predicate_recognizes_only_edge_lb_routes() {
    let local = v4("192.168.0.14");
    assert!(entry_is_ours_by_shape(&default_entry(1064, v4("10.255.16.1"), 11), 11, 2, local));
    assert!(entry_is_ours_by_shape(&host_entry(1064, v4("192.168.0.12"), 2, local), 11, 2, local));
    // A default route on the underlay device is not edge-lb-owned.
    assert!(!entry_is_ours_by_shape(
        &RouteEntry {
            family: AF_INET,
            table: 100,
            dst_len: 0,
            dst: None,
            gateway: Some(v4("192.168.0.1")),
            oif: Some(2),
            prefsrc: None,
        },
        11,
        2,
        local
    ));
    // A stale default route on the VXLAN device is still edge-lb-owned.
    assert!(entry_is_ours_by_shape(
        &RouteEntry {
            family: AF_INET,
            table: 1064,
            dst_len: 0,
            dst: None,
            gateway: Some(v4("10.255.20.1")),
            oif: Some(11),
            prefsrc: None,
        },
        11,
        2,
        local
    ));
}

#[test]
fn parses_route_entry_extended_table_attr() {
    let mut body = route_body(1001, AF_INET, 32, RT_SCOPE_LINK);
    push_attr_ip(&mut body, RTA_DST, v4("192.168.0.12"));
    push_attr_u32(&mut body, RTA_OIF, 2);
    push_attr_ip(&mut body, RTA_PREFSRC, v4("192.168.0.14"));
    push_attr_u32(&mut body, RTA_TABLE, 1001);

    let route = parse_route_entry(&body).unwrap();
    assert_eq!(route.table, 1001);
    assert_eq!(route.dst, Some(v4("192.168.0.12")));
    assert_eq!(route.oif, Some(2));
    assert_eq!(route.prefsrc, Some(v4("192.168.0.14")));
}

#[test]
fn route_entry_body_parses_back_to_the_same_route() {
    let host = host_entry(28010, v4("192.168.0.12"), 2, v4("192.168.0.14"));
    assert_eq!(parse_route_entry(&route_entry_body(&host)), Ok(host));
    let default = default_entry(28010, v4("10.255.16.1"), 11);
    assert_eq!(parse_route_entry(&route_entry_body(&default)), Ok(default));
    let v6 = host_entry(7, IpAddress::V6(0x2001_0db8_0000_0000_0000_0000_0000_0001), 3, IpAddress::V6(5));
    let parsed = parse_route_entry(&route_entry_body(&v6)).unwrap();
    assert_eq!(parsed, v6);
    assert_eq!(parsed.family, AF_INET6);
    assert_eq!(parsed.dst_len, 128);
}

#[test]
fn attributes_are_padded_to_four_bytes() {
    let mut buf = vec![1u8];
    push_attr(&mut buf, 9, &[7, 8, 9]);
    assert_eq!(buf, vec![1, 7, 0, 9, 0, 7, 8, 9]);
    let mut buf2: Vec<u8> = Vec::new();
    push_attr(&mut buf2, 3, &[5]);
    assert_eq!(buf2, vec![5, 0, 3, 0, 5, 0, 0, 0]);
}

#[test]
fn short_route_entries_and_attributes_are_errors() {
    assert_eq!(parse_route_entry(&[0u8; 11]), Err(NetlinkError::ShortEntry));
    let mut body = route_body(5, AF_INET, 0, 0);
    body.extend_from_slice(&[9, 0, 1, 0]);
    assert_eq!(parse_route_entry(&body), Err(NetlinkError::ShortAttribute));
    let bare = parse_route_entry(&route_body(5, AF_INET, 0, 0)).unwrap();
    assert_eq!(bare.table, 5);
    assert_eq!(bare.dst, None);
}

#[test]
fn policy_rules_parse_from_their_request_bodies() {
    let rule = parse_policy_rule(&rule_body(0x106e, 0xffff_ffff, 120, 28046)).unwrap();
    assert_eq!(rule, PolicyRule { priority: 120, mark: Some(0x106e), mask: Some(0xffff_ffff), table: 28046 });
    let del = PolicyRule { priority: 7, mark: None, mask: None, table: 100 };
    assert_eq!(parse_policy_rule(&delete_rule_body(&del)), Some(del));
    // Only IPv4 rules that look a table up are rules of ours to read.
    let mut other = rule_body(1, 1, 1, 1);
    other[7] = 2;
    assert_eq!(parse_policy_rule(&other), None);
    let mut v6 = rule_body(1, 1, 1, 1);
    v6[0] = AF_INET6;
    assert_eq!(parse_policy_rule(&v6), None);
    // A priority attribute too short to read drops the rule.
    let mut short = rule_body(1, 1, 1, 1)[..12].to_vec();
    push_attr(&mut short, 6, &[1, 2]);
    assert_eq!(parse_policy_rule(&short), None);
}

fn done(seq: u32) -> Vec<u8> {
    netlink_message(3, 0, &[0, 0, 0, 0], seq)
}

#[test]
fn rule_dump_collects_rules_of_its_request_until_done() {
    let mut buf = netlink_message(RTM_NEWRULE, 0, &rule_body(1, 2, 3, 4), 1);
    buf.extend(netlink_message(RTM_NEWRULE, 0, &rule_body(9, 9, 9, 9), 2));
    let (finished, rules) = scan_rule_dump(&buf, 1, Vec::new()).unwrap();
    assert!(!finished);
    assert_eq!(rules, vec![PolicyRule { priority: 3, mark: Some(1), mask: Some(2), table: 4 }]);
    buf.extend(done(1));
    let (finished, rules) = scan_rule_dump(&buf, 1, Vec::new()).unwrap();
    assert!(finished);
    assert_eq!(rules.len(), 1);
    let mut cut = buf.clone();
    cut.truncate(10);
    assert_eq!(scan_rule_dump(&cut, 1, Vec::new()), Ok((false, Vec::new())));
    let mut bad = netlink_message(RTM_NEWRULE, 0, &rule_body(1, 2, 3, 4), 1);
    bad[0] = 200;
    assert_eq!(scan_rule_dump(&bad, 1, Vec::new()), Err(NetlinkError::Truncated));
}

#[test]
fn route_dump_keeps_only_the_requested_table_and_reports_refusals() {
    let a = host_entry(28001, v4("192.168.0.12"), 2, v4("192.168.0.14"));
    let b = host_entry(28002, v4("192.168.0.13"), 2, v4("192.168.0.14"));
    let mut buf = netlink_message(RTM_NEWROUTE, 0, &route_entry_body(&a), 1);
    buf.extend(netlink_message(RTM_NEWROUTE, 0, &route_entry_body(&b), 1));
    buf.extend(done(1));
    assert_eq!(scan_route_dump(&buf, 1, 28001, Vec::new()), Ok((true, vec![a])));
    let refused = netlink_message(2, 0, &(-2i32).to_ne_bytes(), 1);
    assert_eq!(scan_route_dump(&refused, 1, 28001, Vec::new()), Err(NetlinkError::Os(-2)));
}

#[test]
fn ack_scan_waits_for_its_own_answer() {
    let ok = netlink_message(2, 0, &[0, 0, 0, 0], 1);
    assert_eq!(scan_request_ack(&ok, 1), Ok(true));
    assert_eq!(scan_request_ack(&ok, 2), Ok(false));
    let refused = netlink_message(2, 0, &(-17i32).to_ne_bytes(), 1);
    assert_eq!(scan_request_ack(&refused, 1), Err(NetlinkError::Os(-17)));
    let header_only = netlink_message(2, 0, &[], 1);
    assert_eq!(scan_request_ack(&header_only, 1), Err(NetlinkError::Truncated));
}

#[test]
fn table_plan_deletes_stale_and_adds_missing_routes() {
    let local = v4("192.168.0.14");
    let route = ReturnRoute { gateway_underlay: v4("192.168.0.12"), gateway_overlay: v4("10.255.16.1"), mark: 0x106e, table: 28046 };
    let expected = expected_table_entries(&route, &[v4("192.168.0.12"), v4("192.168.0.13")], 11, 2, local);
    assert_eq!(expected.len(), 3);
    assert_eq!(expected[0], default_entry(28046, v4("10.255.16.1"), 11));
    let stale_default = default_entry(28046, v4("10.255.20.1"), 11);
    let foreign = RouteEntry { family: AF_INET, table: 28046, dst_len: 24, dst: Some(v4("10.0.0.0")), gateway: None, oif: Some(7), prefsrc: None };
    let current = vec![stale_default, expected[1], foreign];
    let plan = plan_table(28046, &current, &expected, false, 11, 2, local);
    assert_eq!(plan.delete, vec![stale_default, foreign]);
    assert_eq!(plan.add, vec![expected[0], expected[2]]);
    // With the shape guard a foreign route survives.
    let guarded = plan_table(100, &current, &expected, true, 11, 2, local);
    assert_eq!(guarded.delete, vec![stale_default]);
}

#[test]
fn rule_plan_deletes_stale_rules_and_adds_missing_ones() {
    let keep = PolicyRule { priority: 100, mark: Some(0x106e), mask: Some(u32::MAX), table: 28046 };
    let stale = PolicyRule { priority: 101, mark: Some(0x10ae), mask: Some(u32::MAX), table: 28110 };
    let foreign = PolicyRule { priority: 102, mark: Some(0x4000), mask: Some(u32::MAX), table: 500 };
    let routes = vec![
        ReturnRoute { gateway_underlay: v4("192.168.0.12"), gateway_overlay: v4("10.255.16.1"), mark: 0x106e, table: 28046 },
        ReturnRoute { gateway_underlay: v4("192.168.0.13"), gateway_overlay: v4("10.255.16.2"), mark: 0x106f, table: 28047 },
    ];
    let plan = plan_rules(&vec![keep, stale, foreign], &routes, 100);
    assert_eq!(plan.delete, vec![stale]);
    assert_eq!(plan.stale_tables, vec![28110]);
    assert_eq!(plan.add.len(), 1);
    assert_eq!((plan.add[0].priority, plan.add[0].mark, plan.add[0].mask, plan.add[0].table), (101, 0x106f, u32::MAX, 28047));
    let (ours, tables) = plan_cleanup(&vec![keep, stale, foreign, keep]);
    assert_eq!(ours, vec![keep, stale, keep]);
    assert_eq!(tables, vec![28046, 28110]);
    assert!(policy_rule_present(&vec![foreign, keep], 0x106e, u32::MAX, 28046));
    assert!(!policy_rule_present(&vec![foreign, keep], 0x106e, 0xff, 28046));
}

#[test]
fn reconcile_plan_converges_route_tables_or_clears_stale_ones() {
    let keep = PolicyRule { priority: 100, mark: Some(0x106e), mask: Some(u32::MAX), table: 28046 };
    let stale = PolicyRule { priority: 101, mark: Some(0x10ae), mask: Some(u32::MAX), table: 28110 };
    // An old-range mark that points at a table outside the edge-lb range.
    let old_range = PolicyRule { priority: 103, mark: Some(0x1070), mask: Some(u32::MAX), table: 900 };
    let foreign = PolicyRule { priority: 102, mark: Some(0x4000), mask: Some(u32::MAX), table: 500 };
    let routes = vec![
        ReturnRoute { gateway_underlay: v4("192.168.0.12"), gateway_overlay: v4("10.255.16.1"), mark: 0x106e, table: 28046 },
        ReturnRoute { gateway_underlay: v4("192.168.0.13"), gateway_overlay: v4("10.255.16.2"), mark: 0x106f, table: 28047 },
    ];
    let plan = route_reconcile_plan(&vec![keep, stale, foreign], &routes, 100);
    assert_eq!(plan.delete, vec![stale]);
    assert!(plan.clear.is_empty());
    assert_eq!(plan.converge, vec![28046, 28047]);
    assert_eq!(plan.add.len(), 1);
    assert_eq!((plan.add[0].priority, plan.add[0].table), (101, 28047));

    let plan = route_reconcile_plan(&vec![keep, stale, foreign, old_range], &Vec::new(), 100);
    assert_eq!(plan.delete, vec![keep, stale, old_range]);
    assert_eq!(plan.clear, vec![(28046, false), (28110, false), (900, true)]);
    assert!(plan.converge.is_empty());
    assert!(plan.add.is_empty());
}
