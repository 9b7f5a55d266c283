use edge_lb::route::{
    parse_fwmark, parse_u32, return_mark, return_table_id, rule_is_ours_family,
    rule_is_stale_ours, PolicyRule, EDGE_CURRENT_MARK_BASE, EDGE_CURRENT_TABLE_BASE,
};

#[test]
fn parses_hex_fwmark_and_mask() {
    assert_eq!(parse_fwmark("0x1/0xff").unwrap(), (1, 255));
}

#[test]
fn parses_decimal_fwmark_and_mask() {
    assert_eq!(parse_fwmark("1/255").unwrap(), (1, 255));
}

#[test]
fn stale_rule_detection_only_touches_edge_lb_ranges() {
    let current_mark = return_mark(46, 0);
    let current_table = return_table_id(46, 0);
    let stale_peer_mark = return_mark(46, 1);
    let stale_peer_table = return_table_id(46, 1);
    let gw_rule = |mark: u32, table: u32| PolicyRule {
        priority: 100,
        mark: Some(mark),
        mask: Some(u32::MAX),
        table,
    };
    assert!(!rule_is_stale_ours(
        &gw_rule(current_mark, current_table),
        &[(current_mark, current_table)]
    ));
    assert!(rule_is_stale_ours(
        &gw_rule(stale_peer_mark, stale_peer_table),
        &[(current_mark, current_table)]
    ));
    assert!(rule_is_stale_ours(&gw_rule(stale_peer_mark, stale_peer_table), &[]));
    assert!(!rule_is_stale_ours(
        &PolicyRule {
            priority: 100,
            mark: Some(0x4000),
            mask: Some(u32::MAX),
            table: 500
        },
        &[]
    ));
    assert!(!rule_is_stale_ours(
        &PolicyRule {
            priority: 100,
            mark: None,
            mask: None,
            table: 500
        },
        &[]
    ));
}

#[test]
fn slotted_marks_and_tables_start_at_the_owned_bases() {
    assert!(return_mark(0, 0) >= EDGE_CURRENT_MARK_BASE);
    assert!(return_table_id(0, 0) >= EDGE_CURRENT_TABLE_BASE);
    assert_ne!(return_mark(46, 0), return_mark(46, 1));
    assert_ne!(return_table_id(46, 0), return_table_id(46, 1));
}

#[test]
fn own_rules_are_recognised_by_mark_or_table() {
    let by_mark = PolicyRule { priority: 1, mark: Some(return_mark(46, 0)), mask: None, table: 1 };
    let by_table = PolicyRule { priority: 1, mark: None, mask: None, table: return_table_id(46, 0) };
    let foreign = PolicyRule { priority: 1, mark: Some(1), mask: None, table: 1 };
    assert!(rule_is_ours_family(&by_mark));
    assert!(rule_is_ours_family(&by_table));
    assert!(!rule_is_ours_family(&foreign));
}

#[test]
fn numbers_parse_as_decimal_or_hex_and_reject_junk() {
    assert_eq!(parse_u32(" 42 "), Some(42));
    assert_eq!(parse_u32("0x2a"), Some(42));
    assert_eq!(parse_u32("4294967296"), None);
    assert_eq!(parse_u32("x1"), None);
    assert_eq!(parse_fwmark("1"), None);
}
