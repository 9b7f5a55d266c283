use edge_lb::logging::{default_filter, normalize_filter};

#[test]
fn simple_log_level_suppresses_noisy_netlink_route_dependency() {
    assert_eq!(normalize_filter("info"), "info,netlink_packet_route=error");
}

#[test]
fn explicit_filter_is_preserved() {
    assert_eq!(normalize_filter("edge_lb=debug,info"), "edge_lb=debug,info");
}

#[test]
fn default_filter_names_the_level_and_quiets_netlink() {
    assert_eq!(default_filter("debug"), "debug,netlink_packet_route=error");
}
