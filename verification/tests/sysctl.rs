use edge_lb::sysctl::{
    ensure_backend_datapath_tuning, ensure_gateway_datapath_tuning, forwarding_needs_enable,
    next_value, SysctlRule, IPV4_FORWARD, NF_CONNTRACK_MAX, TARGET_NF_CONNTRACK_MAX,
    TARGET_TCP_FIN_TIMEOUT,
};

#[test]
fn forwarding_path_is_the_kernel_sysctl() {
    assert_eq!(IPV4_FORWARD, "/proc/sys/net/ipv4/ip_forward");
}

#[test]
fn conntrack_path_is_the_kernel_sysctl() {
    assert_eq!(NF_CONNTRACK_MAX, "/proc/sys/net/netfilter/nf_conntrack_max");
}

#[test]
fn floor_tuning_never_lowers_existing_values() {
    assert_eq!(
        next_value(SysctlRule::Floor(TARGET_NF_CONNTRACK_MAX), TARGET_NF_CONNTRACK_MAX + 1),
        None
    );
    assert_eq!(
        next_value(SysctlRule::Floor(TARGET_NF_CONNTRACK_MAX), 1),
        Some(TARGET_NF_CONNTRACK_MAX)
    );
}

#[test]
fn tcp_fin_timeout_tuning_never_raises_lower_values() {
    assert_eq!(
        next_value(SysctlRule::Ceiling(TARGET_TCP_FIN_TIMEOUT), TARGET_TCP_FIN_TIMEOUT - 1),
        None
    );
    assert_eq!(
        next_value(SysctlRule::Ceiling(TARGET_TCP_FIN_TIMEOUT), 60),
        Some(TARGET_TCP_FIN_TIMEOUT)
    );
}

#[test]
fn tuning_at_its_target_is_left_alone() {
    assert_eq!(next_value(SysctlRule::Floor(10), 10), None);
    assert_eq!(next_value(SysctlRule::Ceiling(10), 10), None);
}

#[test]
fn gateway_and_backend_apply_the_same_plan() {
    let gw = ensure_gateway_datapath_tuning();
    let be = ensure_backend_datapath_tuning();
    assert!(gw.require_ipv4_forwarding && be.require_ipv4_forwarding);
    assert_eq!(gw.steps.len(), 7);
    assert_eq!(gw.steps, be.steps);
    assert!(gw.steps.iter().any(|s| s.path == NF_CONNTRACK_MAX
        && s.rule == SysctlRule::Floor(TARGET_NF_CONNTRACK_MAX)));
}

#[test]
fn forwarding_is_enabled_only_when_off() {
    assert!(forwarding_needs_enable("0\n"));
    assert!(!forwarding_needs_enable("1\n"));
}
