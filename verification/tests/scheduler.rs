use edge_lb::datapath::{
    NativeFlowKey, DEFAULT_PERSIST_TIMEOUT_SECS, NATIVE_SELECT_HASH, NATIVE_SELECT_LC,
    NATIVE_SELECT_PERSIST, NATIVE_SELECT_PRIORITY, NATIVE_SELECT_RR,
};
use edge_lb::scheduler::{persist_pick, rr_pick, slot_pick, weighted_pick};

fn key(source_port: u16) -> NativeFlowKey {
    NativeFlowKey {
        src: 0x0102_0304,
        dst: 0x0506_0708,
        sport: source_port.to_be(),
        dport: 9999_u16.to_be(),
        proto: 6,
        _pad: [0; 3],
    }
}

#[test]
fn weighted_selection_skips_unhealthy_targets() {
    assert_eq!(weighted_pick(0, &[1, 1], &[false, true]), Some(1));
    assert_eq!(weighted_pick(10, &[1, 1], &[false, false]), None);
}

#[test]
fn weighted_selection_respects_weight_ranges() {
    assert_eq!(weighted_pick(0, &[2, 1], &[true, true]), Some(0));
    assert_eq!(weighted_pick(1, &[2, 1], &[true, true]), Some(0));
    assert_eq!(weighted_pick(2, &[2, 1], &[true, true]), Some(1));
}

#[test]
fn hash_selection_uses_endpoint_slots_without_weight_expansion() {
    assert_eq!(slot_pick(0, &[3, 1], &[true, true]), Some(0));
    assert_eq!(slot_pick(1, &[3, 1], &[true, true]), Some(1));
    assert_eq!(slot_pick(2, &[3, 1], &[true, true]), Some(0));
}

#[test]
fn hash_selection_falls_back_to_first_healthy_slot() {
    assert_eq!(slot_pick(0, &[1, 1], &[false, true]), Some(1));
    assert_eq!(slot_pick(0, &[1, 1], &[false, false]), None);
}

#[test]
fn rr_selection_rotates_slots_without_weight_expansion() {
    assert_eq!(rr_pick(0, &[3, 1], &[true, true]), Some(0));
    assert_eq!(rr_pick(1, &[3, 1], &[true, true]), Some(1));
    assert_eq!(rr_pick(2, &[3, 1], &[true, true]), Some(0));
}

#[test]
fn persist_seed_ignores_client_transport_port() {
    let first = key(40000);
    let second = key(40001);
    assert_eq!(first.src, second.src);
    assert_eq!(
        persist_pick(first.src, &[1, 1], &[true, true]),
        persist_pick(second.src, &[1, 1], &[true, true])
    );
}

#[test]
fn persist_selection_uses_source_ip_slots_without_weight_expansion() {
    assert_eq!(persist_pick(0x0102_0304, &[3, 1], &[true, true]), Some(1));
}

#[test]
fn persist_default_timeout_is_three_hours() {
    assert_eq!(DEFAULT_PERSIST_TIMEOUT_SECS, 10_800);
}

#[test]
fn selector_codes_match_native_datapath_contract() {
    assert_eq!(NATIVE_SELECT_RR, 0);
    assert_eq!(NATIVE_SELECT_HASH, 1);
    assert_eq!(NATIVE_SELECT_PRIORITY, 2);
    assert_eq!(NATIVE_SELECT_PERSIST, 3);
    assert_eq!(NATIVE_SELECT_LC, 4);
}

#[test]
fn weighted_selection_with_zero_weight_is_never_chosen() {
    for seed in 0..10 {
        assert_eq!(weighted_pick(seed, &[0, 3], &[true, true]), Some(1));
    }
}

#[test]
fn rr_selection_skips_inactive_slots() {
    assert_eq!(rr_pick(0, &[1, 1, 1], &[false, false, true]), Some(2));
    assert_eq!(rr_pick(5, &[1, 1], &[false, false]), None);
}

#[test]
fn persist_selection_falls_back_to_secondary_slot() {
    // primary slot of 0x0000_0100 is 0, secondary is 1.
    assert_eq!(persist_pick(0x0000_0100, &[1, 1], &[false, true]), Some(1));
    assert_eq!(persist_pick(0x0000_0100, &[1, 1], &[true, true]), Some(0));
}
