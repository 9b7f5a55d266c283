use edge_lb::datapath::{NativeFlowKey, NativeFlowValue};
use edge_lb::flow::FlowMutation;
use edge_lb::pb;
use edge_lb::xsync::{
    collapse_delete_keys, collapse_latest_entries, entry_from_proto_at, entry_to_proto,
    flow_ack_covers_sent, fold_flow_mutations, limit_flow_batch, local_last_seen_ns, set_state,
    snapshot, XsyncStatus, EVENT_POLL_INTERVAL_MS, MAX_SYNC_OPS_PER_BATCH,
};

fn test_key(sport: u16) -> NativeFlowKey {
    NativeFlowKey {
        src: 1,
        dst: 2,
        sport,
        dport: 80,
        proto: 6,
        _pad: [0; 3],
    }
}

fn test_value(last_seen_ns: u64) -> NativeFlowValue {
    NativeFlowValue {
        service_id: 7,
        endpoint_id: 9,
        vip: 2,
        endpoint: 3,
        vip_port: 80,
        endpoint_port: 8080,
        timeout_secs: 60,
        last_seen_ns,
    }
}

#[test]
fn grpc_poll_interval_is_bounded() {
    assert_eq!(EVENT_POLL_INTERVAL_MS, 25);
}

#[test]
fn standby_state_name_is_stable() {
    let mut status = XsyncStatus::initial();
    set_state(&mut status, "standby", None, None);
    assert_eq!(snapshot(&status).state, "standby");
}

#[test]
fn flow_sync_sends_age_instead_of_local_monotonic_time() {
    let entry = (
        NativeFlowKey {
            src: 1,
            dst: 2,
            sport: 12345,
            dport: 80,
            proto: 6,
            _pad: [0; 3],
        },
        NativeFlowValue {
            service_id: 7,
            endpoint_id: 9,
            vip: 2,
            endpoint: 3,
            vip_port: 80,
            endpoint_port: 8080,
            timeout_secs: 60,
            last_seen_ns: 900,
        },
    );

    let proto = entry_to_proto(&entry, 1_000);

    assert_eq!(proto.value.unwrap().last_seen_age_ns, 100);
}

#[test]
fn flow_sync_rebases_age_to_receiver_monotonic_time() {
    let entry = pb::FlowEntry {
        key: Some(pb::FlowKey {
            src: 1,
            dst: 2,
            sport: 12345,
            dport: 80,
            proto: 6,
        }),
        value: Some(pb::FlowValue {
            listener_id: 7,
            target_id: 9,
            vip: 2,
            target: 3,
            vip_port: 80,
            target_port: 8080,
            timeout_secs: 60,
            last_seen_age_ns: 100,
        }),
    };

    let (_, value) = entry_from_proto_at(&entry, 5_000).unwrap();

    assert_eq!(value.last_seen_ns, 4_900);
}

#[test]
fn flow_sync_zero_age_maps_to_receiver_now() {
    assert_eq!(local_last_seen_ns(0, 5_000), 5_000);
}

#[test]
fn flow_mutation_fold_keeps_last_operation_for_each_key() {
    let key = test_key(12345);
    let value = test_value(900);
    let (entries, deletes) =
        fold_flow_mutations(&[FlowMutation::Delete(key), FlowMutation::Upsert((key, value))]);

    assert_eq!(entries, vec![(key, value)]);
    assert!(deletes.is_empty());
}

#[test]
fn flow_batch_keeps_latest_upsert_and_drops_shadowed_delete() {
    let key = test_key(12345);
    let entries = collapse_latest_entries(vec![
        (key, test_value(900)),
        (key, test_value(1_100)),
        (test_key(12346), test_value(1_000)),
    ]);
    let deletes = collapse_delete_keys(vec![key, key], &entries);

    assert_eq!(
        entries
            .iter()
            .find(|(item, _)| *item == key)
            .unwrap()
            .1
            .last_seen_ns,
        1_100
    );
    assert!(deletes.is_empty());
}

#[test]
fn flow_ack_must_cover_every_sent_operation_before_advancing_replica_index() {
    assert!(flow_ack_covers_sent(2, 2));
    assert!(!flow_ack_covers_sent(2, 1));
    assert!(!flow_ack_covers_sent(1, u64::MAX));
}

#[test]
fn flow_batch_limit_prioritizes_upserts_and_defers_excess_deletes() {
    let entries = (0..MAX_SYNC_OPS_PER_BATCH)
        .map(|idx| (test_key(idx as u16), test_value(u64::from(idx as u32))))
        .collect::<Vec<_>>();
    let deletes = vec![test_key(60_000)];

    let (entries, deletes) = limit_flow_batch(entries, deletes);

    assert_eq!(entries.len(), MAX_SYNC_OPS_PER_BATCH);
    assert!(deletes.is_empty());
}

#[test]
fn flow_batch_limit_keeps_total_operations_bounded() {
    let entries = vec![(test_key(1), test_value(1))];
    let deletes = (0..MAX_SYNC_OPS_PER_BATCH)
        .map(|idx| test_key(idx as u16))
        .collect::<Vec<_>>();

    let (entries, deletes) = limit_flow_batch(entries, deletes);

    assert_eq!(entries.len(), 1);
    assert_eq!(deletes.len(), MAX_SYNC_OPS_PER_BATCH - 1);
}

#[test]
fn fold_keeps_delete_after_upsert() {
    let key = test_key(7);
    let (entries, deletes) =
        fold_flow_mutations(&[FlowMutation::Upsert((key, test_value(5))), FlowMutation::Delete(key)]);
    assert!(entries.is_empty());
    assert_eq!(deletes, vec![key]);
}

#[test]
fn age_of_a_flow_seen_in_the_future_is_zero() {
    let entry = (test_key(1), test_value(2_000));
    let proto = entry_to_proto(&entry, 1_000);
    assert_eq!(proto.value.unwrap().last_seen_age_ns, 0);
}

#[test]
fn proto_without_key_is_rejected() {
    let entry = pb::FlowEntry { key: None, value: Some(pb::FlowValue::default()) };
    assert!(entry_from_proto_at(&entry, 1).is_err());
}
