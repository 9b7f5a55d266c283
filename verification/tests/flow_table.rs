use edge_lb::datapath::{NativeEndpointLoadKey, NativeFlowKey, NativeFlowValue};
use edge_lb::flow_table::{
    delete_flows, delete_pinned_flows, dump_flows, sweep_flows_and_refresh_loads, upsert_flows, upsert_pinned_flows, FlowTable,
};

fn key(src: u32, sport: u16) -> NativeFlowKey {
    NativeFlowKey { src, dst: 0xc0a8_000a, sport, dport: 80, proto: 6, _pad: [0; 3] }
}

fn value(service_id: u32, endpoint_id: u32, last_seen_ns: u64) -> NativeFlowValue {
    NativeFlowValue {
        service_id,
        endpoint_id,
        vip: 0xc0a8_000a,
        endpoint: 0x0a00_0002,
        vip_port: 80,
        endpoint_port: 8080,
        timeout_secs: 10,
        last_seen_ns,
    }
}

#[test]
fn upsert_applies_new_and_fresher_flows_only() {
    let mut table = FlowTable::new();
    assert_eq!(upsert_flows(&mut table, &[(key(1, 1000), value(1, 1, 100))]), 1);
    assert_eq!(upsert_flows(&mut table, &[(key(1, 1000), value(1, 1, 50))]), 0);
    assert_eq!(upsert_flows(&mut table, &[(key(1, 1000), value(1, 1, 200)), (key(2, 1000), value(1, 1, 1))]), 2);
    let flows = dump_flows(&table);
    assert_eq!(flows.len(), 2);
    assert_eq!(table.get(&key(1, 1000)).unwrap().last_seen_ns, 200);
}

#[test]
fn delete_counts_only_present_flows() {
    let mut table = FlowTable::from_entries(&[(key(1, 1), value(1, 1, 1)), (key(2, 2), value(1, 1, 1))]);
    assert_eq!(delete_flows(&mut table, &[key(1, 1), key(3, 3), key(1, 1)]), 1);
    assert_eq!(dump_flows(&table), vec![(key(2, 2), value(1, 1, 1))]);
}

#[test]
fn deleting_the_same_keys_again_removes_nothing() {
    let mut table = FlowTable::from_entries(&[(key(1, 1), value(1, 1, 1)), (key(2, 2), value(1, 1, 1)), (key(4, 4), value(1, 1, 1))]);
    let keys = [key(1, 1), key(4, 4), key(3, 3)];
    assert_eq!(delete_flows(&mut table, &keys), 2);
    assert_eq!(delete_flows(&mut table, &keys), 0);
    assert_eq!(dump_flows(&table), vec![(key(2, 2), value(1, 1, 1))]);
}

#[test]
fn later_entries_replace_earlier_ones_when_loading() {
    let table = FlowTable::from_entries(&[(key(1, 1), value(1, 1, 1)), (key(1, 1), value(2, 2, 5))]);
    assert_eq!(dump_flows(&table), vec![(key(1, 1), value(2, 2, 5))]);
}

#[test]
fn sweep_drops_idle_flows_and_counts_live_connections() {
    let now = 100_000_000_000u64;
    let live_recent = now - 1_000_000_000;
    let idle = now - 60_000_000_000;
    let mut table = FlowTable::from_entries(&[
        (key(1, 1), value(7, 1, live_recent)),
        (key(2, 2), value(7, 1, live_recent)),
        (key(3, 3), value(7, 2, idle)),
        (key(4, 4), value(8, 1, 0)),
    ]);
    let (expired, loads) = sweep_flows_and_refresh_loads(&mut table, now);
    assert_eq!(expired, 1);
    assert_eq!(dump_flows(&table).len(), 3);
    let load = |s: u32, e: u32| {
        loads
            .iter()
            .find(|(k, _)| *k == NativeEndpointLoadKey { service_id: s, endpoint_id: e })
            .map(|(_, n)| *n)
    };
    assert_eq!(load(7, 1), Some(2));
    assert_eq!(load(7, 2), None);
    assert_eq!(load(8, 1), Some(1));
}

#[test]
fn both_directions_of_a_connection_count_once() {
    let forward = NativeFlowKey { src: 0x0a00_0001, dst: 0xc0a8_000a, sport: 40000u16.to_be(), dport: 80u16.to_be(), proto: 6, _pad: [0; 3] };
    let reverse = NativeFlowKey { src: 0xc0a8_000b, dst: 0x0a00_0001, sport: 8080u16.to_be(), dport: 40000u16.to_be(), proto: 6, _pad: [0; 3] };
    let v = NativeFlowValue {
        service_id: 3,
        endpoint_id: 4,
        vip: 0xc0a8_000a,
        endpoint: 0xc0a8_000b,
        vip_port: 80u16.to_be(),
        endpoint_port: 8080,
        timeout_secs: 0,
        last_seen_ns: 5,
    };
    let mut table = FlowTable::from_entries(&[(forward, v), (reverse, v)]);
    let (expired, loads) = sweep_flows_and_refresh_loads(&mut table, 10);
    assert_eq!(expired, 0);
    assert_eq!(loads, vec![(NativeEndpointLoadKey { service_id: 3, endpoint_id: 4 }, 1)]);
}

#[test]
fn a_detached_datapath_takes_no_replicated_flows() {
    let mut none: Option<FlowTable> = None;
    assert_eq!(upsert_pinned_flows(&mut none, &[(key(1, 1), value(1, 1, 5))]), 0);
    assert_eq!(delete_pinned_flows(&mut none, &[key(1, 1)]), 0);
    assert!(none.is_none());
    let mut pinned = Some(FlowTable::from_entries(&[]));
    assert_eq!(upsert_pinned_flows(&mut pinned, &[(key(1, 1), value(1, 1, 5))]), 1);
    assert_eq!(delete_pinned_flows(&mut pinned, &[key(1, 1), key(1, 1)]), 1);
    assert_eq!(dump_flows(pinned.as_ref().unwrap()), vec![]);
}
