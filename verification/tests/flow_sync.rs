use edge_lb::datapath::{NativeFlowKey, NativeFlowValue};
use edge_lb::flow::FlowEntry;
use edge_lb::flow_sync::{apply_replicated, entries_newer_than, FlowReplError, FlowReplRequest, FlowReplica};
use edge_lb::flow_table::{dump_flows, FlowTable};

fn entry(src: u32, last_seen_ns: u64) -> FlowEntry {
    (
        NativeFlowKey { src, ..NativeFlowKey::default() },
        NativeFlowValue { last_seen_ns, ..NativeFlowValue::default() },
    )
}

#[test]
fn only_new_and_fresher_entries_replicate() {
    let mut replica = FlowReplica::new();
    replica.record(&[entry(1, 100), entry(2, 200)]);
    let flows = vec![entry(1, 100), entry(2, 300), entry(3, 50)];
    let pending = entries_newer_than(&flows, &replica);
    assert_eq!(pending.len(), 2);
    assert!(pending.iter().any(|(k, _)| k.src == 2));
    assert!(pending.iter().any(|(k, _)| k.src == 3));
}

#[test]
fn recorded_flows_are_not_sent_again() {
    let mut replica = FlowReplica::new();
    let flows = vec![entry(1, 10), entry(2, 20)];
    let pending = entries_newer_than(&flows, &replica);
    replica.record(&pending);
    assert!(entries_newer_than(&flows, &replica).is_empty());
    assert_eq!(replica.get(&entry(2, 0).0), Some(20));
}

#[test]
fn backup_applies_only_batches_of_its_peer() {
    let mut table = FlowTable::new();
    let request = FlowReplRequest { from: "gateway-a".to_string(), entries: vec![entry(9, 42)] };
    assert_eq!(
        apply_replicated(&mut table, &FlowReplRequest { from: " ".to_string(), entries: vec![] }, Some("gateway-a"), "BACKUP"),
        Err(FlowReplError::MissingSource)
    );
    assert_eq!(apply_replicated(&mut table, &request, None, "BACKUP"), Err(FlowReplError::NoPeer));
    assert_eq!(apply_replicated(&mut table, &request, Some("gateway-c"), "BACKUP"), Err(FlowReplError::ForeignSource));
    assert_eq!(
        apply_replicated(&mut table, &request, Some("gateway-a"), "MASTER"),
        Err(FlowReplError::NotBackup("MASTER".to_string()))
    );
    assert!(dump_flows(&table).is_empty());
    assert_eq!(apply_replicated(&mut table, &request, Some("gateway-a"), "BACKUP"), Ok(1));
    assert_eq!(dump_flows(&table), vec![entry(9, 42)]);
}
