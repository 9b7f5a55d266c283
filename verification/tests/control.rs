use edge_lb::control::{
    discovery_request, on_subscribe_event, rejection_request, AppliedSnapshot, LocalReport, NodeConflict,
    SubscribeAction, SubscribeEvent, SubscribeFailure, SubscribeState,
};

#[test]
fn repeated_snapshot_ack_preserves_last_conflict_observation() {
    let applied = AppliedSnapshot {
        version: "v1".to_string(),
        conflicts: vec![NodeConflict {
            severity: "warning".to_string(),
            kind: "route_table".to_string(),
            subject: "table 1104".to_string(),
            detail: "foreign route".to_string(),
        }],
    };
    let local = LocalReport::default();
    let ack = discovery_request(
        &local,
        "gateway-version",
        "new-nonce",
        true,
        applied.conflicts_for("v1").unwrap().to_vec(),
    );
    assert_eq!(ack.conflicts.len(), 1);
    assert_eq!(ack.conflicts[0].kind, "route_table");
    assert_eq!(ack.response_nonce, "new-nonce");
    assert!(applied.conflicts_for("v2").is_none());
}

#[test]
fn clean_snapshot_observation_is_distinct_from_a_cache_miss() {
    let applied = AppliedSnapshot { version: "v2".to_string(), conflicts: Vec::new() };
    assert_eq!(applied.conflicts_for("v2"), Some([].as_slice()));
    assert!(applied.conflicts_for("v1").is_none());
}

#[test]
fn requests_carry_the_backend_identity() {
    let local = LocalReport {
        node_name: "backend-a".to_string(),
        underlay_ip: "192.0.2.20".to_string(),
        public_ip: "198.51.100.20".to_string(),
        ..LocalReport::default()
    };
    let req = discovery_request(&local, "", "", false, Vec::new());
    assert_eq!(req.node_role, "backend");
    assert_eq!(req.node_name, "backend-a");
    assert_eq!(req.underlay_ip, "192.0.2.20");
    assert!(!req.ack);
    assert!(req.error_detail.is_empty());
    let w = NodeConflict::warning("k".to_string(), "s".to_string(), "d".to_string());
    assert_eq!(w.severity, "warning");
}

fn conflict(kind: &str) -> NodeConflict {
    NodeConflict {
        severity: "warning".to_string(),
        kind: kind.to_string(),
        subject: "table 1104".to_string(),
        detail: "foreign route".to_string(),
    }
}

fn snapshot_event(version: &str, nonce: &str, combined: &str) -> SubscribeEvent {
    SubscribeEvent::Snapshot {
        version: version.to_string(),
        nonce: nonce.to_string(),
        combined_version: combined.to_string(),
    }
}

#[test]
fn new_snapshot_is_applied_then_acknowledged_with_its_conflicts() {
    let mut st = SubscribeState { last_applied: None };
    assert!(matches!(on_subscribe_event(&mut st, snapshot_event("g1", "n1", "c1")), SubscribeAction::Apply));
    let a = on_subscribe_event(
        &mut st,
        SubscribeEvent::Applied {
            version: "g1".to_string(),
            nonce: "n1".to_string(),
            combined_version: "c1".to_string(),
            conflicts: vec![conflict("route_table")],
        },
    );
    match a {
        SubscribeAction::Ack { version, nonce, conflicts } => {
            assert_eq!(version, "g1");
            assert_eq!(nonce, "n1");
            assert_eq!(conflicts, vec![conflict("route_table")]);
        }
        _ => panic!("expected an ack"),
    }
    let last = st.last_applied.as_ref().unwrap();
    assert_eq!(last.version, "c1");
    assert_eq!(last.conflicts, vec![conflict("route_table")]);
}

#[test]
fn same_combined_version_is_acknowledged_without_reapplying() {
    let mut st = SubscribeState {
        last_applied: Some(AppliedSnapshot { version: "c1".to_string(), conflicts: vec![conflict("rule")] }),
    };
    match on_subscribe_event(&mut st, snapshot_event("g2", "n2", "c1")) {
        SubscribeAction::Ack { version, nonce, conflicts } => {
            assert_eq!(version, "g2");
            assert_eq!(nonce, "n2");
            assert_eq!(conflicts, vec![conflict("rule")]);
        }
        _ => panic!("expected an ack"),
    }
    assert!(matches!(on_subscribe_event(&mut st, snapshot_event("g3", "n3", "c2")), SubscribeAction::Apply));
    assert_eq!(st.last_applied.as_ref().unwrap().version, "c1");
}

#[test]
fn rejected_snapshot_is_nacked_and_ends_the_subscription() {
    let mut st = SubscribeState { last_applied: None };
    match on_subscribe_event(
        &mut st,
        SubscribeEvent::Rejected { version: "g1".to_string(), nonce: "n1".to_string(), error: "bad".to_string() },
    ) {
        SubscribeAction::Reject { version, nonce, error } => {
            let local = LocalReport { node_name: "backend-1".to_string(), ..LocalReport::default() };
            let req = rejection_request(&local, &version, &nonce, error);
            assert!(!req.ack);
            assert_eq!(req.version, "g1");
            assert_eq!(req.response_nonce, "n1");
            assert_eq!(req.error_detail, "bad");
            assert_eq!(req.node_role, "backend");
        }
        _ => panic!("expected a rejection"),
    }
    assert!(st.last_applied.is_none());
}

#[test]
fn stream_events_close_resubscribe_or_fail() {
    let mut st = SubscribeState { last_applied: None };
    assert!(matches!(on_subscribe_event(&mut st, SubscribeEvent::Shutdown), SubscribeAction::Close));
    assert!(matches!(on_subscribe_event(&mut st, SubscribeEvent::PollTimeout), SubscribeAction::Resubscribe));
    assert!(matches!(
        on_subscribe_event(&mut st, SubscribeEvent::StreamClosed),
        SubscribeAction::Fail(SubscribeFailure::StreamClosed)
    ));
    match on_subscribe_event(&mut st, SubscribeEvent::StreamError("reset".to_string())) {
        SubscribeAction::Fail(SubscribeFailure::StreamError(e)) => assert_eq!(e, "reset"),
        _ => panic!("expected a failure"),
    }
}
