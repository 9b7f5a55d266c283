use edge_lb::automation_sync::{
    peer_accepted, save_authoritative, save_from_peer_active, save_from_peer_replica, NotMaster,
    ACTIVE_PATH, REPLICA_PATH,
};
use edge_lb::ha::GatewayHaPeer;
use edge_lb::ha_write::WriteRole;

fn peer() -> GatewayHaPeer {
    GatewayHaPeer { name: "gateway-b".to_string(), underlay_ip: "192.168.0.16".to_string(), ..GatewayHaPeer::default() }
}

#[test]
fn master_saves_and_replicates() {
    let plan = save_authoritative(&WriteRole::LocalMaster(Some(peer())), "gateway-a");
    assert!(plan.store_locally);
    assert_eq!(plan.send_to, Some((peer(), REPLICA_PATH)));
    assert_eq!(plan.result.status, "saved");
    assert_eq!(plan.result.authority, "gateway-a");
    assert_eq!(plan.result.replicated_to.as_deref(), Some("gateway-b"));
    let alone = save_authoritative(&WriteRole::LocalMaster(None), "gateway-a");
    assert!(alone.send_to.is_none() && alone.result.replicated_to.is_none());
}

#[test]
fn backup_forwards_to_the_master() {
    let plan = save_authoritative(&WriteRole::Backup(peer()), "gateway-a");
    assert!(!plan.store_locally);
    assert_eq!(plan.send_to, Some((peer(), ACTIVE_PATH)));
    assert_eq!(plan.result.status, "forwarded");
    assert_eq!(plan.result.authority, "gateway-b");
    assert_eq!(plan.result.forwarded_to.as_deref(), Some("gateway-b"));
    assert_eq!(plan.result.replicated_to.as_deref(), Some("gateway-a"));
}

#[test]
fn peer_saves_need_the_right_role() {
    assert_eq!(save_from_peer_active(&WriteRole::Backup(peer()), "gateway-a"), Err(NotMaster));
    assert!(save_from_peer_active(&WriteRole::LocalMaster(None), "gateway-a").is_ok());
    let replica = save_from_peer_replica("gateway-a");
    assert_eq!(replica.result.status, "replica_saved");
    assert!(replica.send_to.is_none());
    assert!(peer_accepted(204));
    assert!(!peer_accepted(302));
}

#[test]
fn a_forwarded_save_succeeds_only_when_the_peer_accepts() {
    let peer = edge_lb::ha::GatewayHaPeer { name: "gw-b".to_string(), ..edge_lb::ha::GatewayHaPeer::default() };
    let role = edge_lb::ha_write::WriteRole::Backup(peer);
    let ok = edge_lb::ha_write::PeerHttpResponse { status: 204, body: String::new() };
    let r = edge_lb::automation_sync::finish_sync(edge_lb::automation_sync::save_authoritative(&role, "gw-a"), Ok(ok)).unwrap();
    assert_eq!(r.status, "forwarded");
    assert_eq!(r.authority, "gw-b");
    assert_eq!(r.forwarded_to.as_deref(), Some("gw-b"));
    assert_eq!(r.replicated_to.as_deref(), Some("gw-a"));
    let bad = edge_lb::ha_write::PeerHttpResponse { status: 503, body: "busy".to_string() };
    let e = edge_lb::automation_sync::finish_sync(edge_lb::automation_sync::save_authoritative(&role, "gw-a"), Ok(bad)).unwrap_err();
    assert_eq!(e.message(), "HA peer automation sync gw-b failed with HTTP 503: busy");
    let redirect = edge_lb::ha_write::PeerHttpResponse { status: 300, body: String::new() };
    assert!(edge_lb::automation_sync::finish_sync(edge_lb::automation_sync::save_authoritative(&role, "gw-a"), Ok(redirect)).is_err());
    let e = edge_lb::automation_sync::finish_sync(edge_lb::automation_sync::save_authoritative(&role, "gw-a"), Err("connection refused".to_string())).unwrap_err();
    assert_eq!(e.message(), "connection refused");
}

#[test]
fn a_master_save_without_a_peer_needs_no_answer() {
    let role = edge_lb::ha_write::WriteRole::LocalMaster(None);
    let r = edge_lb::automation_sync::finish_sync(edge_lb::automation_sync::save_authoritative(&role, "gw-a"), Err("unused".to_string())).unwrap();
    assert_eq!(r.status, "saved");
}
