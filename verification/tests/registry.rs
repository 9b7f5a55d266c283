use edge_lb::overlay::{assign_overlay_ips, overlay_host, overlay_needs_assignment, GatewayNode, OverlayInventory};
use edge_lb::pb::{DiscoveryRequest, NodeConflict};
use edge_lb::registry::{name_less, non_empty_or, BackendNode, BackendRegistry};
use edge_lb::route_msg::IpAddress;

fn ip(text: &str) -> IpAddress {
    IpAddress::V4(edge_lb::ipnet::parse_ipv4(text).unwrap())
}

fn discovery(name: &str, public_ip: &str, underlay_ip: &str) -> DiscoveryRequest {
    DiscoveryRequest {
        node_name: name.to_string(),
        node_role: "backend".to_string(),
        public_ip: public_ip.to_string(),
        underlay_ip: underlay_ip.to_string(),
        ..DiscoveryRequest::default()
    }
}

fn gateway_file() -> OverlayInventory {
    OverlayInventory {
        overlay_cidr: "10.44.0.0/24".to_string(),
        gateway_overlay_ip: "10.255.255.1/24".to_string(),
        gateway_nodes: Vec::new(),
        backend_nodes: Vec::new(),
    }
}

#[test]
fn expiry_removes_overlay_and_preserves_fresh_registration() {
    let mut registry = BackendRegistry::new();
    let req = discovery("backend-a", "198.51.100.20", "192.0.2.20");
    registry.upsert(&req, None, "old", 100);
    assert!(registry.prune_expired(130, 30).is_empty());
    assert_eq!(registry.prune_expired(131, 30), vec!["backend-a".to_string()]);
    assert_eq!(registry.node_count(), 0);
    assert_eq!(registry.subscription_count(), 0);

    registry.upsert(&req, None, "new", 200);
    registry.remove("backend-a", "old");
    assert!(registry.prune_expired(210, 30).is_empty());
    assert_eq!(registry.subscription("backend-a").unwrap().stream_id, "new");
    assert!(registry.node("backend-a").is_some());
}

#[test]
fn unchanged_snapshot_still_publishes_overlay_assignment() {
    let mut registry = BackendRegistry::new();
    let req = discovery("backend-a", "198.51.100.20", "192.0.2.20");
    let mut file = gateway_file();
    registry.upsert(&req, None, "old", 1);
    registry.merge_into(&mut file);
    let overlay = file.backend_nodes[0].overlay_ip.clone();
    registry.remove("backend-a", "old");
    registry.upsert(&req, None, "new", 2);
    assert!(!registry.merge_into(&mut file));
    assert_eq!(registry.active_backend_nodes(&Vec::new(), &Vec::new())[0].overlay_ip, overlay);
}

#[test]
fn active_inventory_replaces_stale_backend_config() {
    let mut registry = BackendRegistry::new();
    let mut file = gateway_file();
    file.backend_nodes.push(BackendNode {
        name: "stale".to_string(),
        public_ip: ip("198.51.100.10"),
        underlay_ip: ip("192.0.2.10"),
        overlay_ip: "10.44.0.9/24".to_string(),
    });
    registry.upsert(&discovery("backend-1", "198.51.100.20", "192.0.2.20"), None, "stream-1", 1);
    assert!(registry.merge_into(&mut file));
    assert_eq!(file.backend_nodes.len(), 1);
    assert_eq!(file.backend_nodes[0].name, "backend-1");
    assert_eq!(file.backend_nodes[0].underlay_ip, ip("192.0.2.20"));
    assert_eq!(file.backend_nodes[0].overlay_ip, "10.44.0.2/24");
}

#[test]
fn disconnected_backend_is_removed_from_runtime_inventory() {
    let mut registry = BackendRegistry::new();
    let mut file = gateway_file();
    registry.upsert(&discovery("backend-b", "198.51.100.30", "192.0.2.30"), None, "stream-b", 1);
    registry.upsert(&discovery("backend-a", "198.51.100.20", "192.0.2.20"), None, "stream-a", 1);
    registry.merge_into(&mut file);
    assert_eq!(file.backend_nodes.len(), 2);
    assert_eq!(file.backend_nodes[0].name, "backend-a");
    assert_eq!(file.backend_nodes[0].overlay_ip, "10.44.0.2/24");
    assert_eq!(file.backend_nodes[1].name, "backend-b");
    assert_eq!(file.backend_nodes[1].overlay_ip, "10.44.0.3/24");

    registry.remove("backend-a", "stream-a");
    registry.merge_into(&mut file);
    assert_eq!(file.backend_nodes.len(), 1);
    assert_eq!(file.backend_nodes[0].name, "backend-b");
    assert_eq!(file.backend_nodes[0].overlay_ip, "10.44.0.3/24");
}

#[test]
fn active_inventory_excludes_gateway_underlays() {
    let mut registry = BackendRegistry::new();
    registry.upsert(&discovery("gateway-b", "198.51.100.30", "192.0.2.30"), None, "stream-gateway", 1);
    registry.upsert(&discovery("backend-a", "198.51.100.20", "192.0.2.20"), None, "stream-backend", 1);
    let mut file = gateway_file();
    file.gateway_nodes.push(GatewayNode {
        name: "gateway-b".to_string(),
        public_ip: ip("198.51.100.30"),
        underlay_ip: ip("192.0.2.30"),
        overlay_ip: "10.44.0.1/24".to_string(),
    });
    registry.merge_into(&mut file);
    assert_eq!(file.backend_nodes.len(), 1);
    assert_eq!(file.backend_nodes[0].name, "backend-a");
    assert_eq!(file.backend_nodes[0].underlay_ip, ip("192.0.2.20"));
    // The gateway's subscription stays, but it is not shown as a backend.
    assert!(registry.subscription("gateway-b").is_some());
    assert!(registry.node("gateway-b").is_none());
}

#[test]
fn late_disconnect_preserves_reconnected_overlay() {
    let mut registry = BackendRegistry::new();
    let req = discovery("backend-a", "198.51.100.20", "192.0.2.20");
    registry.upsert(&req, None, "old", 1);
    let mut file = gateway_file();
    registry.merge_into(&mut file);
    let assigned = file.backend_nodes[0].overlay_ip.clone();

    registry.upsert(&req, None, "new", 2);
    registry.remove("backend-a", "old");
    let nodes = registry.active_backend_nodes(&Vec::new(), &Vec::new());
    assert_eq!(nodes.len(), 1);
    assert_eq!(nodes[0].overlay_ip, assigned);
    assert_eq!(registry.subscription("backend-a").unwrap().stream_id, "new");

    registry.remove("backend-a", "new");
    assert!(registry.active_backend_nodes(&file.backend_nodes, &Vec::new()).is_empty());
    registry.merge_into(&mut file);
    assert!(file.backend_nodes.is_empty());
}

#[test]
fn full_ack_clears_conflicts_but_heartbeat_does_not() {
    let mut registry = BackendRegistry::new();
    let mut req = discovery("backend-a", "198.51.100.20", "192.0.2.20");
    req.conflicts.push(NodeConflict { kind: "route_table".to_string(), ..Default::default() });
    registry.upsert(&req, None, "current", 1);
    let mut ack = DiscoveryRequest { ack: true, ..Default::default() };
    registry.touch("backend-a", "current", &ack, 2);
    assert_eq!(registry.subscription("backend-a").unwrap().conflicts.len(), 1);
    assert_eq!(registry.subscription("backend-a").unwrap().conflicts[0].severity, "warning");

    ack.version = "v2".to_string();
    ack.response_nonce = "nonce-2".to_string();
    registry.touch("backend-a", "stale", &ack, 3);
    assert_eq!(registry.subscription("backend-a").unwrap().conflicts.len(), 1);
    assert_eq!(registry.subscription("backend-a").unwrap().last_seen, 2);
    ack.ack = false;
    ack.error_detail = "apply failed".to_string();
    registry.touch("backend-a", "current", &ack, 4);
    assert_eq!(registry.subscription("backend-a").unwrap().conflicts.len(), 1);
    ack.ack = true;
    ack.error_detail.clear();
    registry.touch("backend-a", "current", &ack, 5);
    let sub = registry.subscription("backend-a").unwrap();
    assert_eq!(sub.last_version, "v2");
    assert!(sub.conflicts.is_empty());
    assert_eq!(sub.last_seen, 5);
}

#[test]
fn concurrent_registration_and_cleanup_keep_both_indexes_consistent() {
    let mut registry = BackendRegistry::new();
    let req = discovery("backend-a", "198.51.100.20", "192.0.2.20");
    for round in 0..50u64 {
        registry.upsert(&req, None, "current", round);
        assert_eq!(registry.subscription("backend-a").is_some(), registry.node("backend-a").is_some());
        registry.remove("backend-a", "current");
        assert_eq!(registry.subscription("backend-a").is_some(), registry.node("backend-a").is_some());
    }
}

#[test]
fn requests_without_a_readable_underlay_are_ignored() {
    let mut registry = BackendRegistry::new();
    registry.upsert(&discovery("backend-a", "198.51.100.20", "not-an-ip"), None, "s", 1);
    assert_eq!(registry.subscription_count(), 0);
    registry.upsert(&discovery("backend-a", "garbage", "192.0.2.20"), Some("192.0.2.20:4000".to_string()), "s", 1);
    let sub = registry.subscription("backend-a").unwrap();
    assert_eq!(sub.public_ip, IpAddress::V4(0));
    assert_eq!(sub.public_ip_mode, "unknown");
    assert_eq!(sub.peer.as_deref(), Some("192.0.2.20:4000"));
    assert_eq!(registry.node("backend-a").unwrap().overlay_ip, "auto");
}

#[test]
fn names_sort_by_code_point() {
    assert!(name_less("backend-a", "backend-b"));
    assert!(name_less("backend", "backend-a"));
    assert!(!name_less("b", "a"));
    assert!(!name_less("same", "same"));
    assert!(name_less("Z", "a"));
    assert_eq!(non_empty_or("  ", "warning"), "warning");
    assert_eq!(non_empty_or(" info ", "warning"), "info");
}

#[test]
fn overlay_hosts_come_from_the_overlay_network() {
    assert_eq!(overlay_host("10.44.0.0/24", 1).as_deref(), Some("10.44.0.1/24"));
    assert_eq!(overlay_host("10.44.0.7/24", 2).as_deref(), Some("10.44.0.2/24"));
    assert_eq!(overlay_host("10.44.0.0/24", 254).as_deref(), Some("10.44.0.254/24"));
    assert_eq!(overlay_host("10.44.0.0/24", 255), None);
    assert_eq!(overlay_host("10.44.0.0/24", 0), None);
    assert_eq!(overlay_host("10.44.0.0/31", 1), None);
    assert_eq!(overlay_host("10.44.0.0/30", 2).as_deref(), Some("10.44.0.2/30"));
    assert_eq!(overlay_host("not-a-cidr", 1), None);
    assert!(overlay_needs_assignment(" AUTO "));
    assert!(overlay_needs_assignment(""));
    assert!(overlay_needs_assignment("10.255.255.2/30"));
    assert!(!overlay_needs_assignment("10.44.0.9/24"));
}

#[test]
fn repeated_backend_overlays_are_reassigned() {
    let node = |name: &str, overlay: &str| BackendNode {
        name: name.to_string(),
        public_ip: IpAddress::V4(0),
        underlay_ip: IpAddress::V4(0),
        overlay_ip: overlay.to_string(),
    };
    let mut inv = gateway_file();
    inv.gateway_nodes.push(GatewayNode {
        name: "gw".to_string(),
        public_ip: IpAddress::V4(0),
        underlay_ip: IpAddress::V4(0),
        overlay_ip: "auto".to_string(),
    });
    inv.backend_nodes = vec![node("a", "10.44.0.2/24"), node("b", "10.44.0.2/24"), node("c", "auto"), node("d", "10.44.0.1/24")];
    assign_overlay_ips(&mut inv);
    assert_eq!(inv.gateway_nodes[0].overlay_ip, "10.44.0.1/24");
    assert_eq!(inv.gateway_overlay_ip, "10.44.0.1/24");
    let overlays: Vec<&str> = inv.backend_nodes.iter().map(|b| b.overlay_ip.as_str()).collect();
    assert_eq!(overlays, vec!["10.44.0.2/24", "10.44.0.3/24", "10.44.0.4/24", "10.44.0.5/24"]);
}

#[test]
fn a_second_merge_over_the_same_registry_changes_nothing() {
    let mut registry = BackendRegistry::new();
    let mut file = gateway_file();
    registry.upsert(&discovery("backend-a", "198.51.100.20", "192.0.2.20"), None, "s1", 1);
    registry.upsert(&discovery("backend-b", "198.51.100.21", "192.0.2.21"), None, "s2", 1);
    assert!(registry.merge_into(&mut file));
    let backends: Vec<(String, String)> = file.backend_nodes.iter().map(|b| (b.name.clone(), b.overlay_ip.clone())).collect();
    let gateways: Vec<String> = file.gateway_nodes.iter().map(|g| g.overlay_ip.clone()).collect();
    let local = file.gateway_overlay_ip.clone();
    assert!(!registry.merge_into(&mut file));
    let again: Vec<(String, String)> = file.backend_nodes.iter().map(|b| (b.name.clone(), b.overlay_ip.clone())).collect();
    assert_eq!(again, backends);
    assert_eq!(file.gateway_nodes.iter().map(|g| g.overlay_ip.clone()).collect::<Vec<_>>(), gateways);
    assert_eq!(file.gateway_overlay_ip, local);
}
