use edge_lb::gateway_watch::{admit_backend, classify_reply, feed_step, should_send, AdmissionError, BackendReply, FeedStep};
use edge_lb::ha::{GatewayHaPeer, GatewayHaRuntimeConfig, GatewayIdentity, HaConfigError};
use edge_lb::pair_service::{
    check_pair_request, identity_from_pb, identity_to_pb, pair_plan, PairRequestError, RequiredField,
};
use edge_lb::pb::{DiscoveryRequest, GatewayPeerInfo, NodeConflict};
use edge_lb::route_msg::IpAddress;

fn backend_request(role: &str, name: &str) -> DiscoveryRequest {
    DiscoveryRequest {
        node_name: name.to_string(),
        node_role: role.to_string(),
        underlay_ip: "192.168.0.21".to_string(),
        ..DiscoveryRequest::default()
    }
}

#[test]
fn only_registered_backends_may_subscribe() {
    let ip = IpAddress::V4(0xc0a8_0015);
    let ok = admit_backend(Some(&backend_request("backend", "backend-1")), Some(ip)).unwrap();
    assert_eq!(ok.peer, "backend-1");
    assert_eq!(ok.underlay, ip);
    let v6 = IpAddress::V6(1);
    assert_eq!(admit_backend(Some(&backend_request("backend", "backend-1")), Some(v6)).unwrap().underlay, v6);

    let e = admit_backend(Some(&backend_request("gateway", "gw")), Some(ip)).unwrap_err();
    assert_eq!(e, AdmissionError::NotBackend);
    assert_eq!(e.message(), "only backend nodes may subscribe");
    assert!(e.is_permission_denied());
    for (req, underlay) in [
        (backend_request("backend", "  "), Some(ip)),
        (backend_request("backend", "backend-1"), None),
        (backend_request("backend", "backend-1"), Some(IpAddress::V4(0))),
        (backend_request("backend", "backend-1"), Some(IpAddress::V6(0))),
    ] {
        let e = admit_backend(Some(&req), underlay).unwrap_err();
        assert_eq!(e, AdmissionError::IncompleteRegistration);
        assert_eq!(e.message(), "backend registration is incomplete or invalid");
    }
    let e = admit_backend(None, None).unwrap_err();
    assert_eq!(e, AdmissionError::MissingRequest);
    assert_eq!(e.message(), "missing discovery request");
    assert!(!e.is_permission_denied());
}

#[test]
fn snapshots_are_sent_once_per_version() {
    assert!(should_send("", "v1"));
    assert!(!should_send("v1", "v1"));
    let mut last = String::new();
    assert_eq!(feed_step(&mut last, Ok("v1")), FeedStep::Send);
    assert_eq!(last, "v1");
    assert_eq!(feed_step(&mut last, Ok("v1")), FeedStep::Skip);
    assert_eq!(feed_step(&mut last, Ok("v2")), FeedStep::Send);
    assert_eq!(last, "v2");
    assert_eq!(feed_step(&mut last, Err("no config")), FeedStep::Fail("snapshot build failed: no config".to_string()));
    assert_eq!(last, "v2");
}

#[test]
fn backend_replies_are_classified() {
    let mut req = backend_request("backend", "backend-1");
    assert_eq!(classify_reply(&req), BackendReply::Silent);
    req.error_detail = "apply failed".to_string();
    assert_eq!(classify_reply(&req), BackendReply::Nack);
    req.ack = true;
    assert_eq!(classify_reply(&req), BackendReply::Ack);
    req.conflicts.push(NodeConflict::default());
    req.conflicts.push(NodeConflict::default());
    assert_eq!(classify_reply(&req), BackendReply::AckWithConflicts(2));
}

fn peer_info(name: &str, underlay: &str, cidr: &str, overlay: &str) -> GatewayPeerInfo {
    GatewayPeerInfo {
        node_name: name.to_string(),
        underlay_ip: underlay.to_string(),
        public_ip: "198.51.100.1".to_string(),
        api_addr: format!("{underlay}:18080"),
        xds_addr: format!("{underlay}:22222"),
        overlay_cidr: cidr.to_string(),
        gateway_overlay_ip: overlay.to_string(),
        dscp: 46,
        vni: 100,
        vxlan_port: 4789,
        mtu: 1450,
        version: "test".to_string(),
        capabilities: vec!["vip.l2".to_string()],
    }
}

fn identity(name: &str, underlay: &str, cidr: &str, overlay: &str, dscp: u32) -> GatewayIdentity {
    let mut id = identity_from_pb(peer_info(name, underlay, cidr, overlay)).unwrap();
    id.dscp = dscp;
    id
}

#[test]
fn caller_identity_needs_its_fields() {
    let id = identity_from_pb(peer_info("gateway-a", "192.168.0.12", "10.255.12.0/24", "10.255.12.1/24")).unwrap();
    assert_eq!(id.name, "gateway-a");
    assert_eq!(id.overlay_ip, "10.255.12.1/24");
    assert_eq!(id.vxlan_port, 4789);
    let back = identity_to_pb(id);
    assert_eq!(back, peer_info("gateway-a", "192.168.0.12", "10.255.12.0/24", "10.255.12.1/24"));

    let mut p = peer_info("gateway-a", "192.168.0.12", "10.255.12.0/24", "10.255.12.1/24");
    p.overlay_cidr = " ".to_string();
    assert_eq!(identity_from_pb(p), Err(PairRequestError::Required(RequiredField::OverlayCidr)));
    let mut p = peer_info("", "192.168.0.12", "10.255.12.0/24", "10.255.12.1/24");
    p.vxlan_port = 70000;
    assert_eq!(identity_from_pb(p), Err(PairRequestError::Required(RequiredField::NodeName)));
    let mut p = peer_info("gateway-a", "192.168.0.12", "10.255.12.0/24", "10.255.12.1/24");
    p.vxlan_port = 70000;
    assert_eq!(identity_from_pb(p), Err(PairRequestError::VxlanPortRange));
}

#[test]
fn pair_request_checks_come_in_order() {
    let caller = peer_info("gateway-a", "192.168.0.12", "10.255.12.0/24", "10.255.12.1/24");
    assert_eq!(check_pair_request(false, Some(caller.clone()), "tok"), Err(PairRequestError::NotGateway));
    assert_eq!(check_pair_request(true, None, "tok"), Err(PairRequestError::MissingCaller));
    assert_eq!(check_pair_request(true, Some(caller.clone()), "  "), Err(PairRequestError::MissingSessionToken));
    assert_eq!(check_pair_request(true, Some(caller), "tok").unwrap().name, "gateway-a");
}

#[test]
fn pairing_plans_the_reciprocal_configuration() {
    let local = identity("gateway-b", "192.168.0.16", "10.255.16.0/24", "10.255.16.1/24", 40);
    let caller = identity("gateway-a", "192.168.0.12", "10.255.12.0/24", "10.255.12.1/24", 46);
    let incoming = GatewayHaRuntimeConfig { enabled: true, self_index: 0, ..GatewayHaRuntimeConfig::default() };
    let plan = pair_plan(local.clone(), &caller, &GatewayHaRuntimeConfig::default(), incoming, "tok".to_string()).unwrap();
    assert_eq!(plan.local_cfg.self_index, 1);
    assert!(plan.local_cfg.enabled);
    assert_eq!(plan.local_cfg.peers.len(), 1);
    assert_eq!(plan.local_cfg.peers[0].name, "gateway-a");
    assert_eq!(plan.secret.peer_name, "gateway-a");
    assert_eq!(plan.secret.session_token, "tok");
    assert_eq!(plan.response.responder, Some(identity_to_pb(local)));
    assert!(plan.response.warnings.is_empty());
}

#[test]
fn pairing_refuses_a_taken_slot_and_a_bad_pair() {
    let local = identity("gateway-b", "192.168.0.16", "10.255.16.0/24", "10.255.16.1/24", 40);
    let caller = identity("gateway-a", "192.168.0.12", "10.255.12.0/24", "10.255.12.1/24", 46);
    let existing = GatewayHaRuntimeConfig {
        peers: vec![GatewayHaPeer {
            name: "gateway-c".to_string(),
            underlay_ip: "192.168.0.17".to_string(),
            ..GatewayHaPeer::default()
        }],
        ..GatewayHaRuntimeConfig::default()
    };
    let r = pair_plan(local.clone(), &caller, &existing, GatewayHaRuntimeConfig::default(), "tok".to_string());
    assert!(matches!(r, Err(PairRequestError::SlotTaken(_))));
    let same = identity("gateway-b", "192.168.0.12", "10.255.12.0/24", "10.255.12.1/24", 46);
    let r = pair_plan(local, &same, &GatewayHaRuntimeConfig::default(), GatewayHaRuntimeConfig::default(), "tok".to_string());
    assert!(matches!(r, Err(PairRequestError::InvalidPair(HaConfigError::SameName))));
}
