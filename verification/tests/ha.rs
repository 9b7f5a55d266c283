use edge_lb::ha::{
    config_with_peer, ensure_peer_slot_available, load_for_state_dir, new_session_token_secret,
    normalize_runtime_config, peer_from_identity, reciprocal_config, session_token_matches,
    token_id, unpair_for_state_dir, validate, validate_identity_pair, GarpConfig,
    GatewayHaPeer, GatewayHaRuntimeConfig, GatewayIdentity, HaConfigError, VipBindDevice,
    VipConfig, VipOwner, VipProvider, BgpConfig,
};

fn test_identity(name: &str, underlay_ip: &str, overlay_cidr: &str, dscp: u32) -> GatewayIdentity {
    GatewayIdentity {
        name: name.to_string(),
        underlay_ip: underlay_ip.to_string(),
        public_ip: "198.51.100.1".to_string(),
        api_addr: format!("{underlay_ip}:18080"),
        xds_addr: format!("{underlay_ip}:22222"),
        overlay_cidr: overlay_cidr.to_string(),
        overlay_ip: overlay_cidr.replace(".0/", ".1/"),
        dscp,
        vni: 100,
        vxlan_port: 4789,
        mtu: 1450,
        version: "test".to_string(),
        capabilities: Vec::new(),
    }
}

fn one_peer() -> Vec<GatewayHaPeer> {
    vec![GatewayHaPeer {
        name: "gateway-b".to_string(),
        underlay_ip: "192.168.0.16".to_string(),
        ..GatewayHaPeer::default()
    }]
}

#[test]
fn validate_rejects_enabled_ha_without_peers() {
    let cfg = GatewayHaRuntimeConfig {
        enabled: true,
        connection_sync: true,
        ..GatewayHaRuntimeConfig::default()
    };
    assert!(validate(&cfg).is_err());
}

#[test]
fn validate_rejects_more_than_one_peer() {
    let cfg = GatewayHaRuntimeConfig {
        enabled: true,
        peers: vec![
            GatewayHaPeer {
                name: "gateway-b".to_string(),
                underlay_ip: "192.168.0.16".to_string(),
                ..GatewayHaPeer::default()
            },
            GatewayHaPeer {
                name: "gateway-c".to_string(),
                underlay_ip: "192.168.0.17".to_string(),
                ..GatewayHaPeer::default()
            },
        ],
        ..GatewayHaRuntimeConfig::default()
    };
    assert!(validate(&cfg).is_err());
}

#[test]
fn validate_accepts_minimal_connection_sync_peer() {
    let cfg = GatewayHaRuntimeConfig {
        enabled: true,
        connection_sync: true,
        peers: one_peer(),
        ..GatewayHaRuntimeConfig::default()
    };
    validate(&cfg).expect("valid HA peer");
}

#[test]
fn validate_rejects_invalid_garp_config() {
    let cfg = GatewayHaRuntimeConfig {
        enabled: true,
        connection_sync: true,
        peers: one_peer(),
        vip: VipConfig {
            garp: GarpConfig { count: 0, ..GarpConfig::default() },
            ..VipConfig::default()
        },
        ..GatewayHaRuntimeConfig::default()
    };
    assert!(validate(&cfg).is_err());
}

#[test]
fn validate_identity_pair_rejects_dscp_conflict() {
    let local = test_identity("gateway-a", "192.168.0.12", "10.255.12.0/24", 46);
    let peer = test_identity("gateway-b", "192.168.0.16", "10.255.16.0/24", 46);
    assert!(validate_identity_pair(&local, &peer).is_err());
}

#[test]
fn validate_identity_pair_rejects_overlay_overlap() {
    let local = test_identity("gateway-a", "192.168.0.12", "10.255.12.0/24", 46);
    let peer = test_identity("gateway-b", "192.168.0.16", "10.255.12.128/25", 40);
    assert!(validate_identity_pair(&local, &peer).is_err());
}

#[test]
fn reciprocal_config_flips_self_index_and_keeps_peer_identity() {
    let local = test_identity("gateway-b", "192.168.0.16", "10.255.16.0/24", 40);
    let peer = test_identity("gateway-a", "192.168.0.12", "10.255.12.0/24", 46);
    let input = GatewayHaRuntimeConfig {
        enabled: true,
        self_index: 0,
        connection_sync: true,
        ..GatewayHaRuntimeConfig::default()
    };

    let cfg = reciprocal_config(&input, &local, &peer).unwrap();

    assert_eq!(cfg.self_index, 1);
    assert_eq!(cfg.peers.len(), 1);
    assert_eq!(cfg.peers[0].name, "gateway-a");
    assert_eq!(cfg.peers[0].dscp, Some(46));
    assert_eq!(cfg.peers[0].overlay_cidr.as_deref(), Some("10.255.12.0/24"));
}

#[test]
fn pairing_rejects_existing_different_peer() {
    let peer = test_identity("gateway-b", "192.168.0.16", "10.255.16.0/24", 40);
    let cfg = GatewayHaRuntimeConfig {
        peers: vec![GatewayHaPeer {
            name: "gateway-c".to_string(),
            underlay_ip: "192.168.0.17".to_string(),
            ..GatewayHaPeer::default()
        }],
        ..GatewayHaRuntimeConfig::default()
    };
    assert!(ensure_peer_slot_available(&cfg, &peer).is_err());
}

#[test]
fn peer_secret_uses_one_session_token() {
    let peer = test_identity("gateway-b", "192.168.0.16", "10.255.16.0/24", 40);
    let secret = new_session_token_secret(&peer, "ha-session-token".to_string());
    assert_eq!(secret.session_token, "ha-session-token");
    assert_eq!(secret.session_token_id, token_id("ha-session-token"));
}

#[test]
fn session_token_match_uses_shared_token() {
    let peer = test_identity("gateway-b", "192.168.0.16", "10.255.16.0/24", 40);
    let secret = new_session_token_secret(&peer, "ha-session-token".to_string());
    assert!(session_token_matches(Some(&secret), "ha-session-token"));
    assert!(!session_token_matches(Some(&secret), "wrong"));
    assert!(!session_token_matches(None, "ha-session-token"));
    assert!(!session_token_matches(Some(&secret), ""));
}

#[test]
fn unpair_clears_peer_and_requires_restart_with_connection_sync() {
    let cfg = GatewayHaRuntimeConfig {
        enabled: true,
        connection_sync: true,
        preferred_active: Some("gateway-a".to_string()),
        peers: one_peer(),
        ..GatewayHaRuntimeConfig::default()
    };
    let (next, restart_required) = unpair_for_state_dir(cfg);
    assert!(restart_required);
    assert!(!next.enabled);
    assert!(next.peers.is_empty());
    assert!(next.preferred_active.is_none());
    let (_, restart_again) = unpair_for_state_dir(next);
    assert!(!restart_again);
}

#[test]
fn missing_stored_config_loads_as_default() {
    assert_eq!(load_for_state_dir(None), GatewayHaRuntimeConfig::default());
}

#[test]
fn defaults_and_normalization() {
    let cfg = GatewayHaRuntimeConfig::default();
    assert_eq!(cfg.vip.owner, VipOwner::EdgeLb);
    assert_eq!(cfg.vip.bind_device, VipBindDevice::Loopback);
    assert_eq!(cfg.vip.garp, GarpConfig::default());
    assert_eq!(cfg.bfd.port, 3784);
    assert_eq!(cfg.xsync.port, 22222);
    let mut raw = GatewayHaRuntimeConfig::default();
    raw.connection_sync = false;
    raw.vip.provider = VipProvider::L2;
    raw.vip.private_vip = Some("192.168.0.6".to_string());
    raw.vip.promote_hook = Some("/bin/promote".to_string());
    let n = normalize_runtime_config(raw);
    assert!(n.connection_sync);
    assert_eq!(n.vip.private_vip.as_deref(), Some("192.168.0.6"));
    assert!(n.vip.promote_hook.is_none());
    assert_eq!(normalize_runtime_config(n.clone()), n);
    assert_eq!(load_for_state_dir(Some(n.clone())), n);
}

#[test]
fn token_id_is_fnv1a_in_sixteen_hex_digits() {
    assert_eq!(token_id(""), "cbf29ce484222325");
    assert_eq!(token_id("a"), "af63dc4c8601ec8c");
}

#[test]
fn bgp_settings_are_checked_only_for_an_enabled_bgp_pair() {
    let mut cfg = GatewayHaRuntimeConfig {
        enabled: true,
        peers: one_peer(),
        ..GatewayHaRuntimeConfig::default()
    };
    cfg.vip.provider = VipProvider::Bgp;
    assert_eq!(validate(&cfg), Err(HaConfigError::BgpLocalAsMissing));
    cfg.bgp = BgpConfig {
        local_as: Some(65001),
        peers: vec!["192.168.0.1:65000".to_string()],
        ..BgpConfig::default()
    };
    assert_eq!(validate(&cfg), Ok(()));
    cfg.bgp.peers = vec!["192.168.0.1".to_string()];
    assert_eq!(validate(&cfg), Err(HaConfigError::BgpPeerShape(0)));
    cfg.bgp.peers = vec!["192.168.0.1:0".to_string()];
    assert_eq!(validate(&cfg), Err(HaConfigError::BgpPeerAsnZero(0)));
    cfg.bgp.peers = vec!["192.168.0.1:65000".to_string()];
    cfg.bgp.keepalive_secs = 90;
    assert_eq!(validate(&cfg), Err(HaConfigError::BgpKeepaliveNotBelowHold));
    cfg.enabled = false;
    cfg.peers.clear();
    assert_eq!(validate(&cfg), Ok(()));
}

#[test]
fn garp_device_must_fit_an_interface_name() {
    let mut cfg = GatewayHaRuntimeConfig::default();
    cfg.vip.garp_device = Some(" ".to_string());
    assert_eq!(validate(&cfg), Err(HaConfigError::GarpDeviceEmpty));
    cfg.vip.garp_device = Some("a-very-long-device".to_string());
    assert_eq!(validate(&cfg), Err(HaConfigError::GarpDeviceTooLong));
    cfg.vip.garp_device = Some("eth0".to_string());
    assert_eq!(validate(&cfg), Ok(()));
}

#[test]
fn pairing_keeps_the_same_peer_and_builds_its_record() {
    let local = test_identity("gateway-a", "192.168.0.12", "10.255.12.0/24", 46);
    let peer = test_identity("gateway-b", "192.168.0.16", "10.255.16.0/24", 40);
    let cfg = GatewayHaRuntimeConfig { peers: one_peer(), ..GatewayHaRuntimeConfig::default() };
    let next = config_with_peer(&cfg, &local, &peer).unwrap();
    assert!(next.enabled);
    assert_eq!(next.peers.len(), 1);
    assert_eq!(next.peers[0], peer_from_identity(&peer));
    assert_eq!(next.peers[0].public_ip.as_deref(), Some("198.51.100.1"));
    assert_eq!(
        validate_identity_pair(&local, &local),
        Err(HaConfigError::SameName)
    );
}
