use edge_lb::ha::{GatewayHaPeer, GatewayHaRuntimeConfig, VipBindDevice, VipProvider};
use edge_lb::ipnet::parse_ipv4;
use edge_lb::overlay::GatewayNode;
use edge_lb::route_msg::IpAddress;

fn v4(s: &str) -> IpAddress {
    IpAddress::V4(parse_ipv4(s).unwrap())
}

fn gw(name: &str, underlay: &str) -> GatewayNode {
    GatewayNode { name: name.to_string(), public_ip: v4(underlay), underlay_ip: v4(underlay), overlay_ip: String::new() }
}
use edge_lb::native_ha::{
    handle_ka_hook_event, handoff_or_release_on_shutdown, local_active, private_vip_target, reconcile_vip,
    release_local_vip, state, vip_device, HookVip, KaHookAction, KaHookEvent, ShutdownStep,
    UnsupportedHookState, VipChange,
};

fn l2_pair() -> GatewayHaRuntimeConfig {
    let mut cfg = GatewayHaRuntimeConfig {
        enabled: true,
        peers: vec![GatewayHaPeer {
            name: "gateway-b".to_string(),
            underlay_ip: "192.168.0.16".to_string(),
            ..GatewayHaPeer::default()
        }],
        ..GatewayHaRuntimeConfig::default()
    };
    cfg.vip.provider = VipProvider::L2;
    cfg.vip.private_vip = Some("192.168.0.6".to_string());
    cfg
}

#[test]
fn state_names_follow_ha_and_the_active_gateway() {
    let me = v4("192.168.0.15");
    let off = GatewayHaRuntimeConfig::default();
    assert_eq!(state(&off, "gw-a", me, Some(&gw("gw-a", "192.168.0.15")), None).state, "disabled");
    let on = l2_pair();
    let s = state(&on, "gw-a", me, Some(&gw("gw-a", "192.168.0.15")), Some(3));
    assert_eq!(s.state, "MASTER");
    assert_eq!(s.active_gateway.as_deref(), Some("gw-a"));
    assert_eq!(s.peer_count, 1);
    assert_eq!(s.active_revision, Some(3));
    assert_eq!(state(&on, "gw-a", me, Some(&gw("gw-b", "192.168.0.16")), None).state, "BACKUP");
    assert_eq!(state(&on, "gw-a", me, Some(&gw("renamed", "192.168.0.15")), None).state, "MASTER");
    assert_eq!(state(&on, "gw-a", me, None, None).state, "BACKUP");
}

#[test]
fn active_record_names_or_addresses_this_node() {
    let me = v4("192.168.0.15");
    assert!(local_active(Some(&gw("gw-a", "10.0.0.1")), "gw-a", me));
    assert!(local_active(Some(&gw("x", "192.168.0.15")), "gw-a", me));
    assert!(!local_active(Some(&gw("gw-b", "192.168.0.16")), "gw-a", me));
    assert!(!local_active(None, "gw-a", me));
}

#[test]
fn reconcile_binds_on_the_active_gateway_and_releases_elsewhere() {
    let me = v4("192.168.0.15");
    let mine = gw("gw-a", "192.168.0.15");
    let other = gw("gw-b", "192.168.0.16");
    let cfg = l2_pair();
    assert_eq!(reconcile_vip(&cfg, Some(&mine), "gw-a", me, false), VipChange::BindAndAnnounce);
    assert_eq!(reconcile_vip(&cfg, Some(&mine), "gw-a", me, true), VipChange::Keep);
    assert_eq!(reconcile_vip(&cfg, Some(&other), "gw-a", me, true), VipChange::Release);
    assert_eq!(reconcile_vip(&cfg, Some(&other), "gw-a", me, false), VipChange::Keep);
    let mut hook = cfg.clone();
    hook.vip.provider = VipProvider::Hook;
    assert_eq!(reconcile_vip(&hook, Some(&mine), "gw-a", me, false), VipChange::Keep);
    let mut no_vip = cfg.clone();
    no_vip.vip.private_vip = None;
    assert_eq!(reconcile_vip(&no_vip, Some(&mine), "gw-a", me, false), VipChange::Keep);
    assert_eq!(reconcile_vip(&no_vip, Some(&other), "gw-a", me, true), VipChange::Keep);
}

#[test]
fn private_vip_target_parses_the_address_and_device() {
    let mut cfg = l2_pair();
    assert_eq!(private_vip_target(&cfg, "eth0"), Ok(Some((0xc0a8_0006, "lo".to_string()))));
    cfg.vip.bind_device = VipBindDevice::Underlay;
    assert_eq!(private_vip_target(&cfg, "eth0"), Ok(Some((0xc0a8_0006, "eth0".to_string()))));
    cfg.vip.private_vip = Some("not-an-ip".to_string());
    assert!(private_vip_target(&cfg, "eth0").is_err());
    cfg.vip.private_vip = None;
    assert_eq!(private_vip_target(&cfg, "eth0"), Ok(None));
    assert_eq!(vip_device(VipBindDevice::Loopback, "eth0"), "lo");
}

#[test]
fn shutdown_hands_over_from_the_master_and_releases_otherwise() {
    let cfg = l2_pair();
    assert_eq!(handoff_or_release_on_shutdown(&cfg, true), ShutdownStep::HandOff("gateway-b".to_string()));
    assert_eq!(handoff_or_release_on_shutdown(&cfg, false), ShutdownStep::Release);
    assert_eq!(handoff_or_release_on_shutdown(&GatewayHaRuntimeConfig::default(), true), ShutdownStep::Nothing);
    assert!(release_local_vip(&cfg, true));
    assert!(!release_local_vip(&cfg, false));
}

#[test]
fn hook_events_promote_or_demote() {
    let ev = |state: &str, vip: &str| KaHookEvent { instance: "vi".to_string(), state: state.to_string(), vip: vip.to_string() };
    assert_eq!(handle_ka_hook_event(&ev(" master ", "192.168.0.6")), Ok(KaHookAction::Promote(HookVip::Addr(0xc0a8_0006))));
    assert_eq!(handle_ka_hook_event(&ev("BACKUP", "")), Ok(KaHookAction::Demote(HookVip::Absent)));
    assert_eq!(handle_ka_hook_event(&ev("stop", "bad")), Ok(KaHookAction::Demote(HookVip::Invalid)));
    assert_eq!(handle_ka_hook_event(&ev("fault", "")), Err(UnsupportedHookState("FAULT".to_string())));
}
