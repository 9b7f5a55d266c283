//! Gateway high availability: the runtime configuration of an active-backup
//! pair, its normalisation and validation, pairing two gateway identities
//! and the peer session secret.

use vstd::prelude::*;
use vstd::string::*;
use vstd::utf8::encode_utf8;
use crate::text::{trim, is_ws};
use crate::ipnet::{parsed_ipv4, Ipv4Net, spec_parse_net};
use crate::route_msg::IpAddress;

verus! {

/// The only HA mode: one active gateway, one backup.
#[derive(Clone, Copy, Debug, Default, PartialEq, Eq, Structural)]
pub enum GatewayHaMode {
    #[default]
    ActiveBackup,
}

/// Transport of connection-state replication.
#[derive(Clone, Copy, Debug, Default, PartialEq, Eq, Structural)]
pub enum XsyncRpc {
    #[default]
    Grpc,
}

/// How a failover is triggered.
#[derive(Clone, Copy, Debug, Default, PartialEq, Eq, Structural)]
pub enum FailoverMode {
    Manual,
    #[default]
    BfdAuto,
}

/// Where the VIP is bound on the active gateway.
#[derive(Clone, Copy, Debug, Default, PartialEq, Eq, Structural)]
pub enum VipBindDevice {
    #[default]
    Loopback,
    Underlay,
}

/// How the VIP is moved between the gateways.
#[derive(Clone, Copy, Debug, Default, PartialEq, Eq, Structural)]
pub enum VipProvider {
    L2,
    Bgp,
    #[default]
    Hook,
}

/// Who owns the VIP address.
#[derive(Clone, Copy, Debug, Default, PartialEq, Eq, Structural)]
pub enum VipOwner {
    #[default]
    EdgeLb,
}

/// BFD session settings.
#[derive(Clone, Debug, PartialEq, Eq)]
pub struct BfdConfig {
    pub bind_addr: String,
    pub port: u16,
    pub interval_ms: u64,
    pub detect_multiplier: u32,
}

impl Default for BfdConfig {
    fn default() -> (r: Self)
        ensures
            r.bind_addr@ == "0.0.0.0"@,
            r.port == 3784,
            r.interval_ms == 300,
            r.detect_multiplier == 3,
    {
        BfdConfig { bind_addr: String::from_str("0.0.0.0"), port: 3784, interval_ms: 300, detect_multiplier: 3 }
    }
}

/// Connection-state replication listener and reconnect backoff.
#[derive(Clone, Debug, PartialEq, Eq)]
pub struct XsyncConfig {
    pub bind_addr: String,
    pub port: u16,
    pub reconnect_min_ms: u64,
    pub reconnect_max_ms: u64,
}

impl Default for XsyncConfig {
    fn default() -> (r: Self)
        ensures
            r.bind_addr@ == "0.0.0.0"@,
            r.port == 22222,
            r.reconnect_min_ms == 250,
            r.reconnect_max_ms == 5000,
    {
        XsyncConfig { bind_addr: String::from_str("0.0.0.0"), port: 22222, reconnect_min_ms: 250, reconnect_max_ms: 5000 }
    }
}

/// Gratuitous ARP announcements after a takeover.
#[derive(Clone, Copy, Debug, PartialEq, Eq, Structural)]
pub struct GarpConfig {
    pub count: u32,
    pub interval_ms: u64,
    pub repeat_after_ms: u64,
    pub repeat_count: u32,
}

impl Default for GarpConfig {
    fn default() -> (r: Self)
        ensures
            r == (GarpConfig { count: 10, interval_ms: 100, repeat_after_ms: 1000, repeat_count: 1 }),
    {
        GarpConfig { count: 10, interval_ms: 100, repeat_after_ms: 1000, repeat_count: 1 }
    }
}

/// BGP announcement of the VIP.
#[derive(Clone, Debug, PartialEq, Eq)]
pub struct BgpConfig {
    pub local_as: Option<u32>,
    pub router_id: String,
    pub peers: Vec<String>,
    pub hold_time_secs: u64,
    pub keepalive_secs: u64,
}

impl Default for BgpConfig {
    fn default() -> (r: Self)
        ensures
            r.local_as is None,
            r.router_id@ == "auto"@,
            r.peers@.len() == 0,
            r.hold_time_secs == 90,
            r.keepalive_secs == 30,
    {
        BgpConfig {
            local_as: None,
            router_id: String::from_str("auto"),
            peers: Vec::new(),
            hold_time_secs: 90,
            keepalive_secs: 30,
        }
    }
}

/// The VIP: provider, binding, announcements and the hook programs.
#[derive(Clone, Debug, PartialEq, Eq)]
pub struct VipConfig {
    pub provider: VipProvider,
    pub owner: VipOwner,
    pub bind_device: VipBindDevice,
    /// Interface that sends gratuitous ARP; none means the underlay device.
    pub garp_device: Option<String>,
    pub private_vip: Option<String>,
    pub bind_timeout_secs: u64,
    pub verify_timeout_secs: u64,
    pub garp: GarpConfig,
    pub promote_hook: Option<String>,
    pub demote_hook: Option<String>,
    pub verify_hook: Option<String>,
}

impl Default for VipConfig {
    fn default() -> (r: Self)
        ensures
            r.provider == VipProvider::Hook,
            r.owner == VipOwner::EdgeLb,
            r.bind_device == VipBindDevice::Loopback,
            r.garp_device is None,
            r.private_vip is None,
            r.bind_timeout_secs == 15,
            r.verify_timeout_secs == 10,
            r.garp == (GarpConfig { count: 10, interval_ms: 100, repeat_after_ms: 1000, repeat_count: 1 }),
            r.promote_hook is None,
            r.demote_hook is None,
            r.verify_hook is None,
    {
        VipConfig {
            provider: VipProvider::Hook,
            owner: VipOwner::EdgeLb,
            bind_device: VipBindDevice::Loopback,
            garp_device: None,
            private_vip: None,
            bind_timeout_secs: 15,
            verify_timeout_secs: 10,
            garp: GarpConfig::default(),
            promote_hook: None,
            demote_hook: None,
            verify_hook: None,
        }
    }
}

/// The other gateway of the pair as this gateway knows it.
#[derive(Clone, Debug, Default, PartialEq, Eq)]
pub struct GatewayHaPeer {
    pub name: String,
    pub underlay_ip: String,
    pub public_ip: Option<String>,
    pub api_addr: Option<String>,
    pub xds_addr: Option<String>,
    pub overlay_cidr: Option<String>,
    pub overlay_ip: Option<String>,
    pub dscp: Option<u32>,
    pub vni: Option<u32>,
    pub vxlan_port: Option<u16>,
    pub mtu: Option<u32>,
    pub version: Option<String>,
    pub capabilities: Vec<String>,
}

/// The session secret shared with the paired gateway.
#[derive(Clone, Debug, Default, PartialEq, Eq)]
pub struct GatewayHaPeerSecrets {
    pub peer_name: String,
    pub peer_underlay_ip: String,
    pub session_token: String,
    pub session_token_id: String,
    pub updated_at_unix: u64,
}

/// What a gateway announces of itself when pairing.
#[derive(Clone, Debug, PartialEq, Eq)]
pub struct GatewayIdentity {
    pub name: String,
    pub underlay_ip: String,
    pub public_ip: String,
    pub api_addr: String,
    pub xds_addr: String,
    pub overlay_cidr: String,
    pub overlay_ip: String,
    pub dscp: u32,
    pub vni: u32,
    pub vxlan_port: u16,
    pub mtu: u32,
    pub version: String,
    pub capabilities: Vec<String>,
}

/// The runtime HA configuration of a gateway.
#[derive(Clone, Debug, PartialEq, Eq)]
pub struct GatewayHaRuntimeConfig {
    pub enabled: bool,
    pub mode: GatewayHaMode,
    pub self_index: u32,
    pub preferred_active: Option<String>,
    pub connection_sync: bool,
    pub xsync_rpc: XsyncRpc,
    pub failover: FailoverMode,
    pub peers: Vec<GatewayHaPeer>,
    pub vip: VipConfig,
    pub bgp: BgpConfig,
    pub bfd: BfdConfig,
    pub xsync: XsyncConfig,
}

/// The settings of a gateway that was never paired.
pub open spec fn is_default_config(r: GatewayHaRuntimeConfig) -> bool {
    &&& !r.enabled
    &&& r.mode == GatewayHaMode::ActiveBackup
    &&& r.self_index == 0
    &&& r.preferred_active is None
    &&& r.connection_sync
    &&& r.xsync_rpc == XsyncRpc::Grpc
    &&& r.failover == FailoverMode::BfdAuto
    &&& r.peers@.len() == 0
    &&& r.vip.provider == VipProvider::Hook
    &&& r.vip.owner == VipOwner::EdgeLb
    &&& r.vip.bind_device == VipBindDevice::Loopback
    &&& r.vip.garp_device is None
    &&& r.vip.private_vip is None
    &&& r.vip.bind_timeout_secs == 15
    &&& r.vip.verify_timeout_secs == 10
    &&& r.vip.garp == (GarpConfig { count: 10, interval_ms: 100, repeat_after_ms: 1000, repeat_count: 1 })
    &&& r.vip.promote_hook is None && r.vip.demote_hook is None && r.vip.verify_hook is None
    &&& r.bgp.local_as is None && r.bgp.router_id@ == "auto"@ && r.bgp.peers@.len() == 0
    &&& r.bgp.hold_time_secs == 90 && r.bgp.keepalive_secs == 30
    &&& r.bfd.bind_addr@ == "0.0.0.0"@ && r.bfd.port == 3784
    &&& r.bfd.interval_ms == 300 && r.bfd.detect_multiplier == 3
    &&& r.xsync.bind_addr@ == "0.0.0.0"@ && r.xsync.port == 22222
    &&& r.xsync.reconnect_min_ms == 250 && r.xsync.reconnect_max_ms == 5000
}

impl Default for GatewayHaRuntimeConfig {
    fn default() -> (r: Self)
        ensures
            is_default_config(r),
    {
        GatewayHaRuntimeConfig {
            enabled: false,
            mode: GatewayHaMode::ActiveBackup,
            self_index: 0,
            preferred_active: None,
            connection_sync: true,
            xsync_rpc: XsyncRpc::Grpc,
            failover: FailoverMode::BfdAuto,
            peers: Vec::new(),
            vip: VipConfig::default(),
            bgp: BgpConfig::default(),
            bfd: BfdConfig::default(),
            xsync: XsyncConfig::default(),
        }
    }
}

/// The fixed settings of active-backup HA, with the provider-specific VIP
/// fields kept only for their provider: the private VIP for L2, the hook
/// programs for the hook provider.
pub open spec fn normalized(v: GatewayHaRuntimeConfig) -> GatewayHaRuntimeConfig {
    GatewayHaRuntimeConfig {
        mode: GatewayHaMode::ActiveBackup,
        connection_sync: true,
        xsync_rpc: XsyncRpc::Grpc,
        failover: FailoverMode::BfdAuto,
        vip: VipConfig {
            owner: VipOwner::EdgeLb,
            private_vip: if v.vip.provider == VipProvider::L2 {
                v.vip.private_vip
            } else {
                None
            },
            promote_hook: if v.vip.provider == VipProvider::Hook {
                v.vip.promote_hook
            } else {
                None
            },
            demote_hook: if v.vip.provider == VipProvider::Hook {
                v.vip.demote_hook
            } else {
                None
            },
            verify_hook: if v.vip.provider == VipProvider::Hook {
                v.vip.verify_hook
            } else {
                None
            },
            ..v.vip
        },
        ..v
    }
}

pub fn normalize_runtime_config(value: GatewayHaRuntimeConfig) -> (r: GatewayHaRuntimeConfig)
    ensures
        r == normalized(value),
{
    let mut value = value;
    value.mode = GatewayHaMode::ActiveBackup;
    value.connection_sync = true;
    value.xsync_rpc = XsyncRpc::Grpc;
    value.failover = FailoverMode::BfdAuto;
    value.vip.owner = VipOwner::EdgeLb;
    if value.vip.provider != VipProvider::L2 {
        value.vip.private_vip = None;
    }
    if value.vip.provider != VipProvider::Hook {
        value.vip.promote_hook = None;
        value.vip.demote_hook = None;
        value.vip.verify_hook = None;
    }
    value
}

/// Law: normalising twice changes nothing more than normalising once.
pub proof fn normalize_is_idempotent(v: GatewayHaRuntimeConfig)
    ensures
        normalized(normalized(v)) == normalized(v),
{
}

/// Why an HA configuration or a pairing is refused.
#[derive(Clone, Debug, PartialEq, Eq)]
pub enum HaConfigError {
    /// Active-backup HA supports exactly one peer.
    TooManyPeers,
    /// Enabled active-backup HA requires a peer.
    MissingPeer,
    /// `self_index` is outside the configured cluster.
    SelfIndexOutOfRange,
    PeerNameRequired(usize),
    PeerUnderlayRequired(usize),
    BadPeerUnderlay(usize),
    BadPeerPublicIp(usize),
    GarpCountZero,
    GarpIntervalZero,
    GarpIntervalTooLarge,
    GarpRepeatAfterTooLarge,
    GarpRepeatCountTooLarge,
    /// `vip.garp_device` is present but blank.
    GarpDeviceEmpty,
    /// `vip.garp_device` does not fit an interface name.
    GarpDeviceTooLong,
    BgpLocalAsMissing,
    BgpLocalAsZero,
    BgpPeersEmpty,
    BgpPeerEmpty(usize),
    /// A BGP peer is not written `<ip>:<asn>`.
    BgpPeerShape(usize),
    BgpPeerIp(usize),
    BgpPeerAsn(usize),
    BgpPeerAsnZero(usize),
    BgpRouterId,
    BgpHoldTimeZero,
    BgpKeepaliveZero,
    BgpKeepaliveNotBelowHold,
    LocalNameRequired,
    PeerNameMissing,
    /// Both gateways have the same node name.
    SameName,
    BadLocalUnderlay,
    BadPeerUnderlayIp,
    UnspecifiedUnderlay,
    SameUnderlay,
    SameDscp,
    BadLocalOverlay,
    BadPeerOverlay,
    OverlayOverlap,
    VniMismatch,
    VxlanPortMismatch,
    MtuMismatch,
    /// The gateway is already paired with another peer.
    AlreadyPaired { name: String, underlay_ip: String },
}

/// Interface names are limited to this many bytes, terminator included.
pub const IFNAMSIZ: usize = 16;

/// An IP address as the validation reads it (`IpAddr`: IPv4 or IPv6).
pub open spec fn ip_ok(s: Seq<char>) -> bool {
    crate::registry::spec_parse_ip(s) is Some
}

/// The first of two possible errors.
pub open spec fn or_else(a: Option<HaConfigError>, b: Option<HaConfigError>) -> Option<HaConfigError> {
    match a {
        Some(e) => Some(e),
        None => b,
    }
}

/// The fields of a peer that validation reads: name, underlay address and
/// public address.
pub open spec fn peer_key(p: GatewayHaPeer) -> (Seq<char>, Seq<char>, Option<Seq<char>>) {
    (p.name@, p.underlay_ip@, match p.public_ip {
        Some(ip) => Some(ip@),
        None => None,
    })
}

pub open spec fn peer_error(k: (Seq<char>, Seq<char>, Option<Seq<char>>), idx: usize) -> Option<HaConfigError> {
    if trim(k.0).len() == 0 {
        Some(HaConfigError::PeerNameRequired(idx))
    } else if trim(k.1).len() == 0 {
        Some(HaConfigError::PeerUnderlayRequired(idx))
    } else if !ip_ok(k.1) {
        Some(HaConfigError::BadPeerUnderlay(idx))
    } else {
        match k.2 {
            Some(ip) => if ip_ok(ip) {
                None
            } else {
                Some(HaConfigError::BadPeerPublicIp(idx))
            },
            None => None,
        }
    }
}

pub open spec fn garp_error(g: GarpConfig) -> Option<HaConfigError> {
    if g.count == 0 {
        Some(HaConfigError::GarpCountZero)
    } else if g.interval_ms == 0 {
        Some(HaConfigError::GarpIntervalZero)
    } else if g.interval_ms > 60_000 {
        Some(HaConfigError::GarpIntervalTooLarge)
    } else if g.repeat_after_ms > 60_000 {
        Some(HaConfigError::GarpRepeatAfterTooLarge)
    } else if g.repeat_count > 10 {
        Some(HaConfigError::GarpRepeatCountTooLarge)
    } else {
        None
    }
}

pub open spec fn garp_device_error(d: Option<String>) -> Option<HaConfigError> {
    match d {
        Some(d) => if trim(d@).len() == 0 {
            Some(HaConfigError::GarpDeviceEmpty)
        } else if encode_utf8(trim(d@)).len() >= IFNAMSIZ {
            Some(HaConfigError::GarpDeviceTooLong)
        } else {
            None
        },
        None => None,
    }
}

/// `k` is the last occurrence of `c` in `s`.
pub open spec fn last_index_of(s: Seq<char>, c: char, k: int) -> bool {
    0 <= k < s.len() && s[k] == c && forall|j: int| k < j < s.len() ==> s[j] != c
}

/// A BGP peer `<ip>:<asn>`, split at its last colon.
pub open spec fn bgp_peer_error(p: Seq<char>, idx: usize) -> Option<HaConfigError> {
    let t = trim(p);
    if t.len() == 0 {
        Some(HaConfigError::BgpPeerEmpty(idx))
    } else if !exists|k: int| last_index_of(t, ':', k) {
        Some(HaConfigError::BgpPeerShape(idx))
    } else {
        let k = choose|k: int| last_index_of(t, ':', k);
        if !ip_ok(t.take(k)) {
            Some(HaConfigError::BgpPeerIp(idx))
        } else {
            match crate::text::parse_u32_spec(t.skip(k + 1)) {
                None => Some(HaConfigError::BgpPeerAsn(idx)),
                Some(asn) => if asn == 0 {
                    Some(HaConfigError::BgpPeerAsnZero(idx))
                } else {
                    None
                },
            }
        }
    }
}

/// The error of the first bad BGP peer from index `i` on.
pub open spec fn bgp_peers_error(ps: Seq<String>, i: int) -> Option<HaConfigError>
    decreases ps.len() - i,
{
    if i < 0 || i >= ps.len() {
        None
    } else {
        or_else(bgp_peer_error(ps[i]@, i as usize), bgp_peers_error(ps, i + 1))
    }
}

pub open spec fn bgp_error(b: BgpConfig) -> Option<HaConfigError> {
    match b.local_as {
        None => Some(HaConfigError::BgpLocalAsMissing),
        Some(a) => if a == 0 {
            Some(HaConfigError::BgpLocalAsZero)
        } else if b.peers@.len() == 0 {
            Some(HaConfigError::BgpPeersEmpty)
        } else {
            or_else(
                bgp_peers_error(b.peers@, 0),
                if trim(b.router_id@) != "auto"@ && parsed_ipv4(b.router_id@) is None {
                    Some(HaConfigError::BgpRouterId)
                } else if b.hold_time_secs == 0 {
                    Some(HaConfigError::BgpHoldTimeZero)
                } else if b.keepalive_secs == 0 {
                    Some(HaConfigError::BgpKeepaliveZero)
                } else if b.keepalive_secs >= b.hold_time_secs {
                    Some(HaConfigError::BgpKeepaliveNotBelowHold)
                } else {
                    None
                },
            )
        },
    }
}

/// The first error of an HA configuration given by the parts validation
/// reads, checked in order: peer count, peer fields, GARP, GARP device and,
/// when BGP announces the VIP of an enabled pair, the BGP settings.
pub open spec fn validation_error(
    enabled: bool,
    self_index: u32,
    peers: Seq<(Seq<char>, Seq<char>, Option<Seq<char>>)>,
    vip: VipConfig,
    bgp: BgpConfig,
) -> Option<HaConfigError> {
    if peers.len() > 1 {
        Some(HaConfigError::TooManyPeers)
    } else if enabled && peers.len() == 0 {
        Some(HaConfigError::MissingPeer)
    } else if enabled && self_index > peers.len() {
        Some(HaConfigError::SelfIndexOutOfRange)
    } else {
        or_else(
            if peers.len() == 1 {
                peer_error(peers[0], 0)
            } else {
                None
            },
            or_else(
                garp_error(vip.garp),
                or_else(
                    garp_device_error(vip.garp_device),
                    if enabled && vip.provider == VipProvider::Bgp {
                        bgp_error(bgp)
                    } else {
                        None
                    },
                ),
            ),
        )
    }
}

pub open spec fn spec_validate(v: GatewayHaRuntimeConfig) -> Option<HaConfigError> {
    validation_error(v.enabled, v.self_index, v.peers@.map_values(|p: GatewayHaPeer| peer_key(p)), v.vip, v.bgp)
}

fn ip_text_ok(s: &str) -> (r: bool)
    ensures
        r == ip_ok(s@),
{
    crate::registry::parse_ip_address(s).is_some()
}

fn is_blank(s: &str) -> (r: bool)
    ensures
        r == (trim(s@).len() == 0),
{
    crate::text::trimmed(s).len() == 0
}

fn check_peer(p: &GatewayHaPeer, idx: usize) -> (r: Option<HaConfigError>)
    ensures
        r == peer_error(peer_key(*p), idx),
{
    if is_blank(p.name.as_str()) {
        return Some(HaConfigError::PeerNameRequired(idx));
    }
    if is_blank(p.underlay_ip.as_str()) {
        return Some(HaConfigError::PeerUnderlayRequired(idx));
    }
    if !ip_text_ok(p.underlay_ip.as_str()) {
        return Some(HaConfigError::BadPeerUnderlay(idx));
    }
    match &p.public_ip {
        Some(ip) => if ip_text_ok(ip.as_str()) {
            None
        } else {
            Some(HaConfigError::BadPeerPublicIp(idx))
        },
        None => None,
    }
}

fn validate_garp(g: &GarpConfig) -> (r: Option<HaConfigError>)
    ensures
        r == garp_error(*g),
{
    if g.count == 0 {
        Some(HaConfigError::GarpCountZero)
    } else if g.interval_ms == 0 {
        Some(HaConfigError::GarpIntervalZero)
    } else if g.interval_ms > 60_000 {
        Some(HaConfigError::GarpIntervalTooLarge)
    } else if g.repeat_after_ms > 60_000 {
        Some(HaConfigError::GarpRepeatAfterTooLarge)
    } else if g.repeat_count > 10 {
        Some(HaConfigError::GarpRepeatCountTooLarge)
    } else {
        None
    }
}

fn validate_garp_device(d: &Option<String>) -> (r: Option<HaConfigError>)
    ensures
        r == garp_device_error(*d),
{
    match d {
        Some(d) => {
            let t = crate::text::trimmed(d.as_str());
            if t.len() == 0 {
                return Some(HaConfigError::GarpDeviceEmpty);
            }
            let name = crate::text::string_of(&t);
            let st = name.as_str();
            assert(st@ == trim(d@));
            let bytes = st.as_bytes();
            assert(bytes@ == encode_utf8(trim(d@)));
            if bytes.len() >= IFNAMSIZ {
                Some(HaConfigError::GarpDeviceTooLong)
            } else {
                None
            }
        },
        None => None,
    }
}

/// Index of the last `c` in `s`.
pub fn rfind_char(s: &[char], c: char) -> (r: Option<usize>)
    ensures
        r matches Some(k) ==> last_index_of(s@, c, k as int),
        r is None ==> !exists|k: int| last_index_of(s@, c, k),
{
    let mut i: usize = s.len();
    while i > 0
        invariant
            i <= s@.len(),
            forall|j: int| i <= j < s@.len() ==> s@[j] != c,
        decreases i,
    {
        if s[i - 1] == c {
            return Some(i - 1);
        }
        i = i - 1;
    }
    proof {
        assert forall|k: int| !last_index_of(s@, c, k) by {
            if 0 <= k < s@.len() {
                assert(s@[k] != c);
            }
        }
    }
    None
}

fn check_bgp_peer(p: &str, idx: usize) -> (r: Option<HaConfigError>)
    ensures
        r == bgp_peer_error(p@, idx),
{
    let t = crate::text::trimmed(p);
    if t.len() == 0 {
        return Some(HaConfigError::BgpPeerEmpty(idx));
    }
    match rfind_char(&t, ':') {
        None => Some(HaConfigError::BgpPeerShape(idx)),
        Some(k) => {
            proof {
                let c = choose|k2: int| last_index_of(t@, ':', k2);
                assert(last_index_of(t@, ':', c));
                if c < k {
                    assert(t@[k as int] == ':');
                } else if c > k {
                    assert(t@[c] == ':');
                }
                assert(c == k);
            }
            let n = t.len();
            let addr = crate::text::slice_chars(&t, 0, k);
            let asn = crate::text::slice_chars(&t, k + 1, n);
            assert(addr@ == t@.take(k as int));
            assert(asn@ == t@.skip(k + 1));
            if crate::registry::parse_ip_address(crate::text::string_of(&addr).as_str()).is_none() {
                return Some(HaConfigError::BgpPeerIp(idx));
            }
            match crate::text::parse_u32_dec(&asn) {
                None => Some(HaConfigError::BgpPeerAsn(idx)),
                Some(a) => if a == 0 {
                    Some(HaConfigError::BgpPeerAsnZero(idx))
                } else {
                    None
                },
            }
        },
    }
}

fn validate_bgp(b: &BgpConfig) -> (r: Option<HaConfigError>)
    ensures
        r == bgp_error(*b),
{
    let a = match b.local_as {
        None => return Some(HaConfigError::BgpLocalAsMissing),
        Some(a) => a,
    };
    if a == 0 {
        return Some(HaConfigError::BgpLocalAsZero);
    }
    if b.peers.len() == 0 {
        return Some(HaConfigError::BgpPeersEmpty);
    }
    let mut i: usize = 0;
    while i < b.peers.len()
        invariant
            0 <= i <= b.peers@.len(),
            b.local_as == Some(a),
            a != 0,
            b.peers@.len() > 0,
            bgp_peers_error(b.peers@, 0) == bgp_peers_error(b.peers@, i as int),
        decreases b.peers@.len() - i,
    {
        match check_bgp_peer(b.peers[i].as_str(), i) {
            Some(e) => {
                assert(bgp_peers_error(b.peers@, i as int) == Some(e));
                return Some(e);
            },
            None => {},
        }
        i = i + 1;
    }
    assert(bgp_peers_error(b.peers@, i as int) is None);
    let rid = crate::text::trimmed(b.router_id.as_str());
    let auto = crate::text::chars_of("auto");
    if !crate::text::chars_eq(&rid, &auto) && crate::ipnet::parse_ipv4(b.router_id.as_str()).is_none() {
        return Some(HaConfigError::BgpRouterId);
    }
    if b.hold_time_secs == 0 {
        Some(HaConfigError::BgpHoldTimeZero)
    } else if b.keepalive_secs == 0 {
        Some(HaConfigError::BgpKeepaliveZero)
    } else if b.keepalive_secs >= b.hold_time_secs {
        Some(HaConfigError::BgpKeepaliveNotBelowHold)
    } else {
        None
    }
}

/// Validate a configuration as it will be stored, that is normalised.
pub fn validate(value: &GatewayHaRuntimeConfig) -> (r: Result<(), HaConfigError>)
    ensures
        r == match spec_validate(normalized(*value)) {
            Some(e) => Err(e),
            None => Ok(()),
        },
{
    let ghost keys = value.peers@.map_values(|p: GatewayHaPeer| peer_key(p));
    let n = value.peers.len();
    if n > 1 {
        return Err(HaConfigError::TooManyPeers);
    }
    if value.enabled && n == 0 {
        return Err(HaConfigError::MissingPeer);
    }
    if value.enabled && value.self_index as usize > n {
        return Err(HaConfigError::SelfIndexOutOfRange);
    }
    if n == 1 {
        match check_peer(&value.peers[0], 0) {
            Some(e) => return Err(e),
            None => {},
        }
    }
    match validate_garp(&value.vip.garp) {
        Some(e) => return Err(e),
        None => {},
    }
    match validate_garp_device(&value.vip.garp_device) {
        Some(e) => return Err(e),
        None => {},
    }
    if value.enabled && value.vip.provider == VipProvider::Bgp {
        match validate_bgp(&value.bgp) {
            Some(e) => return Err(e),
            None => {},
        }
    }
    Ok(())
}

/// Why two gateway identities cannot form a pair, checked in order: names,
/// underlay addresses, DSCP, overlay networks, then the VXLAN settings that
/// must match.
pub open spec fn pair_error(local: GatewayIdentity, peer: GatewayIdentity) -> Option<HaConfigError> {
    if trim(local.name@).len() == 0 {
        Some(HaConfigError::LocalNameRequired)
    } else if trim(peer.name@).len() == 0 {
        Some(HaConfigError::PeerNameMissing)
    } else if local.name@ == peer.name@ {
        Some(HaConfigError::SameName)
    } else {
        match (crate::registry::spec_parse_ip(local.underlay_ip@), crate::registry::spec_parse_ip(peer.underlay_ip@)) {
            (None, _) => Some(HaConfigError::BadLocalUnderlay),
            (Some(_), None) => Some(HaConfigError::BadPeerUnderlayIp),
            (Some(a), Some(b)) => if crate::registry::is_unspecified(a) || crate::registry::is_unspecified(b) {
                Some(HaConfigError::UnspecifiedUnderlay)
            } else if a == b {
                Some(HaConfigError::SameUnderlay)
            } else if local.dscp == peer.dscp {
                Some(HaConfigError::SameDscp)
            } else {
                match (spec_parse_net(local.overlay_cidr@), spec_parse_net(peer.overlay_cidr@)) {
                    (None, _) => Some(HaConfigError::BadLocalOverlay),
                    (Some(_), None) => Some(HaConfigError::BadPeerOverlay),
                    (Some(x), Some(y)) => if x.spec_overlaps(y) {
                        Some(HaConfigError::OverlayOverlap)
                    } else if local.vni != peer.vni {
                        Some(HaConfigError::VniMismatch)
                    } else if local.vxlan_port != peer.vxlan_port {
                        Some(HaConfigError::VxlanPortMismatch)
                    } else if local.mtu != peer.mtu {
                        Some(HaConfigError::MtuMismatch)
                    } else {
                        None
                    },
                }
            },
        }
    }
}

fn same_text(a: &str, b: &str) -> (r: bool)
    ensures
        r == (a@ == b@),
{
    let x = crate::text::chars_of(a);
    let y = crate::text::chars_of(b);
    crate::text::chars_eq(&x, &y)
}

pub fn validate_identity_pair(local: &GatewayIdentity, peer: &GatewayIdentity) -> (r: Result<(), HaConfigError>)
    ensures
        r == match pair_error(*local, *peer) {
            Some(e) => Err(e),
            None => Ok(()),
        },
{
    if is_blank(local.name.as_str()) {
        return Err(HaConfigError::LocalNameRequired);
    }
    if is_blank(peer.name.as_str()) {
        return Err(HaConfigError::PeerNameMissing);
    }
    if same_text(local.name.as_str(), peer.name.as_str()) {
        return Err(HaConfigError::SameName);
    }
    let a = match crate::registry::parse_ip_address(local.underlay_ip.as_str()) {
        Some(a) => a,
        None => return Err(HaConfigError::BadLocalUnderlay),
    };
    let b = match crate::registry::parse_ip_address(peer.underlay_ip.as_str()) {
        Some(b) => b,
        None => return Err(HaConfigError::BadPeerUnderlayIp),
    };
    if a == IpAddress::V4(0) || a == IpAddress::V6(0) || b == IpAddress::V4(0) || b == IpAddress::V6(0) {
        return Err(HaConfigError::UnspecifiedUnderlay);
    }
    if a == b {
        return Err(HaConfigError::SameUnderlay);
    }
    if local.dscp == peer.dscp {
        return Err(HaConfigError::SameDscp);
    }
    let x = match Ipv4Net::parse(local.overlay_cidr.as_str()) {
        Some(x) => x,
        None => return Err(HaConfigError::BadLocalOverlay),
    };
    let y = match Ipv4Net::parse(peer.overlay_cidr.as_str()) {
        Some(y) => y,
        None => return Err(HaConfigError::BadPeerOverlay),
    };
    if x.overlaps(&y) {
        return Err(HaConfigError::OverlayOverlap);
    }
    if local.vni != peer.vni {
        return Err(HaConfigError::VniMismatch);
    }
    if local.vxlan_port != peer.vxlan_port {
        return Err(HaConfigError::VxlanPortMismatch);
    }
    if local.mtu != peer.mtu {
        return Err(HaConfigError::MtuMismatch);
    }
    Ok(())
}

/// A paired gateway may only be re-paired with the same peer (same name or
/// same underlay address).
pub open spec fn slot_error(peers: Seq<GatewayHaPeer>, peer: GatewayIdentity) -> Option<HaConfigError> {
    if peers.len() > 1 {
        Some(HaConfigError::TooManyPeers)
    } else if peers.len() == 0 {
        None
    } else if peers[0].name@ == peer.name@ || peers[0].underlay_ip@ == peer.underlay_ip@ {
        None
    } else {
        Some(HaConfigError::AlreadyPaired { name: peers[0].name, underlay_ip: peers[0].underlay_ip })
    }
}

pub fn ensure_peer_slot_available(cfg: &GatewayHaRuntimeConfig, peer: &GatewayIdentity) -> (r: Result<(), HaConfigError>)
    ensures
        r == match slot_error(cfg.peers@, *peer) {
            Some(e) => Err(e),
            None => Ok(()),
        },
{
    if cfg.peers.len() > 1 {
        return Err(HaConfigError::TooManyPeers);
    }
    if cfg.peers.len() == 0 {
        return Ok(());
    }
    let existing = &cfg.peers[0];
    if same_text(existing.name.as_str(), peer.name.as_str()) || same_text(existing.underlay_ip.as_str(), peer.underlay_ip.as_str()) {
        return Ok(());
    }
    Err(HaConfigError::AlreadyPaired { name: existing.name.clone(), underlay_ip: existing.underlay_ip.clone() })
}

/// A text kept only when it is not blank.
pub open spec fn non_empty_spec(v: String) -> Option<String> {
    if trim(v@).len() == 0 {
        None
    } else {
        Some(v)
    }
}

fn non_empty(value: String) -> (r: Option<String>)
    ensures
        r == non_empty_spec(value),
{
    if is_blank(value.as_str()) {
        None
    } else {
        Some(value)
    }
}

/// `p` is the peer record of the identity `id`.
pub open spec fn peer_of(p: GatewayHaPeer, id: GatewayIdentity) -> bool {
    &&& p.name == id.name
    &&& p.underlay_ip == id.underlay_ip
    &&& p.public_ip == non_empty_spec(id.public_ip)
    &&& p.api_addr == non_empty_spec(id.api_addr)
    &&& p.xds_addr == non_empty_spec(id.xds_addr)
    &&& p.overlay_cidr == non_empty_spec(id.overlay_cidr)
    &&& p.overlay_ip == non_empty_spec(id.overlay_ip)
    &&& p.dscp == Some(id.dscp)
    &&& p.vni == Some(id.vni)
    &&& p.vxlan_port == Some(id.vxlan_port)
    &&& p.mtu == Some(id.mtu)
    &&& p.version == non_empty_spec(id.version)
    &&& p.capabilities@ == id.capabilities@
}

fn clone_strings(v: &Vec<String>) -> (r: Vec<String>)
    ensures
        r@ == v@,
{
    let mut out: Vec<String> = Vec::new();
    let mut i: usize = 0;
    while i < v.len()
        invariant
            0 <= i <= v@.len(),
            out@ == v@.take(i as int),
        decreases v@.len() - i,
    {
        out.push(v[i].clone());
        assert(v@.take(i + 1) == v@.take(i as int).push(v@[i as int]));
        i = i + 1;
    }
    assert(v@.take(v@.len() as int) == v@);
    out
}

pub fn peer_from_identity(identity: &GatewayIdentity) -> (r: GatewayHaPeer)
    ensures
        peer_of(r, *identity),
{
    GatewayHaPeer {
        name: identity.name.clone(),
        underlay_ip: identity.underlay_ip.clone(),
        public_ip: non_empty(identity.public_ip.clone()),
        api_addr: non_empty(identity.api_addr.clone()),
        xds_addr: non_empty(identity.xds_addr.clone()),
        overlay_cidr: non_empty(identity.overlay_cidr.clone()),
        overlay_ip: non_empty(identity.overlay_ip.clone()),
        dscp: Some(identity.dscp),
        vni: Some(identity.vni),
        vxlan_port: Some(identity.vxlan_port),
        mtu: Some(identity.mtu),
        version: non_empty(identity.version.clone()),
        capabilities: clone_strings(&identity.capabilities),
    }
}

/// The validation key of the peer record made from an identity.
pub open spec fn identity_key(id: GatewayIdentity) -> (Seq<char>, Seq<char>, Option<Seq<char>>) {
    (id.name@, id.underlay_ip@, if trim(id.public_ip@).len() == 0 {
        None
    } else {
        Some(id.public_ip@)
    })
}

/// `n` is `cfg` paired with `peer`: enabled active-backup with `peer` as its
/// only peer, the given self index and preferred gateway, every other
/// setting kept.
pub open spec fn paired_with(
    n: GatewayHaRuntimeConfig,
    cfg: GatewayHaRuntimeConfig,
    peer: GatewayIdentity,
    self_index: u32,
    preferred_active: Option<String>,
) -> bool {
    &&& n.enabled
    &&& n.mode == GatewayHaMode::ActiveBackup
    &&& n.self_index == self_index
    &&& n.preferred_active == preferred_active
    &&& n.connection_sync == cfg.connection_sync
    &&& n.xsync_rpc == cfg.xsync_rpc
    &&& n.failover == cfg.failover
    &&& n.peers@.len() == 1
    &&& peer_of(n.peers@[0], peer)
    &&& n.vip == cfg.vip
    &&& n.bgp.local_as == cfg.bgp.local_as
    &&& n.bgp.router_id == cfg.bgp.router_id
    &&& n.bgp.peers@ == cfg.bgp.peers@
    &&& n.bgp.hold_time_secs == cfg.bgp.hold_time_secs
    &&& n.bgp.keepalive_secs == cfg.bgp.keepalive_secs
    &&& n.bfd == cfg.bfd
    &&& n.xsync == cfg.xsync
}

fn clone_opt(o: &Option<String>) -> (r: Option<String>)
    ensures
        r == *o,
{
    match o {
        Some(s) => Some(s.clone()),
        None => None,
    }
}

fn clone_vip(v: &VipConfig) -> (r: VipConfig)
    ensures
        r == *v,
{
    VipConfig {
        provider: v.provider,
        owner: v.owner,
        bind_device: v.bind_device,
        garp_device: clone_opt(&v.garp_device),
        private_vip: clone_opt(&v.private_vip),
        bind_timeout_secs: v.bind_timeout_secs,
        verify_timeout_secs: v.verify_timeout_secs,
        garp: v.garp,
        promote_hook: clone_opt(&v.promote_hook),
        demote_hook: clone_opt(&v.demote_hook),
        verify_hook: clone_opt(&v.verify_hook),
    }
}

fn with_peer(cfg: &GatewayHaRuntimeConfig, peer: &GatewayIdentity, self_index: u32, preferred_active: Option<String>) -> (r: GatewayHaRuntimeConfig)
    ensures
        paired_with(r, *cfg, *peer, self_index, preferred_active),
        r.peers@.map_values(|p: GatewayHaPeer| peer_key(p)) == seq![identity_key(*peer)],
{
    let p = peer_from_identity(peer);
    let mut peers: Vec<GatewayHaPeer> = Vec::new();
    peers.push(p);
    let r = GatewayHaRuntimeConfig {
        enabled: true,
        mode: GatewayHaMode::ActiveBackup,
        self_index,
        preferred_active,
        connection_sync: cfg.connection_sync,
        xsync_rpc: cfg.xsync_rpc,
        failover: cfg.failover,
        peers,
        vip: clone_vip(&cfg.vip),
        bgp: BgpConfig {
            local_as: cfg.bgp.local_as,
            router_id: cfg.bgp.router_id.clone(),
            peers: clone_strings(&cfg.bgp.peers),
            hold_time_secs: cfg.bgp.hold_time_secs,
            keepalive_secs: cfg.bgp.keepalive_secs,
        },
        bfd: BfdConfig {
            bind_addr: cfg.bfd.bind_addr.clone(),
            port: cfg.bfd.port,
            interval_ms: cfg.bfd.interval_ms,
            detect_multiplier: cfg.bfd.detect_multiplier,
        },
        xsync: XsyncConfig {
            bind_addr: cfg.xsync.bind_addr.clone(),
            port: cfg.xsync.port,
            reconnect_min_ms: cfg.xsync.reconnect_min_ms,
            reconnect_max_ms: cfg.xsync.reconnect_max_ms,
        },
    };
    assert(r.peers@.map_values(|p: GatewayHaPeer| peer_key(p)) =~= seq![identity_key(*peer)]);
    r
}

/// The preferred active gateway with an empty name dropped.
pub open spec fn preferred_spec(p: Option<String>) -> Option<String> {
    match p {
        Some(s) => if s@.len() == 0 {
            None
        } else {
            Some(s)
        },
        None => None,
    }
}

/// The other side of a pairing: `cfg` of the peer gateway `local`, paired
/// back with the gateway `peer` that asked, on the other self index.
pub fn reciprocal_config(cfg: &GatewayHaRuntimeConfig, local: &GatewayIdentity, peer: &GatewayIdentity) -> (r: Result<GatewayHaRuntimeConfig, HaConfigError>)
    ensures
        ({
            let idx: u32 = if cfg.self_index == 0 { 1 } else { 0 };
            match pair_error(*local, *peer) {
                Some(e) => r == Err::<GatewayHaRuntimeConfig, HaConfigError>(e),
                None => match validation_error(true, idx, seq![identity_key(*peer)], cfg.vip, cfg.bgp) {
                    Some(e) => r == Err::<GatewayHaRuntimeConfig, HaConfigError>(e),
                    None => r matches Ok(n) && paired_with(n, *cfg, *peer, idx, preferred_spec(cfg.preferred_active)),
                },
            }
        }),
{
    match validate_identity_pair(local, peer) {
        Err(e) => return Err(e),
        Ok(()) => {},
    }
    let idx: u32 = if cfg.self_index == 0 { 1 } else { 0 };
    let preferred = match &cfg.preferred_active {
        Some(s) => if s.as_str().unicode_len() == 0 {
            None
        } else {
            Some(s.clone())
        },
        None => None,
    };
    let next = with_peer(cfg, peer, idx, preferred);
    match validate(&next) {
        Err(e) => Err(e),
        Ok(()) => Ok(next),
    }
}

/// This gateway's configuration paired with `peer`, refused when the
/// identities cannot pair or another peer holds the slot.
pub fn config_with_peer(cfg: &GatewayHaRuntimeConfig, local: &GatewayIdentity, peer: &GatewayIdentity) -> (r: Result<GatewayHaRuntimeConfig, HaConfigError>)
    ensures
        match or_else(pair_error(*local, *peer), slot_error(cfg.peers@, *peer)) {
            Some(e) => r == Err::<GatewayHaRuntimeConfig, HaConfigError>(e),
            None => match validation_error(true, cfg.self_index, seq![identity_key(*peer)], cfg.vip, cfg.bgp) {
                Some(e) => r == Err::<GatewayHaRuntimeConfig, HaConfigError>(e),
                None => r matches Ok(n) && paired_with(n, *cfg, *peer, cfg.self_index, cfg.preferred_active),
            },
        },
{
    match validate_identity_pair(local, peer) {
        Err(e) => return Err(e),
        Ok(()) => {},
    }
    match ensure_peer_slot_available(cfg, peer) {
        Err(e) => return Err(e),
        Ok(()) => {},
    }
    let next = with_peer(cfg, peer, cfg.self_index, clone_opt(&cfg.preferred_active));
    match validate(&next) {
        Err(e) => Err(e),
        Ok(()) => Ok(next),
    }
}

/// FNV-1a (64-bit) of a byte string.
pub open spec fn fnv1a(bytes: Seq<u8>) -> u64
    decreases bytes.len(),
{
    if bytes.len() == 0 {
        0xcbf29ce484222325u64
    } else {
        vstd::wrapping::u64_specs::wrapping_mul(fnv1a(bytes.drop_last()) ^ (bytes.last() as u64), 0x100000001b3u64)
    }
}

/// Sixteen lower-case hexadecimal digits of a 64-bit value, zero padded.
pub open spec fn hex16(h: u64) -> Seq<char> {
    Seq::new(16, |i: int| crate::signer::hex_char(((h >> ((60 - 4 * i) as u64)) & 0xf) as int))
}

/// Public identifier of a session token: its FNV-1a hash in hexadecimal.
pub open spec fn spec_token_id(token: Seq<char>) -> Seq<char> {
    hex16(fnv1a(encode_utf8(token)))
}

pub fn token_id(token: &str) -> (r: String)
    ensures
        r@ == spec_token_id(token@),
{
    let bytes = token.as_bytes();
    let mut hash: u64 = 0xcbf29ce484222325u64;
    let mut i: usize = 0;
    while i < bytes.len()
        invariant
            0 <= i <= bytes@.len(),
            hash == fnv1a(bytes@.take(i as int)),
        decreases bytes@.len() - i,
    {
        assert(bytes@.take(i + 1).drop_last() == bytes@.take(i as int));
        hash = (hash ^ (bytes[i] as u64)).wrapping_mul(0x100000001b3u64);
        i = i + 1;
    }
    assert(bytes@.take(bytes@.len() as int) == bytes@);
    let mut out: Vec<char> = Vec::new();
    let mut k: u64 = 0;
    while k < 16
        invariant
            0 <= k <= 16,
            out@.len() == k,
            forall|j: int| 0 <= j < k ==> out@[j] == hex16(hash)[j],
        decreases 16 - k,
    {
        let sh: u64 = 60 - 4 * k;
        let nibble = (hash >> sh) & 0xf;
        assert(nibble < 16) by (bit_vector)
            requires nibble == (hash >> sh) & 0xf;
        let c = if nibble < 10 {
            ((nibble + 48) as u8) as char
        } else {
            ((nibble + 87) as u8) as char
        };
        out.push(c);
        k = k + 1;
    }
    assert(out@ =~= hex16(hash));
    crate::text::string_of(&out)
}

proof fn lemma_or_xor_zero(d: u8, x: u8, y: u8)
    ensures
        ((d | (x ^ y)) == 0) == (d == 0 && x == y),
{
    assert(((d | (x ^ y)) == 0) == (d == 0 && x == y)) by (bit_vector);
}

/// Byte strings compared without an early exit.
fn constant_time_eq(a: &[u8], b: &[u8]) -> (r: bool)
    ensures
        r == (a@ == b@),
{
    if a.len() != b.len() {
        return false;
    }
    let mut diff: u8 = 0;
    let mut i: usize = 0;
    while i < a.len()
        invariant
            a@.len() == b@.len(),
            0 <= i <= a@.len(),
            (diff == 0) == (forall|j: int| 0 <= j < i ==> a@[j] == b@[j]),
        decreases a@.len() - i,
    {
        let x = a[i];
        let y = b[i];
        proof {
            lemma_or_xor_zero(diff, x, y);
        }
        diff = diff | (x ^ y);
        i = i + 1;
    }
    assert((a@ == b@) == (forall|j: int| 0 <= j < a@.len() ==> a@[j] == b@[j])) by {
        if forall|j: int| 0 <= j < a@.len() ==> a@[j] == b@[j] {
            assert(a@ =~= b@);
        }
    }
    diff == 0
}

proof fn lemma_encode_injective(a: Seq<char>, b: Seq<char>)
    ensures
        (encode_utf8(a) == encode_utf8(b)) == (a == b),
{
    vstd::utf8::encode_utf8_decode_utf8(a);
    vstd::utf8::encode_utf8_decode_utf8(b);
}

/// A presented token matches the stored session secret: both are present,
/// non-empty and equal.
pub open spec fn spec_token_matches(stored: Option<Seq<char>>, token: Seq<char>) -> bool {
    match stored {
        Some(s) => s.len() > 0 && token.len() > 0 && s == token,
        None => false,
    }
}

/// Does `token` match the session secret that was loaded (if any)?
pub fn session_token_matches(secrets: Option<&GatewayHaPeerSecrets>, token: &str) -> (r: bool)
    ensures
        r == spec_token_matches(
            match secrets {
                Some(s) => Some(s.session_token@),
                None => None,
            },
            token@,
        ),
{
    let secrets = match secrets {
        Some(s) => s,
        None => return false,
    };
    if secrets.session_token.as_str().unicode_len() == 0 || token.unicode_len() == 0 {
        return false;
    }
    let stored = secrets.session_token.as_str().as_bytes();
    let given = token.as_bytes();
    proof {
        lemma_encode_injective(secrets.session_token@, token@);
    }
    constant_time_eq(stored, given)
}

/// The secret shared with `peer` for the given session token, stamped with
/// the current time.
pub fn new_session_token_secret(peer: &GatewayIdentity, session_token: String) -> (r: GatewayHaPeerSecrets)
    ensures
        r.peer_name == peer.name,
        r.peer_underlay_ip == peer.underlay_ip,
        r.session_token == session_token,
        r.session_token_id@ == spec_token_id(session_token@),
{
    let id = token_id(session_token.as_str());
    GatewayHaPeerSecrets {
        peer_name: peer.name.clone(),
        peer_underlay_ip: peer.underlay_ip.clone(),
        session_token_id: id,
        session_token,
        updated_at_unix: crate::events::now_unix(),
    }
}

/// The configuration read from storage, normalised; the default when none
/// is stored.
pub fn load_for_state_dir(stored: Option<GatewayHaRuntimeConfig>) -> (r: GatewayHaRuntimeConfig)
    ensures
        stored matches Some(v) ==> r == normalized(v),
        stored is None ==> is_default_config(r),
{
    match stored {
        Some(v) => normalize_runtime_config(v),
        None => GatewayHaRuntimeConfig::default(),
    }
}

/// Unpairing: HA off, no preferred gateway, no peer; a restart is needed
/// when an enabled pair replicated connections or announced the VIP by BGP.
pub fn unpair_for_state_dir(cfg: GatewayHaRuntimeConfig) -> (r: (GatewayHaRuntimeConfig, bool))
    ensures
        r.1 == (cfg.enabled && (cfg.connection_sync || cfg.vip.provider == VipProvider::Bgp)),
        r.0 == (GatewayHaRuntimeConfig { enabled: false, preferred_active: None, peers: r.0.peers, ..cfg }),
        r.0.peers@.len() == 0,
{
    let mut cfg = cfg;
    let restart_required = cfg.enabled && (cfg.connection_sync || cfg.vip.provider == VipProvider::Bgp);
    cfg.enabled = false;
    cfg.preferred_active = None;
    cfg.peers.clear();
    (cfg, restart_required)
}


/// Law: an HA configuration that validates names every peer, gives every
/// peer an underlay address that parses as an IPv4 or IPv6 address, and a
/// public address that parses too where one is given. Validation reads the
/// peers as configured.
pub proof fn validated_peers_have_ip_addresses(v: GatewayHaRuntimeConfig)
    requires
        spec_validate(normalized(v)) is None,
    ensures
        forall|i: int| 0 <= i < v.peers@.len() ==> {
            &&& trim((#[trigger] v.peers@[i]).name@).len() > 0
            &&& crate::registry::spec_parse_ip(v.peers@[i].underlay_ip@) is Some
            &&& (v.peers@[i].public_ip matches Some(p) ==> crate::registry::spec_parse_ip(p@) is Some)
        },
{
    let n = normalized(v);
    assert(n.peers == v.peers);
    let keys = n.peers@.map_values(|p: GatewayHaPeer| peer_key(p));
    assert forall|i: int| 0 <= i < v.peers@.len() implies {
        &&& trim((#[trigger] v.peers@[i]).name@).len() > 0
        &&& crate::registry::spec_parse_ip(v.peers@[i].underlay_ip@) is Some
        &&& (v.peers@[i].public_ip matches Some(p) ==> crate::registry::spec_parse_ip(p@) is Some)
    } by {
        assert(keys.len() <= 1);
        assert(i == 0);
        assert(keys[0] == peer_key(v.peers@[0]));
    }
}

} // verus!
