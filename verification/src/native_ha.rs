//! HA decisions of the native provider: the reported HA state, when the
//! private VIP is bound or released, what happens to it at shutdown, and
//! what a keepalive hook event asks for.

use vstd::prelude::*;
use vstd::string::*;
use crate::text::{trim, has_prefix};
use crate::ipnet::parsed_ipv4;
use crate::ha::{GatewayHaRuntimeConfig, VipBindDevice, VipProvider};
use crate::overlay::GatewayNode;
use crate::route_msg::IpAddress;

verus! {

/// The HA state of this gateway as the API reports it.
#[derive(Clone, Debug, PartialEq, Eq)]
pub struct NativeHaState {
    pub node: String,
    pub active_gateway: Option<String>,
    pub active_revision: Option<i64>,
    pub state: String,
    pub enabled: bool,
    pub peer_count: usize,
}

/// The outcome of switching the active gateway.
#[derive(Clone, Debug, PartialEq, Eq)]
pub struct SwitchActiveResult {
    pub gateway: String,
    pub vip: Option<String>,
    pub garp_announced: bool,
    pub vip_bound: bool,
}

/// An event of the keepalive hook.
#[derive(Clone, Debug, PartialEq, Eq)]
pub struct KaHookEvent {
    pub instance: String,
    pub state: String,
    pub vip: String,
}

/// The state name: `disabled` without HA, `MASTER` on the active gateway,
/// `BACKUP` otherwise.
pub open spec fn state_name(enabled: bool, local_active: bool) -> Seq<char> {
    if !enabled {
        "disabled"@
    } else if local_active {
        "MASTER"@
    } else {
        "BACKUP"@
    }
}

/// This node is the active gateway: the stored active-gateway record names
/// it, or holds its underlay address.
pub open spec fn spec_local_active(active: Option<GatewayNode>, node_name: Seq<char>, underlay_ip: IpAddress) -> bool {
    match active {
        Some(g) => g.name@ == node_name || g.underlay_ip == underlay_ip,
        None => false,
    }
}

pub fn local_active(active: Option<&GatewayNode>, node_name: &str, underlay_ip: IpAddress) -> (r: bool)
    ensures
        r == spec_local_active(match active {
            Some(g) => Some(*g),
            None => None,
        }, node_name@, underlay_ip),
{
    match active {
        Some(g) => crate::registry::same_name(g.name.as_str(), node_name) || g.underlay_ip == underlay_ip,
        None => false,
    }
}

/// The HA state of this gateway, given its HA configuration, the stored
/// active-gateway record (none when it cannot be read) and its revision.
pub fn state(
    ha_cfg: &GatewayHaRuntimeConfig,
    node: &str,
    node_underlay: IpAddress,
    active: Option<&GatewayNode>,
    active_revision: Option<i64>,
) -> (r: NativeHaState)
    ensures
        r.node@ == node@,
        opt_name(r.active_gateway) == (match active {
            Some(g) => Some(g.name@),
            None => None,
        }),
        r.active_revision == active_revision,
        r.state@ == state_name(ha_cfg.enabled, spec_local_active(match active {
            Some(g) => Some(*g),
            None => None,
        }, node@, node_underlay)),
        r.enabled == ha_cfg.enabled,
        r.peer_count == ha_cfg.peers@.len(),
{
    let is_local = local_active(active, node, node_underlay);
    let name = if !ha_cfg.enabled {
        "disabled"
    } else if is_local {
        "MASTER"
    } else {
        "BACKUP"
    };
    NativeHaState {
        node: String::from_str(node),
        active_gateway: match active {
            Some(g) => Some(g.name.clone()),
            None => None,
        },
        active_revision,
        state: String::from_str(name),
        enabled: ha_cfg.enabled,
        peer_count: ha_cfg.peers.len(),
    }
}

pub open spec fn opt_name(o: Option<String>) -> Option<Seq<char>> {
    match o {
        Some(s) => Some(s@),
        None => None,
    }
}

/// The device the VIP is bound to.
pub open spec fn spec_vip_device(bind_device: VipBindDevice, underlay_dev: Seq<char>) -> Seq<char> {
    match bind_device {
        VipBindDevice::Underlay => underlay_dev,
        VipBindDevice::Loopback => "lo"@,
    }
}

pub fn vip_device(bind_device: VipBindDevice, underlay_dev: &str) -> (r: String)
    ensures
        r@ == spec_vip_device(bind_device, underlay_dev@),
{
    match bind_device {
        VipBindDevice::Underlay => String::from_str(underlay_dev),
        VipBindDevice::Loopback => String::from_str("lo"),
    }
}

/// The configured private VIP is not an IPv4 address.
#[derive(Clone, Copy, Debug, PartialEq, Eq, Structural)]
pub struct BadPrivateVip;

/// The private VIP and the device it belongs on; none when no private VIP
/// is configured.
pub fn private_vip_target(ha_cfg: &GatewayHaRuntimeConfig, underlay_dev: &str) -> (r: Result<Option<(u32, String)>, BadPrivateVip>)
    ensures
        match ha_cfg.vip.private_vip {
            None => r == Ok::<Option<(u32, String)>, BadPrivateVip>(None),
            Some(v) => match parsed_ipv4(v@) {
                None => r == Err::<Option<(u32, String)>, BadPrivateVip>(BadPrivateVip),
                Some(a) => r matches Ok(Some((ip, dev))) && ip == a && dev@ == spec_vip_device(ha_cfg.vip.bind_device, underlay_dev@),
            },
        },
{
    match &ha_cfg.vip.private_vip {
        None => Ok(None),
        Some(v) => match crate::ipnet::parse_ipv4(v.as_str()) {
            None => Err(BadPrivateVip),
            Some(a) => Ok(Some((a, vip_device(ha_cfg.vip.bind_device, underlay_dev)))),
        },
    }
}

/// What to do with the private VIP.
#[derive(Clone, Copy, Debug, PartialEq, Eq, Structural)]
pub enum VipChange {
    /// Bind it and announce it with gratuitous ARP.
    BindAndAnnounce,
    Release,
    Keep,
}

/// The VIP belongs on this gateway when HA is on, the L2 provider moves it
/// and this gateway is the active one.
pub open spec fn vip_wanted(ha_cfg: GatewayHaRuntimeConfig, local_active: bool) -> bool {
    ha_cfg.enabled && ha_cfg.vip.provider == VipProvider::L2 && local_active
}

/// What reconciling does: nothing without a private VIP; else bind a
/// wanted VIP that is not bound, release an unwanted one that is, and
/// leave it otherwise.
pub open spec fn vip_change(ha_cfg: GatewayHaRuntimeConfig, local_active: bool, bound: bool) -> VipChange {
    if ha_cfg.vip.private_vip is None {
        VipChange::Keep
    } else if vip_wanted(ha_cfg, local_active) && !bound {
        VipChange::BindAndAnnounce
    } else if !vip_wanted(ha_cfg, local_active) && bound {
        VipChange::Release
    } else {
        VipChange::Keep
    }
}

/// Reconcile the VIP with the active gateway record. Binding is checked
/// first, so a steady state announces nothing; without a private VIP
/// nothing changes.
pub fn reconcile_vip(ha_cfg: &GatewayHaRuntimeConfig, active: Option<&GatewayNode>, node_name: &str, node_underlay: IpAddress, bound: bool) -> (r: VipChange)
    ensures
        r == vip_change(*ha_cfg, spec_local_active(match active {
            Some(g) => Some(*g),
            None => None,
        }, node_name@, node_underlay), bound),
{
    if ha_cfg.vip.private_vip.is_none() {
        return VipChange::Keep;
    }
    let is_local = local_active(active, node_name, node_underlay);
    let wanted = ha_cfg.enabled && ha_cfg.vip.provider == VipProvider::L2 && is_local;
    if wanted && !bound {
        VipChange::BindAndAnnounce
    } else if !wanted && bound {
        VipChange::Release
    } else {
        VipChange::Keep
    }
}

/// The binding after a change.
pub open spec fn bound_after(change: VipChange, bound: bool) -> bool {
    match change {
        VipChange::BindAndAnnounce => true,
        VipChange::Release => false,
        VipChange::Keep => bound,
    }
}

/// Law: reconciling twice changes nothing the second time: after a bind the
/// VIP is bound and wanted, after a release it is unbound and unwanted, and
/// without a private VIP nothing ever changes.
pub proof fn reconcile_is_stable(ha_cfg: GatewayHaRuntimeConfig, local_active: bool, bound: bool)
    ensures
        vip_change(ha_cfg, local_active, bound_after(vip_change(ha_cfg, local_active, bound), bound)) == VipChange::Keep,
        ha_cfg.vip.private_vip is None ==> vip_change(ha_cfg, local_active, bound) == VipChange::Keep,
{
}

/// The local VIP is released only under L2 HA and only when it is bound.
pub fn release_local_vip(ha_cfg: &GatewayHaRuntimeConfig, bound: bool) -> (r: bool)
    ensures
        r == (ha_cfg.enabled && ha_cfg.vip.provider == VipProvider::L2 && ha_cfg.vip.private_vip is Some && bound),
{
    if !ha_cfg.enabled || ha_cfg.vip.provider != VipProvider::L2 {
        return false;
    }
    if ha_cfg.vip.private_vip.is_none() {
        return false;
    }
    bound
}

/// What a gateway does with the VIP when it shuts down.
#[derive(Clone, Debug, PartialEq, Eq)]
pub enum ShutdownStep {
    /// Nothing: no L2 HA.
    Nothing,
    /// Hand the active role to the named peer; release the VIP if that fails.
    HandOff(String),
    /// Release the local VIP.
    Release,
}

/// At shutdown under L2 HA, the active gateway hands over to its peer;
/// any other gateway releases its VIP.
pub fn handoff_or_release_on_shutdown(ha_cfg: &GatewayHaRuntimeConfig, local_master: bool) -> (r: ShutdownStep)
    ensures
        !(ha_cfg.enabled && ha_cfg.vip.provider == VipProvider::L2) ==> r == ShutdownStep::Nothing,
        ha_cfg.enabled && ha_cfg.vip.provider == VipProvider::L2 ==> if local_master && ha_cfg.peers@.len() > 0 {
            r == ShutdownStep::HandOff(ha_cfg.peers@[0].name)
        } else {
            r == ShutdownStep::Release
        },
{
    if !ha_cfg.enabled || ha_cfg.vip.provider != VipProvider::L2 {
        return ShutdownStep::Nothing;
    }
    if local_master && ha_cfg.peers.len() > 0 {
        return ShutdownStep::HandOff(ha_cfg.peers[0].name.clone());
    }
    ShutdownStep::Release
}

/// ASCII upper-case.
pub open spec fn upper_char(c: char) -> char {
    if 'a' <= c && c <= 'z' {
        ((c as u32) - 32) as char
    } else {
        c
    }
}

pub open spec fn upper(s: Seq<char>) -> Seq<char> {
    Seq::new(s.len(), |i: int| upper_char(s[i]))
}

fn upper_chars(s: &[char]) -> (r: Vec<char>)
    ensures
        r@ == upper(s@),
{
    let mut out: Vec<char> = Vec::new();
    let mut i: usize = 0;
    while i < s.len()
        invariant
            0 <= i <= s@.len(),
            out@.len() == i,
            forall|j: int| 0 <= j < i ==> out@[j] == upper_char(s@[j]),
        decreases s@.len() - i,
    {
        let c = s[i];
        let u = if 'a' <= c && c <= 'z' {
            ((c as u32) - 32) as u8 as char
        } else {
            c
        };
        out.push(u);
        i = i + 1;
    }
    assert(out@ =~= upper(s@));
    out
}

/// The VIP carried by a hook event.
#[derive(Clone, Copy, Debug, PartialEq, Eq, Structural)]
pub enum HookVip {
    Absent,
    Addr(u32),
    /// Present but not an IPv4 address.
    Invalid,
}

/// What a hook event asks for.
#[derive(Clone, Copy, Debug, PartialEq, Eq, Structural)]
pub enum KaHookAction {
    /// Record this gateway as active, then bind and announce the VIP.
    Promote(HookVip),
    /// Release the VIP.
    Demote(HookVip),
}

/// A hook state other than MASTER, BACKUP or STOP (upper-cased).
#[derive(Clone, Debug, PartialEq, Eq)]
pub struct UnsupportedHookState(pub String);

pub open spec fn spec_hook_vip(vip: Seq<char>) -> HookVip {
    if trim(vip).len() == 0 {
        HookVip::Absent
    } else {
        match parsed_ipv4(vip) {
            Some(a) => HookVip::Addr(a),
            None => HookVip::Invalid,
        }
    }
}

/// The action of a hook event, by its state compared without case and
/// surrounding blanks.
pub open spec fn spec_hook_action(state: Seq<char>, vip: Seq<char>) -> Result<KaHookAction, Seq<char>> {
    let s = upper(trim(state));
    if s == "MASTER"@ {
        Ok(KaHookAction::Promote(spec_hook_vip(vip)))
    } else if s == "BACKUP"@ || s == "STOP"@ {
        Ok(KaHookAction::Demote(spec_hook_vip(vip)))
    } else {
        Err(s)
    }
}

pub fn handle_ka_hook_event(event: &KaHookEvent) -> (r: Result<KaHookAction, UnsupportedHookState>)
    ensures
        match spec_hook_action(event.state@, event.vip@) {
            Ok(a) => r == Ok::<KaHookAction, UnsupportedHookState>(a),
            Err(s) => r matches Err(UnsupportedHookState(t)) && t@ == s,
        },
{
    let s = upper_chars(&crate::text::trimmed(event.state.as_str()));
    let vip = if crate::text::trimmed(event.vip.as_str()).len() == 0 {
        HookVip::Absent
    } else {
        match crate::ipnet::parse_ipv4(event.vip.as_str()) {
            Some(a) => HookVip::Addr(a),
            None => HookVip::Invalid,
        }
    };
    if crate::text::chars_eq(&s, &crate::text::chars_of("MASTER")) {
        Ok(KaHookAction::Promote(vip))
    } else if crate::text::chars_eq(&s, &crate::text::chars_of("BACKUP")) || crate::text::chars_eq(&s, &crate::text::chars_of("STOP")) {
        Ok(KaHookAction::Demote(vip))
    } else {
        Err(UnsupportedHookState(crate::text::string_of(&s)))
    }
}

} // verus!
