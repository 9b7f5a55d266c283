//! Gateway pairing: what a gateway announces of itself, the checks made
//! before pairing, the peer endpoint, and the report of a pairing.

use vstd::prelude::*;
use crate::ha::{GatewayIdentity, GatewayHaRuntimeConfig};
use crate::text::{first_index_of, all_digits, decimal_value, decimal, has_prefix};
use crate::ipnet::{parsed_ipv4, ipv4_text};
use crate::ipv6::parsed_ipv6;
use crate::route_msg::IpAddress;
use crate::auth::ip_text;
use crate::registry::is_unspecified;

verus! {

/// `ip:port` of an IPv4 socket address text.
pub open spec fn socket_v4(s: Seq<char>) -> Option<(u32, u16)> {
    if exists|k: int| first_index_of(s, ':', k) {
        let k = choose|k: int| first_index_of(s, ':', k);
        let p = s.skip(k + 1);
        match parsed_ipv4(s.take(k)) {
            Some(ip) => if p.len() > 0 && all_digits(p) && decimal_value(p) <= 65535 {
                Some((ip, decimal_value(p) as u16))
            } else {
                None
            },
            None => None,
        }
    } else {
        None
    }
}

/// A port: one or more decimal digits with a value that fits 16 bits.
pub open spec fn spec_port(p: Seq<char>) -> Option<u16> {
    if p.len() > 0 && all_digits(p) && decimal_value(p) <= 65535 {
        Some(decimal_value(p) as u16)
    } else {
        None
    }
}

/// A scope id after `%`: decimal digits with a value that fits 32 bits.
pub open spec fn scope_ok(z: Seq<char>) -> bool {
    z.len() > 0 && all_digits(z) && decimal_value(z) <= u32::MAX
}

/// The address part of the bracketed text of an IPv6 socket address: the
/// text before a `%`, which must be followed by a scope id.
pub open spec fn v6_inner(inner: Seq<char>) -> Option<Seq<char>> {
    if exists|j: int| first_index_of(inner, '%', j) {
        let j = choose|j: int| first_index_of(inner, '%', j);
        if scope_ok(inner.skip(j + 1)) {
            Some(inner.take(j))
        } else {
            None
        }
    } else {
        Some(inner)
    }
}

/// `[addr]:port` (the address optionally followed by `%` and a scope id)
/// of an IPv6 socket address text.
pub open spec fn socket_v6(s: Seq<char>) -> Option<(u128, u16)> {
    if s.len() > 0 && s[0] == '[' && exists|k: int| first_index_of(s, ']', k) {
        let k = choose|k: int| first_index_of(s, ']', k);
        if k + 1 < s.len() && s[k + 1] == ':' {
            match (v6_inner(s.subrange(1, k)), spec_port(s.skip(k + 2))) {
                (Some(a), Some(port)) => match parsed_ipv6(a) {
                    Some(v) => Some((v, port)),
                    None => None,
                },
                _ => None,
            }
        } else {
            None
        }
    } else {
        None
    }
}

/// A socket address text: IPv4 `ip:port`, else IPv6 `[ip]:port`.
pub open spec fn socket_addr(s: Seq<char>) -> Option<(IpAddress, u16)> {
    match socket_v4(s) {
        Some((ip, port)) => Some((IpAddress::V4(ip), port)),
        None => match socket_v6(s) {
            Some((v, port)) => Some((IpAddress::V6(v), port)),
            None => None,
        },
    }
}

/// The address a peer reaches a listen address at: an unspecified address
/// replaced by the fallback address, then `:` and the port (an IPv6 address
/// without brackets); a text that is not a socket address as it is.
pub open spec fn spec_advertised_addr(listen: Seq<char>, fallback: IpAddress) -> Seq<char> {
    match socket_addr(listen) {
        Some((ip, port)) => ip_text(if is_unspecified(ip) {
            fallback
        } else {
            ip
        }) + ":"@ + decimal(port as nat),
        None => listen,
    }
}

fn port_of(p: &Vec<char>) -> (r: Option<u16>)
    ensures
        r == spec_port(p@),
{
    if p.len() == 0 || p[0] == '+' {
        if p.len() > 0 {
            assert(!crate::text::is_digit(p@[0]));
        }
        return None;
    }
    assert(crate::text::unsigned_digits(p@) == p@);
    match crate::text::parse_u32_dec(p) {
        None => None,
        Some(v) => {
            proof {
                crate::text::lemma_decimal_value_nonneg(p@);
            }
            if v <= 65535 {
                Some(v as u16)
            } else {
                None
            }
        },
    }
}

fn v6_inner_of(inner: &Vec<char>) -> (r: Option<Vec<char>>)
    ensures
        r matches Some(a) ==> v6_inner(inner@) == Some(a@),
        r is None ==> v6_inner(inner@) is None,
{
    match crate::text::find_char(inner, '%') {
        None => {
            let n = inner.len();
            let all = crate::text::slice_chars(inner, 0, n);
            assert(all@ =~= inner@);
            Some(all)
        },
        Some(j) => {
            proof {
                let c = choose|j2: int| first_index_of(inner@, '%', j2);
                assert(c == j);
            }
            let n = inner.len();
            let z = crate::text::slice_chars(inner, j + 1, n);
            assert(z@ == inner@.skip(j + 1));
            let ok = if z.len() == 0 || z[0] == '+' {
                if z.len() > 0 {
                    assert(!crate::text::is_digit(z@[0]));
                }
                false
            } else {
                assert(crate::text::unsigned_digits(z@) == z@);
                crate::text::parse_u32_dec(&z).is_some()
            };
            if ok {
                let a = crate::text::slice_chars(inner, 0, j);
                Some(a)
            } else {
                None
            }
        },
    }
}

fn socket_v6_of(cs: &Vec<char>) -> (r: Option<(u128, u16)>)
    ensures
        r == socket_v6(cs@),
{
    if cs.len() == 0 || cs[0] != '[' {
        return None;
    }
    match crate::text::find_char(cs, ']') {
        None => {
            assert(!exists|k: int| first_index_of(cs@, ']', k));
            None
        },
        Some(k) => {
            proof {
                let c = choose|k2: int| first_index_of(cs@, ']', k2);
                assert(c == k);
            }
            let n = cs.len();
            if !(k + 1 < n && cs[k + 1] == ':') {
                return None;
            }
            let inner = crate::text::slice_chars(cs, 1, k);
            let port_text = crate::text::slice_chars(cs, k + 2, n);
            assert(port_text@ == cs@.skip(k + 2));
            let a = match v6_inner_of(&inner) {
                Some(a) => a,
                None => {
                    return None;
                },
            };
            let port = match port_of(&port_text) {
                Some(p) => p,
                None => {
                    return None;
                },
            };
            match crate::ipv6::parse_ipv6_chars(a.as_slice()) {
                Some(v) => Some((v, port)),
                None => None,
            }
        },
    }
}

fn socket_addr_of(cs: &Vec<char>) -> (r: Option<(IpAddress, u16)>)
    ensures
        r == socket_addr(cs@),
{
    match socket_v4_of(cs) {
        Some((ip, port)) => Some((IpAddress::V4(ip), port)),
        None => match socket_v6_of(cs) {
            Some((v, port)) => Some((IpAddress::V6(v), port)),
            None => None,
        },
    }
}

fn socket_v4_of(cs: &Vec<char>) -> (r: Option<(u32, u16)>)
    ensures
        r == socket_v4(cs@),
{
    match crate::text::find_char(cs, ':') {
        None => {
            assert(socket_v4(cs@) is None);
            None
        },
        Some(k) => {
            proof {
                let c = choose|k2: int| first_index_of(cs@, ':', k2);
                assert(c == k);
            }
            let n = cs.len();
            let left = crate::text::slice_chars(cs, 0, k);
            let right = crate::text::slice_chars(cs, k + 1, n);
            assert(left@ == cs@.take(k as int));
            assert(right@ == cs@.skip(k + 1));
            let ghost p = cs@.skip(k + 1);
            let ip = match crate::ipnet::parse_ipv4_chars(&left) {
                None => {
                    assert(socket_v4(cs@) is None);
                    return None;
                },
                Some(ip) => ip,
            };
            if right.len() == 0 || right[0] == '+' {
                if right.len() > 0 {
                    assert(!crate::text::is_digit(right@[0]));
                    assert(!all_digits(p));
                }
                assert(socket_v4(cs@) is None);
                return None;
            }
            assert(crate::text::unsigned_digits(right@) == right@);
            match crate::text::parse_u32_dec(&right) {
                None => {
                    assert(socket_v4(cs@) is None);
                    None
                },
                Some(v) => if v <= 65535 {
                    proof {
                        crate::text::lemma_decimal_value_nonneg(right@);
                    }
                    assert(socket_v4(cs@) == Some((ip, v as u16)));
                    Some((ip, v as u16))
                } else {
                    proof {
                        crate::text::lemma_decimal_value_nonneg(right@);
                    }
                    assert(socket_v4(cs@) is None);
                    None
                },
            }
        },
    }
}

pub fn advertised_addr(listen: &str, fallback_ip: IpAddress) -> (r: String)
    ensures
        r@ == spec_advertised_addr(listen@, fallback_ip),
{
    let cs = crate::text::chars_of(listen);
    match socket_addr_of(&cs) {
        None => listen.to_string(),
        Some((ip, port)) => {
            let unspecified = match ip {
                IpAddress::V4(a) => a == 0,
                IpAddress::V6(v) => v == 0,
            };
            let shown = if unspecified {
                fallback_ip
            } else {
                ip
            };
            let mut out = crate::text::chars_of(crate::auth::format_ip(shown).as_str());
            crate::text::extend_chars(&mut out, &crate::text::chars_of(":"));
            crate::text::extend_chars(&mut out, &crate::text::decimal_chars(port as u64));
            crate::text::string_of(&out)
        },
    }
}

/// The settings of this gateway that its identity is made of.
#[derive(Clone, Debug, PartialEq, Eq)]
pub struct LocalGatewaySettings {
    pub node_name: String,
    pub underlay_ip: IpAddress,
    pub public_ip: String,
    pub api_listen: String,
    pub xds_listen: String,
    pub overlay_cidr: String,
    pub overlay_ip: String,
    pub dscp: u32,
    pub vni: u32,
    pub vxlan_port: u16,
    pub mtu: u32,
    pub version: String,
}

/// The capabilities every gateway announces.
pub open spec fn gateway_capabilities() -> Seq<Seq<char>> {
    seq!["ha.active_backup"@, "ha.peer_token"@, "vip.l2"@, "vip.bgp"@, "vip.hook"@]
}

/// What this gateway announces of itself when pairing: its settings, with
/// the API and control-plane listen addresses as a peer reaches them.
pub fn local_identity(cfg: &LocalGatewaySettings) -> (r: GatewayIdentity)
    ensures
        r.name@ == cfg.node_name@,
        r.underlay_ip@ == ip_text(cfg.underlay_ip),
        r.public_ip@ == cfg.public_ip@,
        r.api_addr@ == spec_advertised_addr(cfg.api_listen@, cfg.underlay_ip),
        r.xds_addr@ == spec_advertised_addr(cfg.xds_listen@, cfg.underlay_ip),
        r.overlay_cidr@ == cfg.overlay_cidr@,
        r.overlay_ip@ == cfg.overlay_ip@,
        r.dscp == cfg.dscp,
        r.vni == cfg.vni,
        r.vxlan_port == cfg.vxlan_port,
        r.mtu == cfg.mtu,
        r.version@ == cfg.version@,
        r.capabilities@.map_values(|c: String| c@) == gateway_capabilities(),
{
    let mut caps: Vec<String> = Vec::new();
    caps.push("ha.active_backup".to_string());
    caps.push("ha.peer_token".to_string());
    caps.push("vip.l2".to_string());
    caps.push("vip.bgp".to_string());
    caps.push("vip.hook".to_string());
    assert(caps@.map_values(|c: String| c@) =~= gateway_capabilities());
    GatewayIdentity {
        name: cfg.node_name.clone(),
        underlay_ip: crate::auth::format_ip(cfg.underlay_ip),
        public_ip: cfg.public_ip.clone(),
        api_addr: advertised_addr(cfg.api_listen.as_str(), cfg.underlay_ip),
        xds_addr: advertised_addr(cfg.xds_listen.as_str(), cfg.underlay_ip),
        overlay_cidr: cfg.overlay_cidr.clone(),
        overlay_ip: cfg.overlay_ip.clone(),
        dscp: cfg.dscp,
        vni: cfg.vni,
        vxlan_port: cfg.vxlan_port,
        mtu: cfg.mtu,
        version: cfg.version.clone(),
        capabilities: caps,
    }
}

/// Why pairing was refused before any peer was contacted.
#[derive(Clone, Copy, Debug, PartialEq, Eq, Structural)]
pub enum PairingError {
    NotAGateway,
    MissingBootstrapToken,
}

/// What a refusal to pair says.
pub open spec fn pairing_message(e: PairingError) -> Seq<char> {
    match e {
        PairingError::NotAGateway => "HA gateway pairing is only available on gateway nodes"@,
        PairingError::MissingBootstrapToken => "bootstrap_token is required"@,
    }
}

impl PairingError {
    pub fn message(&self) -> (r: &'static str)
        ensures
            r@ == pairing_message(*self),
    {
        match self {
            PairingError::NotAGateway => "HA gateway pairing is only available on gateway nodes",
            PairingError::MissingBootstrapToken => "bootstrap_token is required",
        }
    }
}

/// Pairing needs a gateway node and a bootstrap token that is not blank.
pub fn pairing_precheck(is_gateway: bool, bootstrap_token: &str) -> (r: Result<(), PairingError>)
    ensures
        !is_gateway ==> r == Err::<(), PairingError>(PairingError::NotAGateway),
        is_gateway && crate::text::trim(bootstrap_token@).len() == 0 ==> r == Err::<(), PairingError>(PairingError::MissingBootstrapToken),
        is_gateway && crate::text::trim(bootstrap_token@).len() > 0 ==> r is Ok,
{
    if !is_gateway {
        return Err(PairingError::NotAGateway);
    }
    if crate::text::trimmed(bootstrap_token).len() == 0 {
        return Err(PairingError::MissingBootstrapToken);
    }
    Ok(())
}

/// The peer endpoint as a URL: as given when it names `http://` or
/// `https://`, else with `http://` in front.
pub open spec fn spec_normalize_endpoint(endpoint: Seq<char>) -> Seq<char> {
    if has_prefix(endpoint, "http://"@) || has_prefix(endpoint, "https://"@) {
        endpoint
    } else {
        "http://"@ + endpoint
    }
}

pub fn normalize_endpoint(endpoint: &str) -> (r: String)
    ensures
        r@ == spec_normalize_endpoint(endpoint@),
{
    let cs = crate::text::chars_of(endpoint);
    if crate::text::starts_with(&cs, &crate::text::chars_of("http://")) || crate::text::starts_with(&cs, &crate::text::chars_of("https://")) {
        endpoint.to_string()
    } else {
        let mut out = crate::text::chars_of("http://");
        crate::text::extend_chars(&mut out, &cs);
        crate::text::string_of(&out)
    }
}

/// A paired gateway as the pairing report shows it.
#[derive(Clone, Debug, PartialEq, Eq)]
pub struct PairedGateway {
    pub name: String,
    pub underlay_ip: String,
    pub public_ip: String,
    pub api_addr: String,
    pub xds_addr: String,
    pub overlay_cidr: String,
    pub overlay_ip: String,
    pub dscp: u32,
    pub vni: u32,
    pub vxlan_port: u16,
    pub mtu: u32,
    pub version: String,
    pub capabilities: Vec<String>,
}

/// A paired gateway is its identity, field by field.
pub open spec fn paired_of(value: GatewayIdentity) -> PairedGateway {
    PairedGateway {
        name: value.name,
        underlay_ip: value.underlay_ip,
        public_ip: value.public_ip,
        api_addr: value.api_addr,
        xds_addr: value.xds_addr,
        overlay_cidr: value.overlay_cidr,
        overlay_ip: value.overlay_ip,
        dscp: value.dscp,
        vni: value.vni,
        vxlan_port: value.vxlan_port,
        mtu: value.mtu,
        version: value.version,
        capabilities: value.capabilities,
    }
}

impl From<GatewayIdentity> for PairedGateway {
    fn from(value: GatewayIdentity) -> (r: Self)
        ensures
            r == paired_of(value),
    {
        PairedGateway {
            name: value.name,
            underlay_ip: value.underlay_ip,
            public_ip: value.public_ip,
            api_addr: value.api_addr,
            xds_addr: value.xds_addr,
            overlay_cidr: value.overlay_cidr,
            overlay_ip: value.overlay_ip,
            dscp: value.dscp,
            vni: value.vni,
            vxlan_port: value.vxlan_port,
            mtu: value.mtu,
            version: value.version,
            capabilities: value.capabilities,
        }
    }
}

impl vstd::std_specs::convert::FromSpecImpl<GatewayIdentity> for PairedGateway {
    open spec fn obeys_from_spec() -> bool {
        true
    }

    open spec fn from_spec(value: GatewayIdentity) -> Self {
        paired_of(value)
    }
}

/// The report of a completed pairing.
#[derive(Clone, Debug, PartialEq, Eq)]
pub struct PairGatewayResult {
    pub status: String,
    pub local: PairedGateway,
    pub peer: PairedGateway,
    pub ha_config_storage: String,
    pub session_token_storage: String,
    pub datapath_refresh_required: bool,
    pub warnings: Vec<String>,
}

/// The report of a pairing: both identities, where the configuration and
/// the session token are kept, and whether the datapath must be refreshed
/// (HA with connection sync turned on).
pub fn pairing_result(local: GatewayIdentity, peer: GatewayIdentity, local_cfg: &GatewayHaRuntimeConfig, warnings: Vec<String>) -> (r: PairGatewayResult)
    ensures
        r.status@ == "paired"@,
        r.local == paired_of(local),
        r.peer == paired_of(peer),
        r.ha_config_storage@ == "sqlite"@,
        r.session_token_storage@ == "sqlite"@,
        r.datapath_refresh_required == (local_cfg.enabled && local_cfg.connection_sync),
        r.warnings == warnings,
{
    PairGatewayResult {
        status: "paired".to_string(),
        local: PairedGateway::from(local),
        peer: PairedGateway::from(peer),
        ha_config_storage: "sqlite".to_string(),
        session_token_storage: "sqlite".to_string(),
        datapath_refresh_required: local_cfg.enabled && local_cfg.connection_sync,
        warnings,
    }
}

} // verus!
