//! Write authority under HA: which gateway may apply a configuration write,
//! and where the peer's API is reached when the write must be forwarded.

use vstd::prelude::*;
use vstd::string::*;
use crate::text::{trim, has_prefix};
use crate::ha::{GatewayHaPeer, GatewayHaRuntimeConfig};

verus! {

/// Who applies a configuration write.
#[derive(Clone, Debug, PartialEq, Eq)]
pub enum WriteRole {
    /// This gateway applies the write, then replicates to the peer if any.
    LocalMaster(Option<GatewayHaPeer>),
    /// The write is forwarded to the active peer.
    Backup(GatewayHaPeer),
}

/// A response of the peer's API.
#[derive(Clone, Debug, PartialEq, Eq)]
pub struct PeerHttpResponse {
    pub status: u16,
    pub body: String,
}

/// No gateway can take a write: this one is not active and has no peer.
#[derive(Clone, Copy, Debug, PartialEq, Eq, Structural)]
pub struct NoActiveGateway;

/// Two peer records hold the same values.
pub open spec fn same_peer(a: GatewayHaPeer, b: GatewayHaPeer) -> bool {
    &&& a.name == b.name
    &&& a.underlay_ip == b.underlay_ip
    &&& a.public_ip == b.public_ip
    &&& a.api_addr == b.api_addr
    &&& a.xds_addr == b.xds_addr
    &&& a.overlay_cidr == b.overlay_cidr
    &&& a.overlay_ip == b.overlay_ip
    &&& a.dscp == b.dscp
    &&& a.vni == b.vni
    &&& a.vxlan_port == b.vxlan_port
    &&& a.mtu == b.mtu
    &&& a.version == b.version
    &&& a.capabilities@ == b.capabilities@
}

fn clone_opt(o: &Option<String>) -> (r: Option<String>)
    ensures
        r == *o,
{
    match o {
        Some(s) => Some(s.clone()),
        None => None,
    }
}

fn clone_strings(v: &Vec<String>) -> (r: Vec<String>)
    ensures
        r@ == v@,
{
    let mut out: Vec<String> = Vec::new();
    let mut i: usize = 0;
    while i < v.len()
        invariant
            0 <= i <= v@.len(),
            out@ == v@.take(i as int),
        decreases v@.len() - i,
    {
        out.push(v[i].clone());
        assert(v@.take(i + 1) == v@.take(i as int).push(v@[i as int]));
        i = i + 1;
    }
    assert(v@.take(v@.len() as int) == v@);
    out
}

pub fn clone_peer(p: &GatewayHaPeer) -> (r: GatewayHaPeer)
    ensures
        same_peer(r, *p),
{
    GatewayHaPeer {
        name: p.name.clone(),
        underlay_ip: p.underlay_ip.clone(),
        public_ip: clone_opt(&p.public_ip),
        api_addr: clone_opt(&p.api_addr),
        xds_addr: clone_opt(&p.xds_addr),
        overlay_cidr: clone_opt(&p.overlay_cidr),
        overlay_ip: clone_opt(&p.overlay_ip),
        dscp: p.dscp,
        vni: p.vni,
        vxlan_port: p.vxlan_port,
        mtu: p.mtu,
        version: clone_opt(&p.version),
        capabilities: clone_strings(&p.capabilities),
    }
}

/// The write role of this gateway. Without HA it applies writes alone; the
/// active gateway applies them and replicates to its first peer; a gateway
/// that is not active forwards them to that peer, and fails without one.
pub fn write_role(ha_cfg: &GatewayHaRuntimeConfig, local_is_active: bool) -> (r: Result<WriteRole, NoActiveGateway>)
    ensures
        !ha_cfg.enabled ==> r == Ok::<WriteRole, NoActiveGateway>(WriteRole::LocalMaster(None)),
        ha_cfg.enabled && local_is_active ==> match r {
            Ok(WriteRole::LocalMaster(p)) => match p {
                Some(p) => ha_cfg.peers@.len() > 0 && same_peer(p, ha_cfg.peers@[0]),
                None => ha_cfg.peers@.len() == 0,
            },
            _ => false,
        },
        ha_cfg.enabled && !local_is_active ==> match r {
            Ok(WriteRole::Backup(p)) => ha_cfg.peers@.len() > 0 && same_peer(p, ha_cfg.peers@[0]),
            Err(_) => ha_cfg.peers@.len() == 0,
            _ => false,
        },
{
    if !ha_cfg.enabled {
        return Ok(WriteRole::LocalMaster(None));
    }
    let peer = if ha_cfg.peers.len() > 0 {
        Some(clone_peer(&ha_cfg.peers[0]))
    } else {
        None
    };
    if local_is_active {
        Ok(WriteRole::LocalMaster(peer))
    } else {
        match peer {
            Some(p) => Ok(WriteRole::Backup(p)),
            None => Err(NoActiveGateway),
        }
    }
}

/// `s` without the `c` characters that end it.
pub open spec fn strip_trailing(s: Seq<char>, c: char) -> Seq<char>
    decreases s.len(),
{
    if s.len() > 0 && s.last() == c {
        strip_trailing(s.drop_last(), c)
    } else {
        s
    }
}

/// The address of the peer's API: its API address when one is set and not
/// blank, else its underlay address on the default API port.
pub open spec fn peer_api_addr(peer: GatewayHaPeer) -> Seq<char> {
    match peer.api_addr {
        Some(a) => if trim(a@).len() > 0 {
            trim(a@)
        } else {
            peer.underlay_ip@ + ":18080"@
        },
        None => peer.underlay_ip@ + ":18080"@,
    }
}

/// The base URL of the peer's API, without a trailing slash; plain HTTP
/// unless the address names its scheme.
pub open spec fn spec_peer_api_base(peer: GatewayHaPeer) -> Seq<char> {
    let addr = peer_api_addr(peer);
    if has_prefix(addr, "http://"@) || has_prefix(addr, "https://"@) {
        strip_trailing(addr, '/')
    } else {
        "http://"@ + strip_trailing(addr, '/')
    }
}

fn strip_trailing_chars(s: &[char], c: char) -> (r: Vec<char>)
    ensures
        r@ == strip_trailing(s@, c),
{
    let mut n: usize = s.len();
    assert(s@.take(n as int) == s@);
    while n > 0 && s[n - 1] == c
        invariant
            n <= s@.len(),
            strip_trailing(s@.take(n as int), c) == strip_trailing(s@, c),
        decreases n,
    {
        assert(s@.take(n as int).drop_last() == s@.take(n - 1));
        n = n - 1;
    }
    let r = crate::text::slice_chars(s, 0, n);
    assert(r@ == s@.take(n as int));
    r
}

pub fn peer_api_base(peer: &GatewayHaPeer) -> (r: String)
    ensures
        r@ == spec_peer_api_base(*peer),
{
    let default_addr = || -> (r: Vec<char>)
        ensures
            r@ == peer.underlay_ip@ + ":18080"@,
    {
        let mut a = crate::text::chars_of(peer.underlay_ip.as_str());
        crate::text::extend_chars(&mut a, &crate::text::chars_of(":18080"));
        a
    };
    let addr: Vec<char> = match &peer.api_addr {
        Some(a) => {
            let t = crate::text::trimmed(a.as_str());
            if t.len() > 0 {
                t
            } else {
                default_addr()
            }
        },
        None => default_addr(),
    };
    assert(addr@ == peer_api_addr(*peer));
    let stripped = strip_trailing_chars(&addr, '/');
    let http = crate::text::chars_of("http://");
    let https = crate::text::chars_of("https://");
    if crate::text::starts_with(&addr, &http) || crate::text::starts_with(&addr, &https) {
        crate::text::string_of(&stripped)
    } else {
        let mut out = http;
        crate::text::extend_chars(&mut out, &stripped);
        crate::text::string_of(&out)
    }
}

} // verus!
