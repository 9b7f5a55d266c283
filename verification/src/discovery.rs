//! Automatic VXLAN MTU selection and the settings derived from it.

use crate::file_config::{FileConfig, NetworkConfig};
use crate::registry::is_unspecified;
use crate::route_msg::IpAddress;
use vstd::prelude::*;

verus! {

pub const DEFAULT_VXLAN_MTU: u32 = 1450;
pub const MIN_VXLAN_MTU: u32 = 576;
pub const VXLAN_IPV4_OVERHEAD: u32 = 50;
pub const VXLAN_IPV6_OVERHEAD: u32 = 70;

/// Why no usable VXLAN MTU exists.
#[derive(Clone, Copy, Debug, PartialEq, Eq)]
pub struct MtuTooSmall {
    /// The smallest known outer MTU bound.
    pub outer: u32,
    /// The encapsulation overhead that did not fit.
    pub overhead: u32,
}

/// Smallest of the device bound (capped at the default underlay MTU) and
/// the cached route MTUs of the first `n` peers.
pub open spec fn outer_bound(dev_mtu: u32, route_mtus: Seq<u32>, n: int) -> u32
    decreases n,
{
    if n <= 0 {
        if dev_mtu < DEFAULT_VXLAN_MTU + VXLAN_IPV4_OVERHEAD {
            dev_mtu
        } else {
            (DEFAULT_VXLAN_MTU + VXLAN_IPV4_OVERHEAD) as u32
        }
    } else {
        let prev = outer_bound(dev_mtu, route_mtus, n - 1);
        if route_mtus[n - 1] < prev {
            route_mtus[n - 1]
        } else {
            prev
        }
    }
}

/// The VXLAN MTU chosen automatically: the smallest known outer bound minus
/// the overhead, refused below the minimum rather than raised to it.
pub open spec fn spec_conservative_vxlan_mtu(dev_mtu: u32, overhead: u32, route_mtus: Seq<u32>) -> Result<u32, MtuTooSmall> {
    let outer = outer_bound(dev_mtu, route_mtus, route_mtus.len() as int);
    let mtu = if outer >= overhead {
        (outer - overhead) as u32
    } else {
        0
    };
    if mtu < MIN_VXLAN_MTU {
        Err(MtuTooSmall { outer, overhead })
    } else {
        Ok(mtu)
    }
}

pub fn conservative_vxlan_mtu(dev_mtu: u32, overhead: u32, route_mtus: &[u32]) -> (r: Result<u32, MtuTooSmall>)
    ensures
        r == spec_conservative_vxlan_mtu(dev_mtu, overhead, route_mtus@),
{
    let mut outer: u32 = if dev_mtu < DEFAULT_VXLAN_MTU + VXLAN_IPV4_OVERHEAD {
        dev_mtu
    } else {
        DEFAULT_VXLAN_MTU + VXLAN_IPV4_OVERHEAD
    };
    let mut i: usize = 0;
    while i < route_mtus.len()
        invariant
            0 <= i <= route_mtus@.len(),
            outer == outer_bound(dev_mtu, route_mtus@, i as int),
        decreases route_mtus@.len() - i,
    {
        if route_mtus[i] < outer {
            outer = route_mtus[i];
        }
        i = i + 1;
    }
    let mtu = outer.saturating_sub(overhead);
    if mtu < MIN_VXLAN_MTU {
        return Err(MtuTooSmall { outer, overhead });
    }
    Ok(mtu)
}

/// Law: the automatic MTU never exceeds the default, nor any known route
/// bound less the overhead, and is never below the minimum.
pub proof fn auto_mtu_is_bounded(dev_mtu: u32, overhead: u32, route_mtus: Seq<u32>)
    ensures
        spec_conservative_vxlan_mtu(dev_mtu, overhead, route_mtus) matches Ok(m) ==> {
            &&& MIN_VXLAN_MTU <= m
            &&& m + overhead <= DEFAULT_VXLAN_MTU + VXLAN_IPV4_OVERHEAD
            &&& m + overhead <= dev_mtu
            &&& forall|i: int| 0 <= i < route_mtus.len() ==> m + overhead <= #[trigger] route_mtus[i]
        },
{
    lemma_outer_bound(dev_mtu, route_mtus, route_mtus.len() as int);
}

proof fn lemma_outer_bound(dev_mtu: u32, route_mtus: Seq<u32>, n: int)
    requires
        0 <= n <= route_mtus.len(),
    ensures
        outer_bound(dev_mtu, route_mtus, n) <= dev_mtu,
        outer_bound(dev_mtu, route_mtus, n) <= DEFAULT_VXLAN_MTU + VXLAN_IPV4_OVERHEAD,
        forall|i: int| 0 <= i < n ==> outer_bound(dev_mtu, route_mtus, n) <= #[trigger] route_mtus[i],
    decreases n,
{
    if n > 0 {
        lemma_outer_bound(dev_mtu, route_mtus, n - 1);
    }
}

/// Encapsulation overhead: IPv6 whenever the local underlay or any peer is IPv6.
pub fn vxlan_overhead(any_ipv6: bool) -> (r: u32)
    ensures
        r == if any_ipv6 {
            VXLAN_IPV6_OVERHEAD
        } else {
            VXLAN_IPV4_OVERHEAD
        },
{
    if any_ipv6 {
        VXLAN_IPV6_OVERHEAD
    } else {
        VXLAN_IPV4_OVERHEAD
    }
}

/// Largest TCP MSS that fits a VXLAN MTU (40 bytes of IPv4 and TCP headers).
pub open spec fn max_mss(vxlan_mtu: u32) -> u32 {
    if vxlan_mtu >= 40 {
        (vxlan_mtu - 40) as u32
    } else {
        0
    }
}

/// Clamp the backend MSS to what the VXLAN MTU carries; a smaller MSS is kept.
pub fn clamp_backend_mss(mss: &mut u32, vxlan_mtu: u32)
    ensures
        *old(mss) > max_mss(vxlan_mtu) && max_mss(vxlan_mtu) > 0 ==> *final(mss) == max_mss(vxlan_mtu),
        !(*old(mss) > max_mss(vxlan_mtu) && max_mss(vxlan_mtu) > 0) ==> *final(mss) == *old(mss),
{
    let max = vxlan_mtu.saturating_sub(40);
    if *mss > max && max > 0 {
        *mss = max;
    }
}

/// The peers whose path MTU bounds the VXLAN MTU: each candidate once, in
/// order, leaving out unspecified addresses and the local underlay address.
pub open spec fn spec_pmtu_peers(local: IpAddress, candidates: Seq<IpAddress>) -> Seq<IpAddress>
    decreases candidates.len(),
{
    if candidates.len() == 0 {
        Seq::empty()
    } else {
        let prev = spec_pmtu_peers(local, candidates.drop_last());
        let p = candidates.last();
        if is_unspecified(p) || p == local || prev.contains(p) {
            prev
        } else {
            prev.push(p)
        }
    }
}

fn contains_ip(v: &Vec<IpAddress>, p: IpAddress) -> (r: bool)
    ensures
        r == v@.contains(p),
{
    let mut i: usize = 0;
    while i < v.len()
        invariant
            0 <= i <= v@.len(),
            forall|j: int| 0 <= j < i ==> v@[j] != p,
        decreases v@.len() - i,
    {
        if v[i] == p {
            return true;
        }
        i = i + 1;
    }
    false
}

pub fn pmtu_peers(local: IpAddress, candidates: &[IpAddress]) -> (r: Vec<IpAddress>)
    ensures
        r@ == spec_pmtu_peers(local, candidates@),
{
    let mut out: Vec<IpAddress> = Vec::new();
    let mut i: usize = 0;
    while i < candidates.len()
        invariant
            0 <= i <= candidates@.len(),
            out@ == spec_pmtu_peers(local, candidates@.take(i as int)),
        decreases candidates@.len() - i,
    {
        let p = candidates[i];
        proof {
            assert(candidates@.take(i as int + 1).drop_last() =~= candidates@.take(i as int));
        }
        let unspecified = match p {
            IpAddress::V4(a) => a == 0,
            IpAddress::V6(a) => a == 0,
        };
        if !(unspecified || p == local || contains_ip(&out, p)) {
            out.push(p);
        }
        i = i + 1;
    }
    proof {
        assert(candidates@.take(candidates@.len() as int) =~= candidates@);
    }
    out
}

/// Whether an address or any peer is IPv6.
pub open spec fn any_ipv6(local: IpAddress, peers: Seq<IpAddress>) -> bool {
    local is V6 || exists|i: int| 0 <= i < peers.len() && #[trigger] peers[i] is V6
}

fn has_ipv6(local: IpAddress, peers: &Vec<IpAddress>) -> (r: bool)
    ensures
        r == any_ipv6(local, peers@),
{
    if let IpAddress::V6(_) = local {
        return true;
    }
    let mut i: usize = 0;
    while i < peers.len()
        invariant
            0 <= i <= peers@.len(),
            forall|j: int| 0 <= j < i ==> !(#[trigger] peers@[j] is V6),
        decreases peers@.len() - i,
    {
        if let IpAddress::V6(_) = peers[i] {
            return true;
        }
        i = i + 1;
    }
    false
}

/// Whether the configuration fixes the VXLAN MTU itself: set, and not
/// marked automatic.
pub open spec fn spec_mtu_is_explicit(n: NetworkConfig) -> bool {
    !n.vxlan_mtu_auto && n.vxlan_mtu != 0
}

pub fn vxlan_mtu_is_explicit(network: &NetworkConfig) -> (r: bool)
    ensures
        r == spec_mtu_is_explicit(*network),
{
    !network.vxlan_mtu_auto && network.vxlan_mtu != 0
}

/// The underlay MTU taken when the device's own could not be read: the
/// default VXLAN MTU plus the IPv4 overhead.
pub open spec fn device_mtu_or_default(read: Option<u32>) -> u32 {
    match read {
        Some(m) => m,
        None => (DEFAULT_VXLAN_MTU + VXLAN_IPV4_OVERHEAD) as u32,
    }
}

/// MSS after clamping to a VXLAN MTU.
pub open spec fn clamped_mss(mss: u32, vxlan_mtu: u32) -> u32 {
    if mss > max_mss(vxlan_mtu) && max_mss(vxlan_mtu) > 0 {
        max_mss(vxlan_mtu)
    } else {
        mss
    }
}

/// The MTU resolution: an explicit MTU is kept as it is; otherwise the MTU
/// comes from the device MTU (or its default), the overhead of the address
/// family and the cached IPv4 route MTUs of the peers.
pub open spec fn spec_resolved_mtu(
    file: FileConfig,
    local: IpAddress,
    candidates: Seq<IpAddress>,
    dev_mtu: Option<u32>,
    route_mtus: Seq<u32>,
) -> Result<u32, MtuTooSmall> {
    let overhead = if any_ipv6(local, spec_pmtu_peers(local, candidates)) {
        VXLAN_IPV6_OVERHEAD
    } else {
        VXLAN_IPV4_OVERHEAD
    };
    spec_conservative_vxlan_mtu(device_mtu_or_default(dev_mtu), overhead, route_mtus)
}

/// Resolve an automatic VXLAN MTU into the configuration. `local` is the
/// node's underlay address, `candidates` the underlay addresses of the nodes
/// it exchanges VXLAN traffic with, `dev_mtu` the underlay device's MTU
/// (`None` where it could not be read) and `route_mtus` the cached route
/// MTUs found for the IPv4 peers. An explicit MTU leaves the configuration
/// untouched; a resolved one is stored, marked automatic, and the backend
/// MSS is clamped to it; an MTU below the minimum is refused, changing
/// nothing.
pub fn resolve_auto_vxlan_mtu(
    file: &mut FileConfig,
    local: IpAddress,
    candidates: &[IpAddress],
    dev_mtu: Option<u32>,
    route_mtus: &[u32],
) -> (r: Result<(), MtuTooSmall>)
    ensures
        spec_mtu_is_explicit(old(file).network) ==> r is Ok && *final(file) == *old(file),
        !spec_mtu_is_explicit(old(file).network) ==> match spec_resolved_mtu(*old(file), local, candidates@, dev_mtu, route_mtus@) {
            Ok(m) => r is Ok && *final(file) == (FileConfig {
                network: NetworkConfig { vxlan_mtu: m, vxlan_mtu_auto: true, ..old(file).network },
                backend: crate::file_config::BackendSection {
                    mss: clamped_mss(old(file).backend.mss, m),
                    ..old(file).backend
                },
                ..*old(file)
            }),
            Err(e) => r == Err::<(), MtuTooSmall>(e) && *final(file) == *old(file),
        },
{
    if vxlan_mtu_is_explicit(&file.network) {
        return Ok(());
    }
    let dev = match dev_mtu {
        Some(m) => m,
        None => DEFAULT_VXLAN_MTU + VXLAN_IPV4_OVERHEAD,
    };
    let peers = pmtu_peers(local, candidates);
    let overhead = vxlan_overhead(has_ipv6(local, &peers));
    let resolved = match conservative_vxlan_mtu(dev, overhead, route_mtus) {
        Ok(m) => m,
        Err(e) => return Err(e),
    };
    file.network.vxlan_mtu = resolved;
    file.network.vxlan_mtu_auto = true;
    let mut mss = file.backend.mss;
    clamp_backend_mss(&mut mss, resolved);
    file.backend.mss = mss;
    Ok(())
}

/// Discovery mode name of a setting.
pub fn discovery_mode(auto: bool) -> (r: &'static str)
    ensures
        auto ==> r@ == "auto"@,
        !auto ==> r@ == "static"@,
{
    if auto {
        "auto"
    } else {
        "static"
    }
}

/// Environment-variable spelling of a node name: ASCII letters and digits in
/// upper case, every other character as `_`.
pub open spec fn env_key_char(c: char) -> char {
    if 'a' <= c && c <= 'z' {
        ((c as u32) - 32) as char
    } else if ('A' <= c && c <= 'Z') || ('0' <= c && c <= '9') {
        c
    } else {
        '_'
    }
}

pub fn env_key(name: &str) -> (r: String)
    ensures
        r@ == Seq::new(name@.len(), |i: int| env_key_char(name@[i])),
{
    let cs = crate::text::chars_of(name);
    let mut out: Vec<char> = Vec::new();
    let mut i: usize = 0;
    while i < cs.len()
        invariant
            cs@ == name@,
            0 <= i <= cs@.len(),
            out@.len() == i,
            forall|j: int| 0 <= j < i ==> out@[j] == env_key_char(cs@[j]),
        decreases cs@.len() - i,
    {
        let c = cs[i];
        let k = if 'a' <= c && c <= 'z' {
            ((c as u32) - 32) as u8 as char
        } else if ('A' <= c && c <= 'Z') || ('0' <= c && c <= '9') {
            c
        } else {
            '_'
        };
        out.push(k);
        i = i + 1;
    }
    assert(out@ =~= Seq::new(name@.len(), |i: int| env_key_char(name@[i])));
    crate::text::string_of(&out)
}

} // verus!
