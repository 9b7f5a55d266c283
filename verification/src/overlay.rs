//! Overlay addresses of the VXLAN mesh: the host addresses of the overlay
//! network, and their assignment to gateways and backends that have none.

use vstd::prelude::*;
use crate::text::{trim, lower};
use crate::ipnet::{spec_parse_net, ipv4_text, Ipv4Net};
use vstd::arithmetic::power2::pow2;
use crate::route_msg::IpAddress;
use crate::registry::BackendNode;

verus! {

/// The gateway overlay placeholder a fresh configuration carries.
pub fn default_gateway_overlay() -> (r: String)
    ensures
        r@ == "10.255.255.1/24"@,
{
    "10.255.255.1/24".to_string()
}

/// The backend overlay placeholder a fresh configuration carries.
pub fn default_backend_overlay() -> (r: String)
    ensures
        r@ == "10.255.255.2/24"@,
{
    "10.255.255.2/24".to_string()
}

/// An overlay value that still has to be assigned: blank, `auto` (in any
/// case), or one of the placeholder defaults, old or current.
pub open spec fn spec_needs_assignment(v: Seq<char>) -> bool {
    let t = trim(v);
    t.len() == 0 || lower(t) == "auto"@ || t == "10.255.255.1/24"@ || t == "10.255.255.1/30"@ || t == "10.255.255.2/24"@
        || t == "10.255.255.2/30"@
}

fn literal_chars(s: &str) -> (r: Vec<char>)
    ensures
        r@ == s@,
{
    crate::text::chars_of(s)
}

pub fn overlay_needs_assignment(value: &str) -> (r: bool)
    ensures
        r == spec_needs_assignment(value@),
{
    let t = crate::text::trimmed(value);
    proof {
        reveal_strlit("auto");
        reveal_strlit("10.255.255.1/24");
        reveal_strlit("10.255.255.1/30");
        reveal_strlit("10.255.255.2/24");
        reveal_strlit("10.255.255.2/30");
    }
    if t.len() == 0 {
        return true;
    }
    let l = crate::text::lower_chars(&t);
    crate::text::chars_eq(&l, &literal_chars("auto")) || crate::text::chars_eq(&t, &literal_chars("10.255.255.1/24"))
        || crate::text::chars_eq(&t, &literal_chars("10.255.255.1/30")) || crate::text::chars_eq(&t, &literal_chars("10.255.255.2/24"))
        || crate::text::chars_eq(&t, &literal_chars("10.255.255.2/30"))
}

/// Host `idx` of an IPv4 overlay network of prefix at most 30, written
/// `address/prefix`; `None` for another network text or a host index that
/// is the network or broadcast address or past it.
pub open spec fn spec_overlay_host(cidr: Seq<char>, idx: u32) -> Option<Seq<char>> {
    match spec_parse_net(cidr) {
        None => None,
        Some(net) => if net.prefix > 30 {
            None
        } else {
            let size = crate::overlay::host_space(net.prefix);
            if idx == 0 || idx >= size - 1 {
                None
            } else {
                Some(ipv4_text((net.network + idx) as u32) + seq!['/'] + crate::text::decimal(net.prefix as nat))
            }
        },
    }
}

/// Number of addresses of a network of prefix `p`.
pub open spec fn host_space(p: u8) -> int {
    vstd::arithmetic::power2::pow2((32 - p) as nat) as int
}

pub fn overlay_host(cidr: &str, host_index: u32) -> (r: Option<String>)
    ensures
        r matches Some(s) ==> spec_overlay_host(cidr@, host_index) == Some(s@),
        r is None ==> spec_overlay_host(cidr@, host_index) is None,
{
    let net = match Ipv4Net::parse(cidr) {
        Some(n) => n,
        None => {
            return None;
        },
    };
    if net.prefix > 30 {
        return None;
    }
    let bits: u64 = (32 - net.prefix) as u64;
    proof {
        vstd::arithmetic::power2::lemma2_to64();
        vstd::arithmetic::power2::lemma_pow2_strictly_increases(bits as nat, 64);
        vstd::bits::lemma_u64_shl_is_mul(1, bits);
    }
    let size: u64 = 1u64 << bits;
    assert(size == host_space(net.prefix));
    if host_index == 0 || host_index as u64 >= size - 1 {
        return None;
    }
    proof {
        lemma_network_room(cidr@, net);
    }
    let addr: u32 = net.network + host_index;
    let mut out = crate::text::chars_of(crate::ipnet::format_ipv4(addr).as_str());
    out.push('/');
    crate::text::extend_chars(&mut out, &crate::text::decimal_chars(net.prefix as u64));
    Some(crate::text::string_of(&out))
}

/// A parsed network leaves room for all its host addresses below 2^32.
proof fn lemma_network_room(cidr: Seq<char>, net: Ipv4Net)
    requires
        spec_parse_net(cidr) == Some(net),
        net.prefix <= 30,
    ensures
        net.network as int + host_space(net.prefix) <= 0x1_0000_0000,
{
    let k = choose|k: int| crate::text::first_index_of(cidr, '/', k);
    let ip = crate::ipnet::parsed_ipv4(cidr.take(k))->Some_0;
    let b: u32 = (32 - net.prefix) as u32;
    vstd::arithmetic::power2::lemma2_to64();
    if net.prefix == 0 {
        assert(net.network == ip & 0);
        assert(ip & 0 == 0) by (bit_vector);
        assert(host_space(0) == 0x1_0000_0000) by {
            vstd::arithmetic::power2::lemma_pow2_adds(16, 16);
        }
    } else {
        assert(net.network == ip & (0xffff_ffffu32 << b));
        assert((ip & (0xffff_ffffu32 << b)) as u64 + (1u64 << (b as u64)) <= 0x1_0000_0000u64) by (bit_vector)
            requires
                2 <= b <= 31,
        ;
        vstd::arithmetic::power2::lemma_pow2_strictly_increases(b as nat, 64);
        vstd::bits::lemma_u64_shl_is_mul(1, b as u64);
    }
}

/// A gateway of the mesh and its overlay address.
#[derive(Clone, Debug, PartialEq, Eq)]
pub struct GatewayNode {
    pub name: String,
    pub public_ip: IpAddress,
    pub underlay_ip: IpAddress,
    pub overlay_ip: String,
}

/// The part of a gateway's configuration that overlay assignment reads and
/// writes: the overlay network, the local gateway's overlay address, and the
/// gateway and backend inventories.
#[derive(Clone, Debug)]
pub struct OverlayInventory {
    pub overlay_cidr: String,
    pub gateway_overlay_ip: String,
    pub gateway_nodes: Vec<GatewayNode>,
    pub backend_nodes: Vec<BackendNode>,
}

pub open spec fn gateway_overlays(s: Seq<GatewayNode>) -> Seq<Seq<char>> {
    s.map_values(|g: GatewayNode| g.overlay_ip@)
}

pub open spec fn backend_overlays(s: Seq<BackendNode>) -> Seq<Seq<char>> {
    s.map_values(|b: BackendNode| b.overlay_ip@)
}

pub open spec fn texts(s: Seq<String>) -> Seq<Seq<char>> {
    s.map_values(|x: String| x@)
}

/// Gateways first: with a usable network every gateway (and the local
/// gateway value) that needs an address takes host 1. The addresses then in
/// use are the gateways' and the local one.
pub open spec fn phase_gateways(cidr: Seq<char>, gws: Seq<Seq<char>>, local: Seq<char>) -> (Seq<Seq<char>>, Seq<char>, Seq<Seq<char>>) {
    match spec_overlay_host(cidr, 1) {
        Some(g) => {
            let g2 = gws.map_values(|o: Seq<char>| if spec_needs_assignment(o) { g } else { o });
            let l2 = if spec_needs_assignment(local) { g } else { local };
            (g2, l2, g2.push(l2))
        },
        None => (gws, local, gws.push(local)),
    }
}

/// Backends that repeat an address already in use fall back to the
/// placeholder; the others add their address to those in use.
pub open spec fn dedup_backends(bs: Seq<Seq<char>>, used: Seq<Seq<char>>) -> (Seq<Seq<char>>, Seq<Seq<char>>)
    decreases bs.len(),
{
    if bs.len() == 0 {
        (seq![], used)
    } else {
        let (prev, u) = dedup_backends(bs.drop_last(), used);
        let o = bs.last();
        if spec_needs_assignment(o) {
            (prev.push(o), u)
        } else if u.contains(o) {
            (prev.push("10.255.255.2/24"@), u)
        } else {
            (prev.push(o), u.push(o))
        }
    }
}

/// The first host address from index `h` to `max` that is not in use,
/// stopping at the first index the network does not have.
pub open spec fn first_free(cidr: Seq<char>, used: Seq<Seq<char>>, h: u32, max: u32) -> Option<Seq<char>>
    decreases max - h,
{
    if h > max {
        None
    } else {
        match spec_overlay_host(cidr, h) {
            None => None,
            Some(o) => if !used.contains(o) {
                Some(o)
            } else if h == max {
                None
            } else {
                first_free(cidr, used, (h + 1) as u32, max)
            },
        }
    }
}

/// Backends that need an address take, in order, the first free host from 2 on.
pub open spec fn assign_backends(bs: Seq<Seq<char>>, used: Seq<Seq<char>>, cidr: Seq<char>, max: u32) -> (Seq<Seq<char>>, Seq<Seq<char>>)
    decreases bs.len(),
{
    if bs.len() == 0 {
        (seq![], used)
    } else {
        let (prev, u) = assign_backends(bs.drop_last(), used, cidr, max);
        let o = bs.last();
        if !spec_needs_assignment(o) {
            (prev.push(o), u)
        } else {
            match first_free(cidr, u, 2, max) {
                Some(n) => (prev.push(n), u.push(n)),
                None => (prev.push(o), u),
            }
        }
    }
}

/// The overlay addresses after assignment: gateways, local gateway, backends.
pub open spec fn spec_assign(cidr: Seq<char>, gws: Seq<Seq<char>>, local: Seq<char>, bes: Seq<Seq<char>>) -> (Seq<Seq<char>>, Seq<char>, Seq<Seq<char>>) {
    let (g2, l2, u1) = phase_gateways(cidr, gws, local);
    let (b2, u2) = dedup_backends(bes, u1);
    (g2, l2, assign_backends(b2, u2, cidr, (bes.len() + gws.len() + 256) as u32).0)
}

pub(crate) fn contains_text(v: &Vec<String>, s: &str) -> (r: bool)
    ensures
        r == texts(v@).contains(s@),
{
    let mut i: usize = 0;
    while i < v.len()
        invariant
            i <= v@.len(),
            forall|j: int| 0 <= j < i ==> v@[j]@ != s@,
        decreases v@.len() - i,
    {
        if crate::registry::same_name(v[i].as_str(), s) {
            assert(texts(v@)[i as int] == s@);
            return true;
        }
        i = i + 1;
    }
    assert forall|j: int| 0 <= j < texts(v@).len() implies texts(v@)[j] != s@ by {
        assert(texts(v@)[j] == v@[j]@);
    }
    false
}

fn push_text(v: &mut Vec<String>, s: String)
    ensures
        texts(final(v)@) == texts(old(v)@).push(s@),
{
    v.push(s);
    assert(texts(v@) =~= texts(old(v)@).push(s@));
}

fn find_free(cidr: &str, used: &Vec<String>, max: u32) -> (r: Option<String>)
    requires
        2 <= max,
    ensures
        r matches Some(o) ==> first_free(cidr@, texts(used@), 2, max) == Some(o@),
        r is None ==> first_free(cidr@, texts(used@), 2, max) is None,
{
    let mut h: u32 = 2;
    while h <= max
        invariant
            2 <= h <= max + 1,
            first_free(cidr@, texts(used@), 2, max) == first_free(cidr@, texts(used@), h, max),
        decreases max + 1 - h,
    {
        match overlay_host(cidr, h) {
            None => {
                return None;
            },
            Some(o) => {
                if !contains_text(used, o.as_str()) {
                    return Some(o);
                }
            },
        }
        if h == max {
            return None;
        }
        h = h + 1;
    }
    None
}

/// Give every gateway and backend that needs one an overlay address, and
/// reset a backend address that repeats one already in use.
pub fn assign_overlay_ips(inv: &mut OverlayInventory)
    requires
        old(inv).backend_nodes@.len() + old(inv).gateway_nodes@.len() + 256 <= u32::MAX,
    ensures
        final(inv).overlay_cidr == old(inv).overlay_cidr,
        final(inv).gateway_nodes@.len() == old(inv).gateway_nodes@.len(),
        final(inv).backend_nodes@.len() == old(inv).backend_nodes@.len(),
        forall|i: int| 0 <= i < old(inv).gateway_nodes@.len() ==> {
            &&& (#[trigger] final(inv).gateway_nodes@[i]).name == old(inv).gateway_nodes@[i].name
            &&& final(inv).gateway_nodes@[i].public_ip == old(inv).gateway_nodes@[i].public_ip
            &&& final(inv).gateway_nodes@[i].underlay_ip == old(inv).gateway_nodes@[i].underlay_ip
        },
        forall|i: int| 0 <= i < old(inv).backend_nodes@.len() ==> {
            &&& (#[trigger] final(inv).backend_nodes@[i]).name == old(inv).backend_nodes@[i].name
            &&& final(inv).backend_nodes@[i].public_ip == old(inv).backend_nodes@[i].public_ip
            &&& final(inv).backend_nodes@[i].underlay_ip == old(inv).backend_nodes@[i].underlay_ip
        },
        ({
            let r = spec_assign(old(inv).overlay_cidr@, gateway_overlays(old(inv).gateway_nodes@), old(inv).gateway_overlay_ip@, backend_overlays(old(inv).backend_nodes@));
            &&& gateway_overlays(final(inv).gateway_nodes@) == r.0
            &&& final(inv).gateway_overlay_ip@ == r.1
            &&& backend_overlays(final(inv).backend_nodes@) == r.2
        }),
{
    let ghost gw0 = inv.gateway_nodes@;
    let ghost be0 = inv.backend_nodes@;
    let ghost local0 = inv.gateway_overlay_ip@;
    let ghost cidr = inv.overlay_cidr@;
    let max_host_index: u32 = inv.backend_nodes.len() as u32 + inv.gateway_nodes.len() as u32 + 256;
    let mut used: Vec<String> = Vec::new();
    // gateways
    let gw_host = overlay_host(inv.overlay_cidr.as_str(), 1);
    let mut gws: Vec<GatewayNode> = Vec::new();
    let mut i: usize = 0;
    while i < inv.gateway_nodes.len()
        invariant
            i <= gw0.len(),
            inv.gateway_nodes@ == gw0,
            inv.overlay_cidr@ == cidr,
            gws@.len() == i,
            forall|j: int| 0 <= j < i ==> (#[trigger] gws@[j]).name == gw0[j].name && gws@[j].public_ip == gw0[j].public_ip
                && gws@[j].underlay_ip == gw0[j].underlay_ip,
            gateway_overlays(gws@) == phase_gateways(cidr, gateway_overlays(gw0).take(i as int), local0).0,
            texts(used@) == gateway_overlays(gws@),
            gw_host matches Some(g) ==> spec_overlay_host(cidr, 1) == Some(g@),
            gw_host is None ==> spec_overlay_host(cidr, 1) is None,
        decreases gw0.len() - i,
    {
        let g = &inv.gateway_nodes[i];
        let overlay_ip = match &gw_host {
            Some(h) => if overlay_needs_assignment(g.overlay_ip.as_str()) {
                h.clone()
            } else {
                g.overlay_ip.clone()
            },
            None => g.overlay_ip.clone(),
        };
        let ghost before = gws@;
        push_text(&mut used, overlay_ip.clone());
        gws.push(GatewayNode { name: g.name.clone(), public_ip: g.public_ip, underlay_ip: g.underlay_ip, overlay_ip });
        assert(gateway_overlays(gw0).take(i + 1) =~= gateway_overlays(gw0).take(i as int).push(gw0[i as int].overlay_ip@));
        assert(gateway_overlays(gws@) =~= gateway_overlays(before).push(gws@[i as int].overlay_ip@));
        i = i + 1;
    }
    assert(gateway_overlays(gw0).take(i as int) =~= gateway_overlays(gw0));
    let local = match &gw_host {
        Some(h) => if overlay_needs_assignment(inv.gateway_overlay_ip.as_str()) {
            h.clone()
        } else {
            inv.gateway_overlay_ip.clone()
        },
        None => inv.gateway_overlay_ip.clone(),
    };
    push_text(&mut used, local.clone());
    inv.gateway_nodes = gws;
    inv.gateway_overlay_ip = local;
    // backends repeating an address in use fall back to the placeholder
    let mut bes: Vec<BackendNode> = Vec::new();
    let ghost u1 = texts(used@);
    assert(u1 == phase_gateways(cidr, gateway_overlays(gw0), local0).2);
    let mut k: usize = 0;
    while k < inv.backend_nodes.len()
        invariant
            k <= be0.len(),
            inv.backend_nodes@ == be0,
            bes@.len() == k,
            forall|j: int| 0 <= j < k ==> (#[trigger] bes@[j]).name == be0[j].name && bes@[j].public_ip == be0[j].public_ip
                && bes@[j].underlay_ip == be0[j].underlay_ip,
            (backend_overlays(bes@), texts(used@)) == dedup_backends(backend_overlays(be0).take(k as int), u1),
        decreases be0.len() - k,
    {
        let b = &inv.backend_nodes[k];
        assert(backend_overlays(be0).take(k + 1).drop_last() =~= backend_overlays(be0).take(k as int));
        let ghost before = bes@;
        let overlay_ip = if overlay_needs_assignment(b.overlay_ip.as_str()) {
            b.overlay_ip.clone()
        } else if contains_text(&used, b.overlay_ip.as_str()) {
            default_backend_overlay()
        } else {
            push_text(&mut used, b.overlay_ip.clone());
            b.overlay_ip.clone()
        };
        bes.push(BackendNode { name: b.name.clone(), public_ip: b.public_ip, underlay_ip: b.underlay_ip, overlay_ip });
        assert(backend_overlays(bes@) =~= backend_overlays(before).push(bes@[k as int].overlay_ip@));
        k = k + 1;
    }
    assert(backend_overlays(be0).take(k as int) =~= backend_overlays(be0));
    // backends that need an address take the first free host
    let ghost b2 = backend_overlays(bes@);
    let ghost u2 = texts(used@);
    let mut out: Vec<BackendNode> = Vec::new();
    let mut m: usize = 0;
    while m < bes.len()
        invariant
            m <= bes@.len(),
            bes@.len() == be0.len(),
            b2 == backend_overlays(bes@),
            inv.overlay_cidr@ == cidr,
            max_host_index >= 2,
            out@.len() == m,
            forall|j: int| 0 <= j < be0.len() ==> (#[trigger] bes@[j]).name == be0[j].name && bes@[j].public_ip == be0[j].public_ip
                && bes@[j].underlay_ip == be0[j].underlay_ip,
            forall|j: int| 0 <= j < m ==> (#[trigger] out@[j]).name == be0[j].name && out@[j].public_ip == be0[j].public_ip
                && out@[j].underlay_ip == be0[j].underlay_ip,
            (backend_overlays(out@), texts(used@)) == assign_backends(b2.take(m as int), u2, cidr, max_host_index),
        decreases bes@.len() - m,
    {
        let b = &bes[m];
        assert(b2.take(m + 1).drop_last() =~= b2.take(m as int));
        assert(b2[m as int] == b.overlay_ip@);
        let ghost before = out@;
        let overlay_ip = if !overlay_needs_assignment(b.overlay_ip.as_str()) {
            b.overlay_ip.clone()
        } else {
            match find_free(inv.overlay_cidr.as_str(), &used, max_host_index) {
                Some(o) => {
                    push_text(&mut used, o.clone());
                    o
                },
                None => b.overlay_ip.clone(),
            }
        };
        out.push(BackendNode { name: b.name.clone(), public_ip: b.public_ip, underlay_ip: b.underlay_ip, overlay_ip });
        assert(backend_overlays(out@) =~= backend_overlays(before).push(out@[m as int].overlay_ip@));
        m = m + 1;
    }
    assert(b2.take(m as int) =~= b2);
    inv.backend_nodes = out;
}

} // verus!
