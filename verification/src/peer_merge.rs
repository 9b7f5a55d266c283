//! The paired HA gateway in a gateway's inventory: each configured peer is
//! added to the gateway nodes, or updates the node with its name or
//! underlay address, and no backend may keep a peer's underlay address.

use vstd::prelude::*;
use vstd::string::*;
use crate::route_msg::IpAddress;
use crate::overlay::GatewayNode;
use crate::registry::{BackendNode, spec_parse_ip, parse_ip_address, is_unspecified, clone_node};
use crate::ha::GatewayHaPeer;
use crate::file_config::{gw_view, gw_views};
use crate::text::{trim, trimmed, string_of, chars_of};

verus! {

/// A peer whose address does not parse.
#[derive(Clone, Debug, PartialEq, Eq)]
pub enum PeerMergeError {
    /// The named peer's underlay address.
    BadUnderlay(String),
    /// The named peer's public address.
    BadPublicIp(String),
}

pub open spec fn merge_error_view(e: PeerMergeError) -> (bool, Seq<char>) {
    match e {
        PeerMergeError::BadUnderlay(n) => (true, n@),
        PeerMergeError::BadPublicIp(n) => (false, n@),
    }
}

pub open spec fn merge_error_message(e: (bool, Seq<char>)) -> Seq<char> {
    "bad HA peer "@ + e.1 + if e.0 { " underlay_ip"@ } else { " public_ip"@ }
}

impl PeerMergeError {
    pub fn message(&self) -> (r: String)
        ensures
            r@ == merge_error_message(merge_error_view(*self)),
    {
        let (name, field) = match self {
            PeerMergeError::BadUnderlay(n) => (n, " underlay_ip"),
            PeerMergeError::BadPublicIp(n) => (n, " public_ip"),
        };
        let mut out = chars_of("bad HA peer ");
        crate::text::extend_chars(&mut out, &chars_of(name.as_str()));
        crate::text::extend_chars(&mut out, &chars_of(field));
        string_of(&out)
    }
}

/// A gateway node by value: name, public address, underlay address,
/// overlay address.
pub type NodeView = (Seq<char>, IpAddress, IpAddress, Seq<char>);

/// Where the merge stands after some peers: the gateway nodes, the peer
/// underlay addresses met, whether a node changed, and the error that
/// stopped it.
pub struct MergeState {
    pub nodes: Seq<NodeView>,
    pub underlays: Seq<IpAddress>,
    pub changed: bool,
    pub error: Option<(bool, Seq<char>)>,
}

/// The first node from `i` on with the name or the underlay address.
pub open spec fn first_match_from(s: Seq<NodeView>, name: Seq<char>, u: IpAddress, i: int) -> Option<int>
    decreases s.len() - i,
{
    if i < 0 || i >= s.len() {
        None
    } else if s[i].0 == name || s[i].2 == u {
        Some(i)
    } else {
        first_match_from(s, name, u, i + 1)
    }
}

/// An optional text that is not blank, trimmed.
pub open spec fn present(o: Option<String>) -> Option<Seq<char>> {
    match o {
        Some(s) => if trim(s@).len() > 0 { Some(trim(s@)) } else { None },
        None => None,
    }
}

/// One peer: a blank name is skipped; the underlay and any public address
/// must parse; the node with its name or underlay address takes its name
/// and underlay, its public address when given, and its overlay address
/// (the local gateway's when the peer has none); without such a node the
/// peer is added.
pub open spec fn peer_step(st: MergeState, p: GatewayHaPeer, default_overlay: Seq<char>) -> MergeState {
    let name = trim(p.name@);
    if name.len() == 0 {
        st
    } else {
        match spec_parse_ip(trim(p.underlay_ip@)) {
            None => MergeState { error: Some((true, name)), ..st },
            Some(u) => {
                let underlays = st.underlays.push(u);
                let public_text = present(p.public_ip);
                if public_text matches Some(t) && spec_parse_ip(t) is None {
                    MergeState { underlays, error: Some((false, name)), ..st }
                } else {
                    let public = match public_text {
                        Some(t) => spec_parse_ip(t).unwrap(),
                        None => IpAddress::V4(0),
                    };
                    let overlay = match present(p.overlay_ip) {
                        Some(o) => o,
                        None => default_overlay,
                    };
                    match first_match_from(st.nodes, name, u, 0) {
                        Some(i) => {
                            let e = st.nodes[i];
                            let set_public = !is_unspecified(public);
                            let set_overlay = trim(overlay).len() > 0;
                            let e2 = (name, if set_public { public } else { e.1 }, u, if set_overlay { overlay } else { e.3 });
                            let ch = e.0 != name || e.2 != u || (set_public && e.1 != public) || (set_overlay && e.3 != overlay);
                            MergeState { nodes: st.nodes.update(i, e2), underlays, changed: st.changed || ch, error: None }
                        },
                        None => MergeState {
                            nodes: st.nodes.push((name, public, u, overlay)),
                            underlays,
                            changed: true,
                            error: None,
                        },
                    }
                }
            },
        }
    }
}

/// The peers merged in order, stopping at the first error.
pub open spec fn merge_peers(peers: Seq<GatewayHaPeer>, default_overlay: Seq<char>, nodes: Seq<NodeView>) -> MergeState
    decreases peers.len(),
{
    if peers.len() == 0 {
        MergeState { nodes, underlays: seq![], changed: false, error: None }
    } else {
        let prev = merge_peers(peers.drop_last(), default_overlay, nodes);
        if prev.error is Some {
            prev
        } else {
            peer_step(prev, peers.last(), default_overlay)
        }
    }
}

/// The backends whose underlay address is no peer's.
pub open spec fn kept_backends(s: Seq<BackendNode>, underlays: Seq<IpAddress>) -> Seq<BackendNode>
    decreases s.len(),
{
    if s.len() == 0 {
        seq![]
    } else {
        let prev = kept_backends(s.drop_last(), underlays);
        if underlays.contains(s.last().underlay_ip) {
            prev
        } else {
            prev.push(s.last())
        }
    }
}

proof fn lemma_error_sticks(peers: Seq<GatewayHaPeer>, d: Seq<char>, nodes: Seq<NodeView>, k: int)
    requires
        0 <= k <= peers.len(),
        merge_peers(peers.take(k), d, nodes).error is Some,
    ensures
        merge_peers(peers, d, nodes) == merge_peers(peers.take(k), d, nodes),
    decreases peers.len() - k,
{
    if k < peers.len() {
        assert(peers.take(k + 1).drop_last() =~= peers.take(k));
        lemma_error_sticks(peers, d, nodes, k + 1);
    } else {
        assert(peers.take(k) =~= peers);
    }
}

proof fn lemma_first_match(s: Seq<NodeView>, name: Seq<char>, u: IpAddress, i: int)
    ensures
        first_match_from(s, name, u, i) matches Some(k) ==> i <= k < s.len() && (s[k].0 == name || s[k].2 == u),
    decreases s.len() - i,
{
    if 0 <= i < s.len() && !(s[i].0 == name || s[i].2 == u) {
        lemma_first_match(s, name, u, i + 1);
    }
}

fn find_gateway(nodes: &Vec<GatewayNode>, name: &Vec<char>, u: IpAddress) -> (r: Option<usize>)
    ensures
        r matches Some(k) ==> first_match_from(gw_views(nodes@), name@, u, 0) == Some(k as int) && k < nodes@.len(),
        r is None ==> first_match_from(gw_views(nodes@), name@, u, 0) is None,
{
    proof {
        lemma_first_match(gw_views(nodes@), name@, u, 0);
    }
    let ghost s = gw_views(nodes@);
    let mut i: usize = 0;
    while i < nodes.len()
        invariant
            0 <= i <= nodes@.len(),
            s == gw_views(nodes@),
            first_match_from(s, name@, u, 0) == first_match_from(s, name@, u, i as int),
        decreases nodes@.len() - i,
    {
        assert(s[i as int] == gw_view(nodes@[i as int]));
        if crate::text::chars_eq(&chars_of(nodes[i].name.as_str()), name) || nodes[i].underlay_ip == u {
            return Some(i);
        }
        i = i + 1;
    }
    None
}

fn present_text(o: &Option<String>) -> (r: Option<Vec<char>>)
    ensures
        match present(*o) {
            Some(t) => r matches Some(x) && x@ == t,
            None => r is None,
        },
{
    match o {
        Some(s) => {
            let t = trimmed(s.as_str());
            if t.len() > 0 {
                Some(t)
            } else {
                None
            }
        },
        None => None,
    }
}

/// Merge the configured HA peers into the gateway nodes, in order; an
/// address that does not parse stops the merge with the changes made
/// before it. On success the backends that hold a peer's underlay address
/// are dropped, and the result says whether anything changed.
pub fn merge_gateway_peers(
    peers: &Vec<GatewayHaPeer>,
    default_overlay: &str,
    gateway_nodes: &mut Vec<GatewayNode>,
    backend_nodes: &mut Vec<BackendNode>,
) -> (r: Result<bool, PeerMergeError>)
    ensures
        ({
            let st = merge_peers(peers@, default_overlay@, gw_views(old(gateway_nodes)@));
            &&& gw_views(final(gateway_nodes)@) == st.nodes
            &&& match st.error {
                Some(e) => (r matches Err(x) && merge_error_view(x) == e) && final(backend_nodes)@ == old(backend_nodes)@,
                None => {
                    let kept = kept_backends(old(backend_nodes)@, st.underlays);
                    &&& final(backend_nodes)@ == kept
                    &&& r == Ok::<bool, PeerMergeError>(st.changed || kept.len() != old(backend_nodes)@.len())
                },
            }
        }),
{
    let ghost d = default_overlay@;
    let ghost nodes0 = gw_views(gateway_nodes@);
    let mut underlays: Vec<IpAddress> = Vec::new();
    let mut changed = false;
    let mut i: usize = 0;
    while i < peers.len()
        invariant
            0 <= i <= peers@.len(),
            d == default_overlay@,
            nodes0 == gw_views(old(gateway_nodes)@),
            backend_nodes@ == old(backend_nodes)@,
            ({
                let st = merge_peers(peers@.take(i as int), d, nodes0);
                &&& st.error is None
                &&& gw_views(gateway_nodes@) == st.nodes
                &&& underlays@ == st.underlays
                &&& changed == st.changed
            }),
        decreases peers@.len() - i,
    {
        let ghost prev = merge_peers(peers@.take(i as int), d, nodes0);
        proof {
            assert(peers@.take(i + 1).drop_last() =~= peers@.take(i as int));
            assert(peers@.take(i + 1).last() == peers@[i as int]);
        }
        let p = &peers[i];
        let name = trimmed(p.name.as_str());
        if name.len() > 0 {
            let u = match parse_ip_address(string_of(&trimmed(p.underlay_ip.as_str())).as_str()) {
                None => {
                    proof {
                        lemma_error_sticks(peers@, d, nodes0, i + 1);
                    }
                    return Err(PeerMergeError::BadUnderlay(string_of(&name)));
                },
                Some(u) => u,
            };
            underlays.push(u);
            let public_text = present_text(&p.public_ip);
            let public = match public_text {
                Some(t) => match parse_ip_address(string_of(&t).as_str()) {
                    None => {
                        proof {
                            lemma_error_sticks(peers@, d, nodes0, i + 1);
                        }
                        return Err(PeerMergeError::BadPublicIp(string_of(&name)));
                    },
                    Some(a) => a,
                },
                None => IpAddress::V4(0),
            };
            let overlay: Vec<char> = match present_text(&p.overlay_ip) {
                Some(o) => o,
                None => chars_of(default_overlay),
            };
            let set_public = !(public == IpAddress::V4(0) || public == IpAddress::V6(0));
            let set_overlay = trimmed(string_of(&overlay).as_str()).len() > 0;
            match find_gateway(gateway_nodes, &name, u) {
                Some(k) => {
                    let ghost before = gw_views(gateway_nodes@);
                    let e_name = chars_of(gateway_nodes[k].name.as_str());
                    let e_public = gateway_nodes[k].public_ip;
                    let e_under = gateway_nodes[k].underlay_ip;
                    let e_overlay = chars_of(gateway_nodes[k].overlay_ip.as_str());
                    let ch = !crate::text::chars_eq(&e_name, &name) || e_under != u
                        || (set_public && e_public != public)
                        || (set_overlay && !crate::text::chars_eq(&e_overlay, &overlay));
                    let node = GatewayNode {
                        name: string_of(&name),
                        public_ip: if set_public { public } else { e_public },
                        underlay_ip: u,
                        overlay_ip: if set_overlay { string_of(&overlay) } else { string_of(&e_overlay) },
                    };
                    gateway_nodes.set(k, node);
                    assert(gw_views(gateway_nodes@) =~= before.update(k as int, gw_view(node)));
                    changed = changed || ch;
                },
                None => {
                    let ghost before = gw_views(gateway_nodes@);
                    let node = GatewayNode {
                        name: string_of(&name),
                        public_ip: public,
                        underlay_ip: u,
                        overlay_ip: string_of(&overlay),
                    };
                    gateway_nodes.push(node);
                    assert(gw_views(gateway_nodes@) =~= before.push(gw_view(node)));
                    changed = true;
                },
            }
        }
        i = i + 1;
    }
    proof {
        assert(peers@.take(peers@.len() as int) =~= peers@);
    }
    let ghost unders = underlays@;
    let mut kept: Vec<BackendNode> = Vec::new();
    let mut j: usize = 0;
    while j < backend_nodes.len()
        invariant
            0 <= j <= backend_nodes@.len(),
            backend_nodes@ == old(backend_nodes)@,
            underlays@ == unders,
            kept@ == kept_backends(backend_nodes@.take(j as int), unders),
        decreases backend_nodes@.len() - j,
    {
        proof {
            assert(backend_nodes@.take(j + 1).drop_last() =~= backend_nodes@.take(j as int));
            assert(backend_nodes@.take(j + 1).last() == backend_nodes@[j as int]);
        }
        let b = &backend_nodes[j];
        let mut found = false;
        let mut k: usize = 0;
        while k < underlays.len()
            invariant
                0 <= k <= underlays@.len(),
                found == (exists|m: int| 0 <= m < k && underlays@[m] == b.underlay_ip),
            decreases underlays@.len() - k,
        {
            if underlays[k] == b.underlay_ip {
                found = true;
            }
            k = k + 1;
        }
        if !found {
            kept.push(clone_node(b));
        }
        j = j + 1;
    }
    proof {
        assert(backend_nodes@.take(backend_nodes@.len() as int) =~= backend_nodes@);
    }
    let n_before = backend_nodes.len();
    let n_after = kept.len();
    *backend_nodes = kept;
    Ok(changed || n_after != n_before)
}

/// As `merge_gateway_peers`, with an error read as "nothing changed"; the
/// changes made before the error stay.
pub fn merge_gateway_peers_best_effort(
    peers: &Vec<GatewayHaPeer>,
    default_overlay: &str,
    gateway_nodes: &mut Vec<GatewayNode>,
    backend_nodes: &mut Vec<BackendNode>,
) -> (r: bool)
    ensures
        ({
            let st = merge_peers(peers@, default_overlay@, gw_views(old(gateway_nodes)@));
            &&& gw_views(final(gateway_nodes)@) == st.nodes
            &&& match st.error {
                Some(e) => !r && final(backend_nodes)@ == old(backend_nodes)@,
                None => {
                    let kept = kept_backends(old(backend_nodes)@, st.underlays);
                    &&& final(backend_nodes)@ == kept
                    &&& r == (st.changed || kept.len() != old(backend_nodes)@.len())
                },
            }
        }),
{
    match merge_gateway_peers(peers, default_overlay, gateway_nodes, backend_nodes) {
        Ok(changed) => changed,
        Err(_) => false,
    }
}

} // verus!
