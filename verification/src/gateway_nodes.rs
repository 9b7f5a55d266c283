//! The gateway nodes a gateway reports: its configured gateways, with the
//! paired HA peers merged in.

use vstd::prelude::*;
use crate::overlay::GatewayNode;
use crate::ha::GatewayHaPeer;
use crate::route_msg::IpAddress;
use crate::registry::spec_parse_ip;
use crate::probe_schedule::opt_text;
use crate::text::trim;

verus! {

/// Everything a gateway node holds, by value.
pub type NodeView = (Seq<char>, IpAddress, IpAddress, Seq<char>);

pub open spec fn gw_view(n: GatewayNode) -> NodeView {
    (n.name@, n.public_ip, n.underlay_ip, n.overlay_ip@)
}

pub open spec fn gw_views(s: Seq<GatewayNode>) -> Seq<NodeView> {
    s.map_values(|n: GatewayNode| gw_view(n))
}

/// The node an HA peer stands for, when its underlay address parses: its
/// public address (the underlay one when unset or unparsable) and its
/// overlay address (the local gateway's when unset or blank).
pub open spec fn peer_node(p: GatewayHaPeer, local_overlay: Seq<char>) -> Option<NodeView> {
    match spec_parse_ip(trim(p.underlay_ip@)) {
        None => None,
        Some(u) => {
            let public = match opt_text(p.public_ip) {
                Some(v) => match spec_parse_ip(trim(v)) {
                    Some(ip) => ip,
                    None => u,
                },
                None => u,
            };
            let overlay = match opt_text(p.overlay_ip) {
                Some(v) => if trim(v).len() > 0 {
                    trim(v)
                } else {
                    local_overlay
                },
                None => local_overlay,
            };
            Some((p.name@, public, u, overlay))
        },
    }
}

/// The first node with the name or the underlay address.
pub open spec fn first_node_match(nodes: Seq<NodeView>, name: Seq<char>, underlay: IpAddress, from: int) -> Option<int>
    decreases nodes.len() - from,
{
    if from < 0 || from >= nodes.len() {
        None
    } else if nodes[from].0 == name || nodes[from].2 == underlay {
        Some(from)
    } else {
        first_node_match(nodes, name, underlay, from + 1)
    }
}

/// The nodes with each peer merged in turn: in place of the first node of
/// its name or underlay address, or appended.
pub open spec fn with_peers(nodes: Seq<NodeView>, peers: Seq<GatewayHaPeer>, local_overlay: Seq<char>) -> Seq<NodeView>
    decreases peers.len(),
{
    if peers.len() == 0 {
        nodes
    } else {
        let prev = with_peers(nodes, peers.drop_last(), local_overlay);
        match peer_node(peers.last(), local_overlay) {
            None => prev,
            Some(v) => match first_node_match(prev, v.0, v.2, 0) {
                Some(i) => prev.update(i, v),
                None => prev.push(v),
            },
        }
    }
}

fn parse_trimmed_ip(text: &str) -> (r: Option<IpAddress>)
    ensures
        r == spec_parse_ip(trim(text@)),
{
    let t = crate::text::string_of(&crate::text::trimmed(text));
    crate::registry::parse_ip_address(t.as_str())
}

fn peer_gateway(p: &GatewayHaPeer, local_overlay: &str) -> (r: Option<GatewayNode>)
    ensures
        match r {
            Some(n) => peer_node(*p, local_overlay@) == Some(gw_view(n)),
            None => peer_node(*p, local_overlay@) is None,
        },
{
    let u = match parse_trimmed_ip(p.underlay_ip.as_str()) {
        None => return None,
        Some(u) => u,
    };
    let public = match &p.public_ip {
        Some(v) => match parse_trimmed_ip(v.as_str()) {
            Some(ip) => ip,
            None => u,
        },
        None => u,
    };
    let overlay = match &p.overlay_ip {
        Some(v) => {
            let t = crate::text::trimmed(v.as_str());
            if t.len() > 0 {
                crate::text::string_of(&t)
            } else {
                local_overlay.to_string()
            }
        },
        None => local_overlay.to_string(),
    };
    Some(GatewayNode { name: p.name.clone(), public_ip: public, underlay_ip: u, overlay_ip: overlay })
}

fn find_node(nodes: &Vec<GatewayNode>, name: &str, underlay: IpAddress) -> (r: Option<usize>)
    ensures
        r matches Some(i) ==> i < nodes@.len() && first_node_match(gw_views(nodes@), name@, underlay, 0) == Some(i as int),
        r is None ==> first_node_match(gw_views(nodes@), name@, underlay, 0) is None,
{
    let mut i: usize = 0;
    while i < nodes.len()
        invariant
            i <= nodes@.len(),
            first_node_match(gw_views(nodes@), name@, underlay, 0) == first_node_match(gw_views(nodes@), name@, underlay, i as int),
        decreases nodes@.len() - i,
    {
        assert(gw_views(nodes@)[i as int] == gw_view(nodes@[i as int]));
        if crate::registry::same_name(nodes[i].name.as_str(), name) || nodes[i].underlay_ip == underlay {
            return Some(i);
        }
        i = i + 1;
    }
    None
}

/// The gateway nodes a gateway reports: the configured ones, with the
/// paired HA peers merged in when this node is a gateway and its HA
/// configuration could be read (`ha_peers`).
pub fn gateway_nodes_effective(nodes: Vec<GatewayNode>, is_gateway: bool, ha_peers: Option<&Vec<GatewayHaPeer>>, local_overlay_ip: &str) -> (r: Vec<GatewayNode>)
    ensures
        gw_views(r@) == (match ha_peers {
            Some(peers) => if is_gateway {
                with_peers(gw_views(nodes@), peers@, local_overlay_ip@)
            } else {
                gw_views(nodes@)
            },
            None => gw_views(nodes@),
        }),
{
    if !is_gateway {
        return nodes;
    }
    let peers = match ha_peers {
        None => return nodes,
        Some(p) => p,
    };
    let ghost base = gw_views(nodes@);
    let mut out = nodes;
    let mut i: usize = 0;
    while i < peers.len()
        invariant
            i <= peers@.len(),
            gw_views(out@) == with_peers(base, peers@.take(i as int), local_overlay_ip@),
        decreases peers@.len() - i,
    {
        assert(peers@.take(i + 1).drop_last() =~= peers@.take(i as int));
        assert(peers@.take(i + 1).last() == peers@[i as int]);
        match peer_gateway(&peers[i], local_overlay_ip) {
            None => {},
            Some(n) => {
                let ghost before = out@;
                match find_node(&out, n.name.as_str(), n.underlay_ip) {
                    Some(k) => {
                        out.set(k, n);
                        assert(gw_views(out@) =~= gw_views(before).update(k as int, gw_view(n)));
                    },
                    None => {
                        out.push(n);
                        assert(gw_views(out@) =~= gw_views(before).push(gw_view(n)));
                    },
                }
            },
        }
        i = i + 1;
    }
    assert(peers@.take(i as int) =~= peers@);
    out
}

} // verus!
