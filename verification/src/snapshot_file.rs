//! A backend's file configuration rebuilt from a gateway's snapshot: the
//! gateway's network settings, its gateway inventory, the return paths, and
//! the local backend's overlay address.

use vstd::prelude::*;
use crate::file_config::{ActiveSource, FileConfig, HaSettings, NetworkConfig};
use crate::overlay::GatewayNode;
use crate::pb;
use crate::registry::{parse_ip_address, spec_parse_ip, BackendNode};
use crate::route_msg::IpAddress;
use crate::snapshot::{gateway_return_path_from_proto, ReturnPathConfig, ReturnPathError};
use crate::text::trim;

verus! {

/// Why a snapshot cannot become a backend configuration.
#[derive(Clone, Copy, Debug, PartialEq, Eq, Structural)]
pub enum SnapshotFileError {
    MissingNetwork,
    BadGatewayIp,
    /// The index of the first gateway whose underlay address does not parse.
    BadGatewayUnderlay(usize),
    /// The index of the first return path that cannot be configured, and why.
    BadReturnPath(usize, ReturnPathError),
}

/// The configuration a snapshot yields: the file settings, the return paths
/// and the local backend as the only backend node. The file holds no
/// listeners or target groups.
#[derive(Clone, Debug)]
pub struct SnapshotFile {
    pub file: FileConfig,
    pub backend_return_paths: Vec<ReturnPathConfig>,
    pub backend_nodes: Vec<BackendNode>,
}

/// The network settings of a snapshot, over the local ones: the gateway
/// address is both the public and the underlay gateway address, there is no
/// standby, the backend addresses, underlay and VXLAN devices stay local, a
/// blank overlay network keeps the local one, and the MTU is fixed.
pub open spec fn snapshot_network(local: NetworkConfig, n: pb::Network, gateway_ip: IpAddress) -> NetworkConfig {
    NetworkConfig {
        gateway_public_ip: gateway_ip,
        gateway_ip,
        standby_gateway_ip: None,
        backend_public_ip: local.backend_public_ip,
        backend_ip: local.backend_ip,
        overlay_cidr: if trim(n.overlay_cidr@).len() == 0 {
            local.overlay_cidr
        } else {
            n.overlay_cidr
        },
        underlay_dev: local.underlay_dev,
        vxlan_dev: local.vxlan_dev,
        vni: n.vni,
        vxlan_port: n.vxlan_port as u16,
        vxlan_mtu: n.vxlan_mtu,
        vxlan_mtu_auto: false,
        dscp: n.dscp,
    }
}

pub open spec fn gateway_ok(g: pb::GatewayNode) -> bool {
    spec_parse_ip(g.underlay_ip@) is Some
}

/// A configured gateway as a snapshot's gateway gives it: its underlay
/// address is also its public address.
pub open spec fn gateway_from_proto(n: GatewayNode, g: pb::GatewayNode) -> bool {
    &&& spec_parse_ip(g.underlay_ip@) matches Some(ip)
    &&& n.name@ == g.name@
    &&& n.public_ip == ip
    &&& n.underlay_ip == ip
    &&& n.overlay_ip@ == g.overlay_ip@
}

/// Why a snapshot's return path cannot be configured, if it cannot.
pub open spec fn path_error(p: pb::GatewayReturnPath) -> Option<ReturnPathError> {
    if spec_parse_ip(p.gateway_underlay_ip@) is None {
        Some(ReturnPathError::BadGatewayUnderlay)
    } else if spec_parse_ip(p.gateway_overlay_ip@) is None {
        Some(ReturnPathError::BadGatewayOverlay)
    } else {
        None
    }
}

/// A configured return path as a snapshot's path gives it.
pub open spec fn path_from_proto(c: ReturnPathConfig, p: pb::GatewayReturnPath, local_overlay: Seq<char>) -> bool {
    &&& spec_parse_ip(p.gateway_underlay_ip@) matches Some(u)
    &&& spec_parse_ip(p.gateway_overlay_ip@) matches Some(o)
    &&& c.gateway_underlay_ip == u
    &&& c.gateway_overlay_ip == o
    &&& (if p.gateway@.len() == 0 {
        c.gateway is None
    } else {
        c.gateway matches Some(g) && g@ == p.gateway@
    })
    &&& (c.backend_overlay_ip matches Some(b) && b@ == (if p.backend_overlay_ip@.len() == 0 {
        local_overlay
    } else {
        p.backend_overlay_ip@
    }))
    &&& c.dscp == p.dscp && c.mark == p.mark && c.route_table_id == p.route_table_id
}

/// The local backend's overlay address after a snapshot: the first return
/// path's backend overlay address, else the local one.
pub open spec fn snapshot_local_overlay(local_overlay: Seq<char>, paths: Seq<pb::GatewayReturnPath>) -> Seq<char> {
    if paths.len() == 0 || paths[0].backend_overlay_ip@.len() == 0 {
        local_overlay
    } else {
        paths[0].backend_overlay_ip@
    }
}

pub open spec fn all_gateways_ok(gs: Seq<pb::GatewayNode>) -> bool {
    forall|j: int| 0 <= j < gs.len() ==> gateway_ok(#[trigger] gs[j])
}

pub open spec fn all_paths_ok(ps: Seq<pb::GatewayReturnPath>) -> bool {
    forall|j: int| 0 <= j < ps.len() ==> path_error(#[trigger] ps[j]) is None
}

fn gateways_from_proto(gs: &Vec<pb::GatewayNode>) -> (r: Result<Vec<GatewayNode>, usize>)
    ensures
        r matches Ok(v) ==> all_gateways_ok(gs@) && v@.len() == gs@.len()
            && forall|j: int| 0 <= j < gs@.len() ==> gateway_from_proto(#[trigger] v@[j], gs@[j]),
        r matches Err(i) ==> i < gs@.len() && !gateway_ok(gs@[i as int]) && all_gateways_ok(gs@.take(i as int)),
{
    let mut nodes: Vec<GatewayNode> = Vec::new();
    let mut i: usize = 0;
    while i < gs.len()
        invariant
            i <= gs@.len(),
            nodes@.len() == i,
            forall|j: int| 0 <= j < i ==> gateway_ok(#[trigger] gs@[j]),
            forall|j: int| 0 <= j < i ==> gateway_from_proto(#[trigger] nodes@[j], gs@[j]),
        decreases gs@.len() - i,
    {
        let g = &gs[i];
        match parse_ip_address(g.underlay_ip.as_str()) {
            Some(ip) => {
                nodes.push(GatewayNode { name: g.name.clone(), public_ip: ip, underlay_ip: ip, overlay_ip: g.overlay_ip.clone() });
            },
            None => {
                assert forall|j: int| 0 <= j < i implies gateway_ok(#[trigger] gs@.take(i as int)[j]) by {
                    assert(gs@.take(i as int)[j] == gs@[j]);
                }
                return Err(i);
            },
        }
        i = i + 1;
    }
    Ok(nodes)
}

#[verifier::rlimit(40)]
fn paths_from_proto(ps: &Vec<pb::GatewayReturnPath>, local_overlay: &String) -> (r: Result<Vec<ReturnPathConfig>, (usize, ReturnPathError)>)
    ensures
        r matches Ok(v) ==> all_paths_ok(ps@) && v@.len() == ps@.len()
            && forall|j: int| 0 <= j < ps@.len() ==> path_from_proto(#[trigger] v@[j], ps@[j], local_overlay@),
        r matches Err((k, e)) ==> k < ps@.len() && path_error(ps@[k as int]) == Some(e) && all_paths_ok(ps@.take(k as int)),
{
    let mut paths: Vec<ReturnPathConfig> = Vec::new();
    let mut k: usize = 0;
    while k < ps.len()
        invariant
            k <= ps@.len(),
            paths@.len() == k,
            forall|j: int| 0 <= j < k ==> path_error(#[trigger] ps@[j]) is None,
            forall|j: int| 0 <= j < k ==> path_from_proto(#[trigger] paths@[j], ps@[j], local_overlay@),
        decreases ps@.len() - k,
    {
        let p = &ps[k];
        let lo = local_overlay.clone();
        assert(lo@ == local_overlay@);
        match gateway_return_path_from_proto(p, lo) {
            Ok(c) => {
                assert(path_error(ps@[k as int]) is None);
                assert(path_from_proto(c, ps@[k as int], local_overlay@));
                paths.push(c);
            },
            Err(e) => {
                assert forall|j: int| 0 <= j < k implies path_error(#[trigger] ps@.take(k as int)[j]) is None by {
                    assert(ps@.take(k as int)[j] == ps@[j]);
                }
                return Err((k, e));
            },
        }
        k = k + 1;
    }
    Ok(paths)
}

/// The backend configuration of a gateway's snapshot, built over the local
/// settings `base` and the local backend node `local`. Fails on a snapshot
/// without network settings, on a gateway address or gateway underlay
/// address that does not parse, and on a return path that cannot be
/// configured, each at the first offending item.
pub fn file_from_snapshot(base: FileConfig, local: BackendNode, snapshot: &pb::ConfigSnapshot) -> (r: Result<SnapshotFile, SnapshotFileError>)
    ensures
        snapshot.network is None ==> r == Err::<SnapshotFile, SnapshotFileError>(SnapshotFileError::MissingNetwork),
        snapshot.network matches Some(n) && spec_parse_ip(n.gateway_ip@) is None
            ==> r == Err::<SnapshotFile, SnapshotFileError>(SnapshotFileError::BadGatewayIp),
        r matches Err(SnapshotFileError::BadGatewayUnderlay(i)) ==> {
            &&& snapshot.network matches Some(n) && spec_parse_ip(n.gateway_ip@) is Some
            &&& i < snapshot.gateway_nodes@.len()
            &&& !gateway_ok(snapshot.gateway_nodes@[i as int])
            &&& all_gateways_ok(snapshot.gateway_nodes@.take(i as int))
        },
        snapshot.network matches Some(n) && spec_parse_ip(n.gateway_ip@) is Some && !all_gateways_ok(snapshot.gateway_nodes@)
            ==> r matches Err(SnapshotFileError::BadGatewayUnderlay(_)),
        r matches Err(SnapshotFileError::BadReturnPath(i, e)) ==> {
            &&& snapshot.network matches Some(n) && spec_parse_ip(n.gateway_ip@) is Some
            &&& all_gateways_ok(snapshot.gateway_nodes@)
            &&& i < snapshot.gateway_return_paths@.len()
            &&& path_error(snapshot.gateway_return_paths@[i as int]) == Some(e)
            &&& all_paths_ok(snapshot.gateway_return_paths@.take(i as int))
        },
        snapshot.network matches Some(n) && spec_parse_ip(n.gateway_ip@) is Some && all_gateways_ok(snapshot.gateway_nodes@)
            && !all_paths_ok(snapshot.gateway_return_paths@) ==> r matches Err(SnapshotFileError::BadReturnPath(_, _)),
        r is Ok <==> {
            &&& snapshot.network matches Some(n) && spec_parse_ip(n.gateway_ip@) is Some
            &&& all_gateways_ok(snapshot.gateway_nodes@)
            &&& all_paths_ok(snapshot.gateway_return_paths@)
        },
        r matches Ok(f) ==> snapshot.network matches Some(n) && spec_parse_ip(n.gateway_ip@) matches Some(gw) && {
            &&& f.file == (FileConfig {
                network: snapshot_network(base.network, n, gw),
                ha: HaSettings { active_source: ActiveSource::Xds, ..base.ha },
                gateway_nodes: f.file.gateway_nodes,
                ..base
            })
            &&& f.file.gateway_nodes@.len() == snapshot.gateway_nodes@.len()
            &&& forall|j: int| 0 <= j < snapshot.gateway_nodes@.len()
                ==> gateway_from_proto(#[trigger] f.file.gateway_nodes@[j], snapshot.gateway_nodes@[j])
            &&& f.backend_return_paths@.len() == snapshot.gateway_return_paths@.len()
            &&& forall|j: int| 0 <= j < snapshot.gateway_return_paths@.len()
                ==> path_from_proto(#[trigger] f.backend_return_paths@[j], snapshot.gateway_return_paths@[j], local.overlay_ip@)
            &&& f.backend_nodes@.len() == 1
            &&& f.backend_nodes@[0].name == local.name
            &&& f.backend_nodes@[0].public_ip == local.public_ip
            &&& f.backend_nodes@[0].underlay_ip == local.underlay_ip
            &&& f.backend_nodes@[0].overlay_ip@ == snapshot_local_overlay(local.overlay_ip@, snapshot.gateway_return_paths@)
        },
{
    let n = match &snapshot.network {
        Some(n) => n,
        None => {
            return Err(SnapshotFileError::MissingNetwork);
        },
    };
    let gateway_ip = match parse_ip_address(n.gateway_ip.as_str()) {
        Some(ip) => ip,
        None => {
            return Err(SnapshotFileError::BadGatewayIp);
        },
    };
    let nodes = match gateways_from_proto(&snapshot.gateway_nodes) {
        Ok(v) => v,
        Err(i) => {
            return Err(SnapshotFileError::BadGatewayUnderlay(i));
        },
    };
    let paths = match paths_from_proto(&snapshot.gateway_return_paths, &local.overlay_ip) {
        Ok(v) => v,
        Err((k, e)) => {
            return Err(SnapshotFileError::BadReturnPath(k, e));
        },
    };
    let overlay = if paths.len() > 0 {
        match &paths[0].backend_overlay_ip {
            Some(b) => b.clone(),
            None => local.overlay_ip.clone(),
        }
    } else {
        local.overlay_ip.clone()
    };
    let BackendNode { name, public_ip, underlay_ip, overlay_ip: _ } = local;
    let backend_nodes = vec![BackendNode { name, public_ip, underlay_ip, overlay_ip: overlay }];
    let FileConfig { node_role, control_plane, ha, network: old, api, gateway, backend, gateway_nodes: _ } = base;
    let NetworkConfig {
        gateway_public_ip: _,
        gateway_ip: _,
        standby_gateway_ip: _,
        backend_public_ip,
        backend_ip,
        overlay_cidr,
        underlay_dev,
        vxlan_dev,
        vni: _,
        vxlan_port: _,
        vxlan_mtu: _,
        vxlan_mtu_auto: _,
        dscp: _,
    } = old;
    let blank = crate::text::trimmed(n.overlay_cidr.as_str()).len() == 0;
    let network = NetworkConfig {
        gateway_public_ip: gateway_ip,
        gateway_ip,
        standby_gateway_ip: None,
        backend_public_ip,
        backend_ip,
        overlay_cidr: if blank {
            overlay_cidr
        } else {
            n.overlay_cidr.clone()
        },
        underlay_dev,
        vxlan_dev,
        vni: n.vni,
        vxlan_port: n.vxlan_port as u16,
        vxlan_mtu: n.vxlan_mtu,
        vxlan_mtu_auto: false,
        dscp: n.dscp,
    };
    let file = FileConfig {
        node_role,
        control_plane,
        ha: HaSettings { active_source: ActiveSource::Xds, watch_interval_secs: ha.watch_interval_secs },
        network,
        api,
        gateway,
        backend,
        gateway_nodes: nodes,
    };
    Ok(SnapshotFile { file, backend_return_paths: paths, backend_nodes })
}

} // verus!
