//! Wire messages of the gateway-to-gateway flow replication stream.

use vstd::prelude::*;

verus! {

/// Five-tuple of a replicated flow; ports and protocol travel as 32-bit fields.
#[derive(Clone, Copy, Debug, Default, PartialEq, Eq)]
pub struct FlowKey {
    pub src: u32,
    pub dst: u32,
    pub sport: u32,
    pub dport: u32,
    pub proto: u32,
}

/// Translation state of a replicated flow. The last-seen time travels as an
/// age, because monotonic clocks are not comparable between hosts.
#[derive(Clone, Copy, Debug, Default, PartialEq, Eq)]
pub struct FlowValue {
    pub listener_id: u32,
    pub target_id: u32,
    pub vip: u32,
    pub target: u32,
    pub vip_port: u32,
    pub target_port: u32,
    pub timeout_secs: u32,
    pub last_seen_age_ns: u64,
}

#[derive(Clone, Copy, Debug, Default, PartialEq, Eq)]
pub struct FlowEntry {
    pub key: Option<FlowKey>,
    pub value: Option<FlowValue>,
}

#[derive(Clone, Debug, Default, PartialEq, Eq)]
pub struct FlowSyncRequest {
    pub source: String,
    pub token: String,
    pub entries: Vec<FlowEntry>,
    pub deletes: Vec<FlowKey>,
}

#[derive(Clone, Copy, Debug, Default, PartialEq, Eq)]
pub struct FlowSyncResponse {
    pub applied: u64,
}

/// A conflict observed on a backend host, as the wire carries it.
#[derive(Clone, Debug, Default, PartialEq, Eq)]
pub struct NodeConflict {
    pub severity: String,
    pub kind: String,
    pub subject: String,
    pub detail: String,
}

/// What a backend sends on its configuration stream: its identity, the
/// acknowledgement of the last snapshot, and what it observed applying it.
#[derive(Clone, Debug, Default, PartialEq, Eq)]
pub struct DiscoveryRequest {
    pub node_name: String,
    pub node_role: String,
    pub underlay_ip: String,
    pub version: String,
    pub response_nonce: String,
    pub ack: bool,
    pub error_detail: String,
    pub public_ip: String,
    pub public_ip_mode: String,
    pub public_ip_source: String,
    pub underlay_ip_mode: String,
    pub underlay_ip_source: String,
    pub conflicts: Vec<NodeConflict>,
}

/// The network a gateway publishes to its backends.
#[derive(Clone, Debug, Default, PartialEq, Eq)]
pub struct Network {
    pub gateway_ip: String,
    pub overlay_cidr: String,
    pub gateway_vxlan_dev: String,
    pub vni: u32,
    pub vxlan_port: u32,
    pub vxlan_mtu: u32,
    pub dscp: u32,
}

/// A gateway as a snapshot lists it.
#[derive(Clone, Debug, Default, PartialEq, Eq)]
pub struct GatewayNode {
    pub name: String,
    pub underlay_ip: String,
    pub overlay_ip: String,
}

/// The return path a backend installs towards one gateway.
#[derive(Clone, Debug, Default, PartialEq, Eq)]
pub struct GatewayReturnPath {
    pub gateway: String,
    pub gateway_underlay_ip: String,
    pub gateway_overlay_ip: String,
    pub backend_overlay_ip: String,
    pub dscp: u32,
    pub mark: u32,
    pub route_table_id: u32,
}

/// What a gateway tells a backend to install.
#[derive(Clone, Debug, Default, PartialEq, Eq)]
pub struct ConfigSnapshot {
    pub network: Option<Network>,
    pub gateway_nodes: Vec<GatewayNode>,
    pub gateway_return_paths: Vec<GatewayReturnPath>,
}

/// A snapshot with its version and the nonce of this sending.
#[derive(Clone, Debug, Default, PartialEq, Eq)]
pub struct DiscoveryResponse {
    pub version: String,
    pub nonce: String,
    pub snapshot: Option<ConfigSnapshot>,
}

/// A gateway's identity as the pairing call carries it.
#[derive(Clone, Debug, Default, PartialEq, Eq)]
pub struct GatewayPeerInfo {
    pub node_name: String,
    pub underlay_ip: String,
    pub public_ip: String,
    pub api_addr: String,
    pub xds_addr: String,
    pub overlay_cidr: String,
    pub gateway_overlay_ip: String,
    pub dscp: u32,
    pub vni: u32,
    pub vxlan_port: u32,
    pub mtu: u32,
    pub version: String,
    pub capabilities: Vec<String>,
}

/// The answer to a pairing call: the responder's identity and warnings.
#[derive(Clone, Debug, Default, PartialEq, Eq)]
pub struct PairGatewayResponse {
    pub responder: Option<GatewayPeerInfo>,
    pub warnings: Vec<String>,
}

} // verus!
