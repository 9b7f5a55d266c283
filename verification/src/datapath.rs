//! Records shared with the native DNAT datapath and its constants.

use vstd::prelude::*;

verus! {

/// Maximum number of destination ports the DSCP marker can match.
pub const MAX_PORTS: usize = 16;
/// Default DSCP value. 46 is Expedited Forwarding (tos 0xb8).
pub const DEFAULT_DSCP: u32 = 46;
/// Default marked port: the VIP port exposed on the gateway.
pub const DEFAULT_PORT: u32 = 48080;
/// Default source-IP persistence lifetime for `persist` selection (three hours).
pub const DEFAULT_PERSIST_TIMEOUT_SECS: u32 = 10800;
pub const NATIVE_SELECT_RR: u32 = 0;
pub const NATIVE_SELECT_HASH: u32 = 1;
pub const NATIVE_SELECT_PRIORITY: u32 = 2;
pub const NATIVE_SELECT_PERSIST: u32 = 3;
pub const NATIVE_SELECT_LC: u32 = 4;
/// Hard cap on endpoints per native service.
pub const MAX_ENDPOINTS_PER_SERVICE: u32 = 64;

/// Name of the TC classifier program inside the eBPF object.
pub fn program_name() -> (s: &'static str)
    ensures
        s@ == "dscp_mark"@,
{
    proof {
        reveal_strlit("dscp_mark");
    }
    "dscp_mark"
}

/// Name of the ingress (forward rewrite) program of the native datapath.
pub fn native_dnat_ingress_program() -> (s: &'static str)
    ensures
        s@ == "native_dnat_ingress"@,
{
    proof {
        reveal_strlit("native_dnat_ingress");
    }
    "native_dnat_ingress"
}

/// Name of the return (source restore) program of the native datapath.
pub fn native_dnat_return_program() -> (s: &'static str)
    ensures
        s@ == "native_dnat_return"@,
{
    proof {
        reveal_strlit("native_dnat_return");
    }
    "native_dnat_return"
}

#[derive(Clone, Copy, Debug, Default, PartialEq, Eq)]
pub struct Stats {
    pub matched: u64,
    pub changed: u64,
}

/// IPv4 listener lookup key for the native DNAT datapath.
#[derive(Clone, Copy, Debug, Default, PartialEq, Eq)]
pub struct NativeServiceKey {
    /// IPv4 VIP in network byte order.
    pub vip: u32,
    /// TCP/UDP destination port in network byte order.
    pub port: u16,
    /// IP protocol number: TCP=6, UDP=17.
    pub proto: u8,
    pub _pad: u8,
}

#[derive(Clone, Copy, Debug, Default, PartialEq, Eq)]
pub struct NativeServiceValue {
    pub service_id: u32,
    pub endpoint_base: u32,
    pub endpoint_count: u32,
    pub weight_total: u32,
    pub select: u32,
    pub flags: u32,
    pub timeout_secs: u32,
    pub dscp: u32,
}

#[derive(Clone, Copy, Debug, Default, PartialEq, Eq)]
pub struct NativeEndpointKey {
    pub service_id: u32,
    pub endpoint_id: u32,
}

#[derive(Clone, Copy, Debug, Default, PartialEq, Eq)]
pub struct NativeEndpointValue {
    /// IPv4 backend address in network byte order.
    pub address: u32,
    /// TCP/UDP backend target port in host byte order.
    pub port: u16,
    pub weight: u16,
    pub flags: u32,
}

/// Per-service/backend key used by the least-connections scheduler.
#[derive(Clone, Copy, Debug, Default, PartialEq, Eq, Hash)]
pub struct NativeEndpointLoadKey {
    pub service_id: u32,
    pub endpoint_id: u32,
}

/// Five-tuple key of a tracked flow.
#[derive(Clone, Copy, Debug, Default, PartialEq, Eq, Hash)]
pub struct NativeFlowKey {
    pub src: u32,
    pub dst: u32,
    pub sport: u16,
    pub dport: u16,
    pub proto: u8,
    pub _pad: [u8; 3],
}

/// Translation state of a tracked flow.
#[derive(Clone, Copy, Debug, Default, PartialEq, Eq)]
pub struct NativeFlowValue {
    pub service_id: u32,
    pub endpoint_id: u32,
    pub vip: u32,
    pub endpoint: u32,
    pub vip_port: u16,
    pub endpoint_port: u16,
    /// Idle timeout copied from the listener when the flow is created.
    pub timeout_secs: u32,
    pub last_seen_ns: u64,
}

/// A flow-map mutation emitted by the native datapath.
#[derive(Clone, Copy, Debug, Default, PartialEq, Eq)]
pub struct NativeFlowEvent {
    pub key: NativeFlowKey,
    pub value: NativeFlowValue,
    pub op: u8,
    pub _pad: [u8; 7],
}

#[derive(Clone, Copy, Debug, Default, PartialEq, Eq)]
pub struct NativeDatapathStats {
    pub service_hit: u64,
    pub service_miss: u64,
    pub return_miss: u64,
    pub target_miss: u64,
    pub rewritten: u64,
    pub checksum_error: u64,
}

/// Two flow keys are the same five-tuple (padding is not part of the identity).
pub open spec fn same_flow_key(a: NativeFlowKey, b: NativeFlowKey) -> bool {
    &&& a.src == b.src
    &&& a.dst == b.dst
    &&& a.sport == b.sport
    &&& a.dport == b.dport
    &&& a.proto == b.proto
}

/// A flow key as the five-tuple it stands for.
pub open spec fn flow_tuple(k: NativeFlowKey) -> (u32, u32, u16, u16, u8) {
    (k.src, k.dst, k.sport, k.dport, k.proto)
}

/// Executable five-tuple comparison.
pub fn flow_key_eq(a: &NativeFlowKey, b: &NativeFlowKey) -> (r: bool)
    ensures
        r == (flow_tuple(*a) == flow_tuple(*b)),
{
    a.src == b.src && a.dst == b.dst && a.sport == b.sport && a.dport == b.dport && a.proto
        == b.proto
}

/// A key with its padding cleared.
pub fn flow_key(src: u32, dst: u32, sport: u16, dport: u16, proto: u8) -> (k: NativeFlowKey)
    ensures
        flow_tuple(k) == (src, dst, sport, dport, proto),
        k._pad@ == seq![0u8, 0u8, 0u8],
{
    NativeFlowKey { src, dst, sport, dport, proto, _pad: [0u8; 3] }
}

} // verus!
