//! Flow-table rules of the native DNAT datapath: expiry, replica freshness,
//! the direction-independent identity of a connection, and the decoding of
//! datapath flow events.

use vstd::prelude::*;
use crate::datapath::{NativeFlowKey, NativeFlowValue, NativeFlowEvent, NativeDatapathStats, flow_tuple};

verus! {

/// Filter preference offset of the ingress program relative to the marker.
pub const INGRESS_PREF_OFFSET: u16 = 10;
/// Filter preference offset of the return program relative to the marker.
pub const RETURN_PREF_OFFSET: u16 = 11;
/// Datapath event code of a flow deletion.
pub const FLOW_EVENT_DELETE: u8 = 2;

/// A flow-table entry as exchanged with the HA peer.
pub type FlowEntry = (NativeFlowKey, NativeFlowValue);

/// One change of the flow table.
#[derive(Clone, Copy, Debug, PartialEq, Eq)]
pub enum FlowMutation {
    Upsert(FlowEntry),
    Delete(NativeFlowKey),
}

/// The key a mutation concerns.
pub open spec fn mutation_key(m: FlowMutation) -> NativeFlowKey {
    match m {
        FlowMutation::Upsert(e) => e.0,
        FlowMutation::Delete(k) => k,
    }
}

/// A flow is idle-expired once more than its timeout has passed since it was
/// last seen; flows never seen or without a timeout do not expire.
pub open spec fn spec_flow_expired(last_seen_ns: u64, timeout_secs: u32, now_ns: u64) -> bool {
    last_seen_ns != 0 && timeout_secs != 0 && (if now_ns >= last_seen_ns {
        now_ns - last_seen_ns
    } else {
        0
    }) > timeout_secs as int * 1_000_000_000
}

pub fn flow_expired(last_seen_ns: u64, timeout_secs: u32, now_ns: u64) -> (r: bool)
    ensures
        r == spec_flow_expired(last_seen_ns, timeout_secs, now_ns),
{
    if last_seen_ns == 0 || timeout_secs == 0 {
        return false;
    }
    let idle: u64 = now_ns.saturating_sub(last_seen_ns);
    let limit: u64 = timeout_secs as u64 * 1_000_000_000u64;
    idle > limit
}

/// A replicated entry is applied when the key is absent locally or when the
/// replica has seen the flow strictly later than the local copy.
pub open spec fn spec_flow_apply_applies(local: Option<NativeFlowValue>, replica: NativeFlowValue) -> bool {
    match local {
        None => true,
        Some(l) => replica.last_seen_ns > l.last_seen_ns,
    }
}

pub fn flow_apply_applies(local: Option<&NativeFlowValue>, replica: &NativeFlowValue) -> (r: bool)
    ensures
        r == spec_flow_apply_applies(
            match local {
                Some(l) => Some(*l),
                None => None,
            },
            *replica,
        ),
{
    match local {
        None => true,
        Some(l) => replica.last_seen_ns > l.last_seen_ns,
    }
}

/// Lexicographic order of five-tuples.
pub open spec fn tuple_le(a: (u32, u32, u16, u16, u8), b: (u32, u32, u16, u16, u8)) -> bool {
    a.0 < b.0 || (a.0 == b.0 && (a.1 < b.1 || (a.1 == b.1 && (a.2 < b.2 || (a.2 == b.2 && (a.3
        < b.3 || (a.3 == b.3 && a.4 <= b.4)))))))
}

/// Strict lexicographic order of five-tuples.
pub open spec fn tuple_lt(a: (u32, u32, u16, u16, u8), b: (u32, u32, u16, u16, u8)) -> bool {
    tuple_le(a, b) && a != b
}

/// Sort tuple of a flow key.
pub fn flow_key_sort_tuple(key: &NativeFlowKey) -> (t: (u32, u32, u16, u16, u8))
    ensures
        t == flow_tuple(*key),
{
    (key.src, key.dst, key.sport, key.dport, key.proto)
}

/// Executable lexicographic comparison of flow keys.
pub fn flow_key_le(a: &NativeFlowKey, b: &NativeFlowKey) -> (r: bool)
    ensures
        r == tuple_le(flow_tuple(*a), flow_tuple(*b)),
{
    a.src < b.src || (a.src == b.src && (a.dst < b.dst || (a.dst == b.dst && (a.sport < b.sport
        || (a.sport == b.sport && (a.dport < b.dport || (a.dport == b.dport && a.proto
        <= b.proto)))))))
}

/// Executable strict comparison of flow keys.
pub fn flow_key_lt(a: &NativeFlowKey, b: &NativeFlowKey) -> (r: bool)
    ensures
        r == tuple_lt(flow_tuple(*a), flow_tuple(*b)),
{
    let le = flow_key_le(a, b);
    let eq = crate::datapath::flow_key_eq(a, b);
    le && !eq
}

/// Byte-swap of a 16-bit value (host to network order on little-endian hosts).
pub open spec fn swap16(v: u16) -> u16 {
    (((v & 0xff) << 8u16) | (v >> 8u16)) as u16
}

pub fn to_be16(v: u16) -> (r: u16)
    ensures
        r == swap16(v),
{
    ((v & 0xff) << 8u16) | (v >> 8u16)
}

/// The key of the forward direction of a flow, given a key of either direction.
pub open spec fn spec_forward_key(key: NativeFlowKey, value: NativeFlowValue) -> (u32, u32, u16, u16, u8) {
    let ep = swap16(value.endpoint_port);
    if key.src == value.endpoint && key.sport == ep {
        (key.dst, value.vip, key.dport, value.vip_port, key.proto)
    } else {
        flow_tuple(key)
    }
}

/// The key of the reverse (backend to client) direction of a flow.
pub open spec fn spec_reverse_key(key: NativeFlowKey, value: NativeFlowValue) -> (u32, u32, u16, u16, u8) {
    let ep = swap16(value.endpoint_port);
    if key.src == value.endpoint && key.sport == ep {
        flow_tuple(key)
    } else {
        (value.endpoint, key.src, ep, key.sport, key.proto)
    }
}

/// The unordered pair of directions of a connection, smaller key first.
pub open spec fn spec_canonical_pair(key: NativeFlowKey, value: NativeFlowValue) -> ((u32, u32, u16, u16, u8), (u32, u32, u16, u16, u8)) {
    let f = spec_forward_key(key, value);
    let r = spec_reverse_key(key, value);
    if tuple_le(f, r) {
        (f, r)
    } else {
        (r, f)
    }
}

/// Canonical identity of the connection that a flow entry belongs to: both
/// directions of one connection yield the same pair.
pub fn canonical_flow_pair(key: NativeFlowKey, value: NativeFlowValue) -> (r: (NativeFlowKey, NativeFlowKey))
    ensures
        (flow_tuple(r.0), flow_tuple(r.1)) == spec_canonical_pair(key, value),
        r.0._pad@ == seq![0u8, 0u8, 0u8],
        r.1._pad@ == seq![0u8, 0u8, 0u8],
{
    let endpoint_port = to_be16(value.endpoint_port);
    let (forward, reverse) = if key.src == value.endpoint && key.sport == endpoint_port {
        let forward = crate::datapath::flow_key(key.dst, value.vip, key.dport, value.vip_port, key.proto);
        let reverse = crate::datapath::flow_key(key.src, key.dst, key.sport, key.dport, key.proto);
        (forward, reverse)
    } else {
        let forward = crate::datapath::flow_key(key.src, key.dst, key.sport, key.dport, key.proto);
        let reverse = crate::datapath::flow_key(value.endpoint, key.src, endpoint_port, key.sport, key.proto);
        (forward, reverse)
    };
    if flow_key_le(&forward, &reverse) {
        (forward, reverse)
    } else {
        (reverse, forward)
    }
}

/// The client-to-VIP key of a flow whose value describes the translation.
pub open spec fn forward_of(src: u32, sport: u16, value: NativeFlowValue, proto: u8) -> NativeFlowKey {
    NativeFlowKey { src, dst: value.vip, sport, dport: value.vip_port, proto, _pad: [0u8, 0u8, 0u8] }
}

/// The backend-to-client key of the same connection.
pub open spec fn reverse_of(src: u32, sport: u16, value: NativeFlowValue, proto: u8) -> NativeFlowKey {
    NativeFlowKey { src: value.endpoint, dst: src, sport: swap16(value.endpoint_port), dport: sport, proto, _pad: [0u8, 0u8, 0u8] }
}

/// Law: the canonical pair is the same whether the forward (client to VIP)
/// key or the reverse (backend to client) key of a connection is observed,
/// provided the client is not itself the backend endpoint and port.
pub proof fn canonical_pair_is_direction_independent(src: u32, sport: u16, value: NativeFlowValue, proto: u8)
    requires
        !(src == value.endpoint && sport == swap16(value.endpoint_port)),
    ensures
        spec_canonical_pair(forward_of(src, sport, value, proto), value) == spec_canonical_pair(
            reverse_of(src, sport, value, proto),
            value,
        ),
{
}

/// Decode one datapath flow event: operation code 2 deletes the key, every
/// other code upserts the entry.
pub open spec fn spec_event_mutation(e: NativeFlowEvent) -> FlowMutation {
    if e.op == FLOW_EVENT_DELETE {
        FlowMutation::Delete(e.key)
    } else {
        FlowMutation::Upsert((e.key, e.value))
    }
}

/// Turn the drained datapath events into flow mutations, in order.
pub fn mutations_from_events(events: &Vec<NativeFlowEvent>) -> (r: Vec<FlowMutation>)
    ensures
        r@.len() == events@.len(),
        forall|i: int| 0 <= i < r@.len() ==> r@[i] == spec_event_mutation(#[trigger] events@[i]),
{
    let mut out: Vec<FlowMutation> = Vec::new();
    let mut i: usize = 0;
    while i < events.len()
        invariant
            0 <= i <= events@.len(),
            out@.len() == i,
            forall|j: int| 0 <= j < i ==> out@[j] == spec_event_mutation(#[trigger] events@[j]),
        decreases events@.len() - i,
    {
        let e = events[i];
        if e.op == FLOW_EVENT_DELETE {
            out.push(FlowMutation::Delete(e.key));
        } else {
            out.push(FlowMutation::Upsert((e.key, e.value)));
        }
        i = i + 1;
    }
    out
}

/// Saturating sum of a counter over per-CPU values.
pub open spec fn sat_sum(vals: Seq<NativeDatapathStats>, f: spec_fn(NativeDatapathStats) -> u64, n: int) -> u64
    decreases n,
{
    if n <= 0 {
        0
    } else {
        let s = sat_sum(vals, f, n - 1) as int + f(vals[n - 1]) as int;
        if s > u64::MAX {
            u64::MAX
        } else {
            s as u64
        }
    }
}

/// Fold per-CPU datapath counters into one record, saturating each counter.
pub fn total_stats(values: &Vec<NativeDatapathStats>) -> (t: NativeDatapathStats)
    ensures
        t.service_hit == sat_sum(values@, |s: NativeDatapathStats| s.service_hit, values@.len() as int),
        t.service_miss == sat_sum(values@, |s: NativeDatapathStats| s.service_miss, values@.len() as int),
        t.return_miss == sat_sum(values@, |s: NativeDatapathStats| s.return_miss, values@.len() as int),
        t.target_miss == sat_sum(values@, |s: NativeDatapathStats| s.target_miss, values@.len() as int),
        t.rewritten == sat_sum(values@, |s: NativeDatapathStats| s.rewritten, values@.len() as int),
        t.checksum_error == sat_sum(values@, |s: NativeDatapathStats| s.checksum_error, values@.len() as int),
{
    let mut total = NativeDatapathStats {
        service_hit: 0,
        service_miss: 0,
        return_miss: 0,
        target_miss: 0,
        rewritten: 0,
        checksum_error: 0,
    };
    let mut i: usize = 0;
    while i < values.len()
        invariant
            0 <= i <= values@.len(),
            total.service_hit == sat_sum(values@, |s: NativeDatapathStats| s.service_hit, i as int),
            total.service_miss == sat_sum(values@, |s: NativeDatapathStats| s.service_miss, i as int),
            total.return_miss == sat_sum(values@, |s: NativeDatapathStats| s.return_miss, i as int),
            total.target_miss == sat_sum(values@, |s: NativeDatapathStats| s.target_miss, i as int),
            total.rewritten == sat_sum(values@, |s: NativeDatapathStats| s.rewritten, i as int),
            total.checksum_error == sat_sum(values@, |s: NativeDatapathStats| s.checksum_error, i as int),
        decreases values@.len() - i,
    {
        let v = values[i];
        total.service_hit = total.service_hit.saturating_add(v.service_hit);
        total.service_miss = total.service_miss.saturating_add(v.service_miss);
        total.return_miss = total.return_miss.saturating_add(v.return_miss);
        total.target_miss = total.target_miss.saturating_add(v.target_miss);
        total.rewritten = total.rewritten.saturating_add(v.rewritten);
        total.checksum_error = total.checksum_error.saturating_add(v.checksum_error);
        i = i + 1;
    }
    total
}

} // verus!
