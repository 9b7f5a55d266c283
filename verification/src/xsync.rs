//! Connection-state replication between the two gateways of an HA pair:
//! wire conversion, batch folding and limits, acknowledgement accounting and
//! the worker's status record.

use vstd::prelude::*;
use crate::datapath::{NativeFlowKey, NativeFlowValue, flow_tuple};
use crate::flow::{FlowEntry, FlowMutation, mutation_key, tuple_lt, tuple_le, flow_key_lt};
use crate::pb;

verus! {

/// Poll period of the datapath event stream, in milliseconds.
pub const EVENT_POLL_INTERVAL_MS: u64 = 25;
/// Period of the full flow-table reconcile, in milliseconds.
pub const RECONCILE_INTERVAL_MS: u64 = 2000;
/// Upper bound on the operations of one replication request.
pub const MAX_SYNC_OPS_PER_BATCH: usize = 4096;

/// Why a received flow record was refused.
#[derive(Clone, Copy, Debug, PartialEq, Eq)]
pub enum FlowSyncError {
    MissingKey,
    MissingValue,
    SportOutOfRange,
    DportOutOfRange,
    ProtocolOutOfRange,
    VipPortOutOfRange,
    TargetPortOutOfRange,
}

/// What a refused flow entry says.
pub open spec fn flow_sync_message(e: FlowSyncError) -> Seq<char> {
    match e {
        FlowSyncError::MissingKey => "flow entry key is required"@,
        FlowSyncError::MissingValue => "flow entry value is required"@,
        FlowSyncError::SportOutOfRange => "flow sport out of range"@,
        FlowSyncError::DportOutOfRange => "flow dport out of range"@,
        FlowSyncError::ProtocolOutOfRange => "flow protocol out of range"@,
        FlowSyncError::VipPortOutOfRange => "flow VIP port out of range"@,
        FlowSyncError::TargetPortOutOfRange => "flow target port out of range"@,
    }
}

impl FlowSyncError {
    pub fn message(&self) -> (s: &'static str)
        ensures
            s@ == flow_sync_message(*self),
    {
        match self {
            FlowSyncError::MissingKey => "flow entry key is required",
            FlowSyncError::MissingValue => "flow entry value is required",
            FlowSyncError::SportOutOfRange => "flow sport out of range",
            FlowSyncError::DportOutOfRange => "flow dport out of range",
            FlowSyncError::ProtocolOutOfRange => "flow protocol out of range",
            FlowSyncError::VipPortOutOfRange => "flow VIP port out of range",
            FlowSyncError::TargetPortOutOfRange => "flow target port out of range",
        }
    }
}

/// Observable state of the replication worker.
#[derive(Debug, Clone)]
pub struct XsyncStatus {
    pub state: String,
    pub peer: Option<String>,
    pub last_error: Option<String>,
    pub last_ack_applied: usize,
}

fn clone_opt_string(v: &Option<String>) -> (r: Option<String>)
    ensures
        r.is_some() == v.is_some(),
        r.is_some() ==> r->0@ == v->0@,
{
    match v {
        Some(s) => Some(s.clone()),
        None => None,
    }
}

impl XsyncStatus {
    /// Status before the worker has run: disabled, no peer, no error.
    pub fn initial() -> (s: XsyncStatus)
        ensures
            s.state@ == "disabled"@,
            s.peer is None,
            s.last_error is None,
            s.last_ack_applied == 0,
    {
        XsyncStatus {
            state: String::from_str("disabled"),
            peer: None,
            last_error: None,
            last_ack_applied: 0,
        }
    }
}

/// A copy of the current status.
pub fn snapshot(status: &XsyncStatus) -> (s: XsyncStatus)
    ensures
        s.state@ == status.state@,
        s.peer.is_some() == status.peer.is_some(),
        s.peer.is_some() ==> s.peer->0@ == status.peer->0@,
        s.last_error.is_some() == status.last_error.is_some(),
        s.last_error.is_some() ==> s.last_error->0@ == status.last_error->0@,
        s.last_ack_applied == status.last_ack_applied,
{
    XsyncStatus {
        state: status.state.clone(),
        peer: clone_opt_string(&status.peer),
        last_error: clone_opt_string(&status.last_error),
        last_ack_applied: status.last_ack_applied,
    }
}

/// Record a state change: the peer is kept unless a new one is given, the
/// error is replaced, the acknowledgement count is untouched.
pub fn set_state(status: &mut XsyncStatus, state_value: &str, peer: Option<String>, error: Option<String>)
    ensures
        final(status).state@ == state_value@,
        peer.is_some() ==> final(status).peer == peer,
        peer.is_none() ==> final(status).peer == old(status).peer,
        final(status).last_error == error,
        final(status).last_ack_applied == old(status).last_ack_applied,
{
    status.state = String::from_str(state_value);
    if peer.is_some() {
        status.peer = peer;
    }
    status.last_error = error;
}

/// Record how many operations the peer applied last.
pub fn set_ack(status: &mut XsyncStatus, applied: usize)
    ensures
        final(status).state == old(status).state,
        final(status).peer == old(status).peer,
        final(status).last_error == old(status).last_error,
        final(status).last_ack_applied == applied,
{
    status.last_ack_applied = applied;
}

/// Record a failed session.
pub fn set_error(status: &mut XsyncStatus, error: String)
    ensures
        final(status).state@ == "error"@,
        final(status).peer == old(status).peer,
        final(status).last_error == Some(error),
        final(status).last_ack_applied == old(status).last_ack_applied,
{
    set_state(status, "error", None, Some(error));
}

/// Wire form of a flow key.
pub fn key_to_proto(key: &NativeFlowKey) -> (r: pb::FlowKey)
    ensures
        r.src == key.src,
        r.dst == key.dst,
        r.sport == key.sport as u32,
        r.dport == key.dport as u32,
        r.proto == key.proto as u32,
{
    pb::FlowKey {
        src: key.src,
        dst: key.dst,
        sport: key.sport as u32,
        dport: key.dport as u32,
        proto: key.proto as u32,
    }
}

/// A wire key whose fields all fit the datapath key.
pub open spec fn proto_key_fits(key: pb::FlowKey) -> bool {
    key.sport <= u16::MAX && key.dport <= u16::MAX && key.proto <= u8::MAX
}

/// Datapath form of a wire key; the first field out of range is reported.
pub fn key_from_proto(key: &pb::FlowKey) -> (r: Result<NativeFlowKey, FlowSyncError>)
    ensures
        key.sport > u16::MAX ==> r == Err::<NativeFlowKey, FlowSyncError>(FlowSyncError::SportOutOfRange),
        key.sport <= u16::MAX && key.dport > u16::MAX ==> r == Err::<NativeFlowKey, FlowSyncError>(FlowSyncError::DportOutOfRange),
        key.sport <= u16::MAX && key.dport <= u16::MAX && key.proto > u8::MAX ==> r == Err::<NativeFlowKey, FlowSyncError>(FlowSyncError::ProtocolOutOfRange),
        proto_key_fits(*key) ==> (r matches Ok(k) && (flow_tuple(k) == (key.src, key.dst, key.sport as u16, key.dport as u16, key.proto as u8) && k._pad@ == seq![0u8, 0u8, 0u8])),
{
    if key.sport > 0xffff {
        return Err(FlowSyncError::SportOutOfRange);
    }
    if key.dport > 0xffff {
        return Err(FlowSyncError::DportOutOfRange);
    }
    if key.proto > 0xff {
        return Err(FlowSyncError::ProtocolOutOfRange);
    }
    Ok(crate::datapath::flow_key(key.src, key.dst, key.sport as u16, key.dport as u16, key.proto as u8))
}

/// Age of a flow at `now_ns`; a flow never seen has age zero, and a clock
/// that appears to run backwards gives age zero too.
pub open spec fn spec_flow_age_ns(last_seen_ns: u64, now_ns: u64) -> u64 {
    if last_seen_ns == 0 {
        0
    } else if now_ns >= last_seen_ns {
        (now_ns - last_seen_ns) as u64
    } else {
        0
    }
}

pub fn flow_age_ns(last_seen_ns: u64, now_ns: u64) -> (r: u64)
    ensures
        r == spec_flow_age_ns(last_seen_ns, now_ns),
{
    if last_seen_ns == 0 {
        0
    } else {
        now_ns.saturating_sub(last_seen_ns)
    }
}

/// Receiver-side last-seen time of a flow that was `age_ns` old when sent:
/// age zero maps to the receiver's now, larger ages count back from it.
pub open spec fn spec_local_last_seen_ns(age_ns: u64, now_ns: u64) -> u64 {
    if age_ns == 0 {
        now_ns
    } else if now_ns >= age_ns {
        (now_ns - age_ns) as u64
    } else {
        0
    }
}

pub fn local_last_seen_ns(age_ns: u64, now_ns: u64) -> (r: u64)
    ensures
        r == spec_local_last_seen_ns(age_ns, now_ns),
{
    if age_ns == 0 {
        now_ns
    } else {
        now_ns.saturating_sub(age_ns)
    }
}

/// Law: a flow last seen `a` nanoseconds before the sender's clock reading is
/// re-based to `a` nanoseconds before the receiver's clock reading.
pub proof fn age_rebase_preserves_idle_time(last_seen_ns: u64, sender_now_ns: u64, receiver_now_ns: u64)
    requires
        0 < last_seen_ns < sender_now_ns,
        sender_now_ns - last_seen_ns <= receiver_now_ns,
    ensures
        receiver_now_ns - spec_local_last_seen_ns(spec_flow_age_ns(last_seen_ns, sender_now_ns), receiver_now_ns)
            == sender_now_ns - last_seen_ns,
{
}

/// Wire form of a flow entry, with the last-seen time sent as an age.
pub fn entry_to_proto(entry: &FlowEntry, now_ns: u64) -> (r: pb::FlowEntry)
    ensures
        r.key == Some(pb::FlowKey {
            src: entry.0.src,
            dst: entry.0.dst,
            sport: entry.0.sport as u32,
            dport: entry.0.dport as u32,
            proto: entry.0.proto as u32,
        }),
        r.value == Some(pb::FlowValue {
            listener_id: entry.1.service_id,
            target_id: entry.1.endpoint_id,
            vip: entry.1.vip,
            target: entry.1.endpoint,
            vip_port: entry.1.vip_port as u32,
            target_port: entry.1.endpoint_port as u32,
            timeout_secs: entry.1.timeout_secs,
            last_seen_age_ns: spec_flow_age_ns(entry.1.last_seen_ns, now_ns),
        }),
{
    let (key, value) = entry;
    pb::FlowEntry {
        key: Some(key_to_proto(key)),
        value: Some(pb::FlowValue {
            listener_id: value.service_id,
            target_id: value.endpoint_id,
            vip: value.vip,
            target: value.endpoint,
            vip_port: value.vip_port as u32,
            target_port: value.endpoint_port as u32,
            timeout_secs: value.timeout_secs,
            last_seen_age_ns: flow_age_ns(value.last_seen_ns, now_ns),
        }),
    }
}

/// Datapath form of a received entry, re-basing its age on the receiver's
/// clock reading `now_ns`.
pub fn entry_from_proto_at(entry: &pb::FlowEntry, now_ns: u64) -> (r: Result<FlowEntry, FlowSyncError>)
    ensures
        entry.key is None ==> r == Err::<FlowEntry, FlowSyncError>(FlowSyncError::MissingKey),
        (entry.key matches Some(k) && !proto_key_fits(k)) ==> r is Err && r != Err::<FlowEntry, FlowSyncError>(FlowSyncError::MissingValue),
        (entry.key matches Some(k) && (proto_key_fits(k) && entry.value is None)) ==> r == Err::<FlowEntry, FlowSyncError>(FlowSyncError::MissingValue),
        (entry.key matches Some(k) && (proto_key_fits(k) && (entry.value matches Some(v) && v.vip_port > u16::MAX)))
            ==> r == Err::<FlowEntry, FlowSyncError>(FlowSyncError::VipPortOutOfRange),
        (entry.key matches Some(k) && (proto_key_fits(k) && (entry.value matches Some(v) && (v.vip_port <= u16::MAX && v.target_port > u16::MAX))))
            ==> r == Err::<FlowEntry, FlowSyncError>(FlowSyncError::TargetPortOutOfRange),
        r matches Ok(e) ==> (entry.key matches Some(k) && (entry.value matches Some(v) && {
            &&& flow_tuple(e.0) == (k.src, k.dst, k.sport as u16, k.dport as u16, k.proto as u8)
            &&& e.0._pad@ == seq![0u8, 0u8, 0u8]
            &&& e.1 == NativeFlowValue {
                service_id: v.listener_id,
                endpoint_id: v.target_id,
                vip: v.vip,
                endpoint: v.target,
                vip_port: v.vip_port as u16,
                endpoint_port: v.target_port as u16,
                timeout_secs: v.timeout_secs,
                last_seen_ns: spec_local_last_seen_ns(v.last_seen_age_ns, now_ns),
            }
        })),
        (entry.key matches Some(k) && (proto_key_fits(k) && (entry.value matches Some(v) && (v.vip_port <= u16::MAX
            && v.target_port <= u16::MAX)))) ==> r is Ok,
{
    let key = match &entry.key {
        Some(k) => k,
        None => return Err(FlowSyncError::MissingKey),
    };
    let key = match key_from_proto(key) {
        Ok(k) => k,
        Err(e) => return Err(e),
    };
    let value = match &entry.value {
        Some(v) => v,
        None => return Err(FlowSyncError::MissingValue),
    };
    if value.vip_port > 0xffff {
        return Err(FlowSyncError::VipPortOutOfRange);
    }
    if value.target_port > 0xffff {
        return Err(FlowSyncError::TargetPortOutOfRange);
    }
    Ok((
        key,
        NativeFlowValue {
            service_id: value.listener_id,
            endpoint_id: value.target_id,
            vip: value.vip,
            endpoint: value.target,
            vip_port: value.vip_port as u16,
            endpoint_port: value.target_port as u16,
            timeout_secs: value.timeout_secs,
            last_seen_ns: local_last_seen_ns(value.last_seen_age_ns, now_ns),
        },
    ))
}

/// The acknowledgement covers the batch only when the peer applied exactly
/// as many operations as were sent.
pub fn flow_ack_covers_sent(expected: usize, accepted: u64) -> (r: bool)
    ensures
        r == (accepted as int == expected as int),
{
    if accepted > usize::MAX as u64 {
        false
    } else {
        accepted as usize == expected
    }
}

/// Bound a batch: upserts are kept first, and deletes only fill what the
/// upserts leave of the operation budget.
pub fn limit_flow_batch(entries: Vec<FlowEntry>, deletes: Vec<NativeFlowKey>) -> (r: (Vec<FlowEntry>, Vec<NativeFlowKey>))
    ensures
        entries@.len() >= MAX_SYNC_OPS_PER_BATCH ==> r.0@ == entries@.subrange(0, MAX_SYNC_OPS_PER_BATCH as int) && r.1@.len() == 0,
        entries@.len() < MAX_SYNC_OPS_PER_BATCH ==> r.0@ == entries@ && r.1@ == deletes@.subrange(
            0,
            if deletes@.len() < MAX_SYNC_OPS_PER_BATCH - entries@.len() {
                deletes@.len() as int
            } else {
                MAX_SYNC_OPS_PER_BATCH - entries@.len()
            },
        ),
        r.0@.len() + r.1@.len() <= MAX_SYNC_OPS_PER_BATCH,
{
    let mut entries = entries;
    let mut deletes = deletes;
    if entries.len() >= MAX_SYNC_OPS_PER_BATCH {
        entries.truncate(MAX_SYNC_OPS_PER_BATCH);
        deletes.clear();
        return (entries, deletes);
    }
    let remaining = MAX_SYNC_OPS_PER_BATCH - entries.len();
    deletes.truncate(remaining);
    (entries, deletes)
}

/// The last mutation of a batch that concerns the five-tuple `t`.
pub open spec fn last_mutation(ms: Seq<FlowMutation>, t: (u32, u32, u16, u16, u8)) -> Option<FlowMutation>
    decreases ms.len(),
{
    if ms.len() == 0 {
        None
    } else if flow_tuple(mutation_key(ms.last())) == t {
        Some(ms.last())
    } else {
        last_mutation(ms.drop_last(), t)
    }
}

/// The entry of the last mutation for `t`, when that mutation is an upsert.
pub open spec fn last_upsert(ms: Seq<FlowMutation>, t: (u32, u32, u16, u16, u8)) -> Option<FlowEntry> {
    match last_mutation(ms, t) {
        Some(FlowMutation::Upsert(e)) => Some(e),
        _ => None,
    }
}

/// The key of the last mutation for `t`, when that mutation is a delete.
pub open spec fn last_delete(ms: Seq<FlowMutation>, t: (u32, u32, u16, u16, u8)) -> Option<NativeFlowKey> {
    match last_mutation(ms, t) {
        Some(FlowMutation::Delete(k)) => Some(k),
        _ => None,
    }
}

proof fn lemma_last_mutation_step(ms: Seq<FlowMutation>, i: int, t: (u32, u32, u16, u16, u8))
    requires
        0 <= i < ms.len(),
    ensures
        last_mutation(ms.take(i + 1), t) == if flow_tuple(mutation_key(ms[i])) == t {
            Some(ms[i])
        } else {
            last_mutation(ms.take(i), t)
        },
{
    assert(ms.take(i + 1).drop_last() =~= ms.take(i));
}

fn mutation_key_of(m: &FlowMutation) -> (k: NativeFlowKey)
    ensures
        k == mutation_key(*m),
{
    match m {
        FlowMutation::Upsert(e) => e.0,
        FlowMutation::Delete(k) => *k,
    }
}

fn find_mutation(states: &Vec<FlowMutation>, key: &NativeFlowKey) -> (r: Option<usize>)
    ensures
        r matches Some(j) ==> j < states@.len() && flow_tuple(mutation_key(states@[j as int])) == flow_tuple(*key),
        r is None ==> forall|a: int| 0 <= a < states@.len() ==> flow_tuple(mutation_key(#[trigger] states@[a])) != flow_tuple(*key),
{
    let mut j: usize = 0;
    while j < states.len()
        invariant
            0 <= j <= states@.len(),
            forall|a: int| 0 <= a < j ==> flow_tuple(mutation_key(#[trigger] states@[a])) != flow_tuple(*key),
        decreases states@.len() - j,
    {
        let sk = mutation_key_of(&states[j]);
        if crate::datapath::flow_key_eq(&sk, key) {
            return Some(j);
        }
        j = j + 1;
    }
    None
}

/// Keep only the last operation for each flow of a batch of mutations:
/// upserts whose last operation is an upsert, deletes whose last operation
/// is a delete, each flow once.
pub fn fold_flow_mutations(mutations: &[FlowMutation]) -> (r: (Vec<FlowEntry>, Vec<NativeFlowKey>))
    ensures
        forall|i: int| 0 <= i < r.0@.len() ==> last_mutation(mutations@, flow_tuple(#[trigger] r.0@[i].0)) == Some(FlowMutation::Upsert(r.0@[i])),
        forall|i: int| 0 <= i < r.1@.len() ==> last_mutation(mutations@, flow_tuple(#[trigger] r.1@[i])) == Some(FlowMutation::Delete(r.1@[i])),
        forall|t: (u32, u32, u16, u16, u8)| #[trigger] last_upsert(mutations@, t) is Some ==> exists|i: int| 0 <= i < r.0@.len() && r.0@[i] == last_upsert(mutations@, t)->0,
        forall|t: (u32, u32, u16, u16, u8)| #[trigger] last_delete(mutations@, t) is Some ==> exists|i: int| 0 <= i < r.1@.len() && r.1@[i] == last_delete(mutations@, t)->0,
        forall|i: int, j: int| 0 <= i < j < r.0@.len() ==> flow_tuple(#[trigger] r.0@[i].0) != flow_tuple(#[trigger] r.0@[j].0),
        forall|i: int, j: int| 0 <= i < j < r.1@.len() ==> flow_tuple(#[trigger] r.1@[i]) != flow_tuple(#[trigger] r.1@[j]),
{
    let states = last_mutations(mutations);
    split_mutations(mutations, &states)
}

/// One state per flow: the last mutation of the batch for that flow.
fn last_mutations(mutations: &[FlowMutation]) -> (states: Vec<FlowMutation>)
    ensures
        forall|a: int, b: int| 0 <= a < b < states@.len() ==> flow_tuple(mutation_key(#[trigger] states@[a])) != flow_tuple(mutation_key(#[trigger] states@[b])),
        forall|a: int| 0 <= a < states@.len() ==> last_mutation(mutations@, flow_tuple(mutation_key(#[trigger] states@[a]))) == Some(states@[a]),
        forall|t: (u32, u32, u16, u16, u8)| #![trigger last_mutation(mutations@, t)] last_mutation(mutations@, t) is Some ==> exists|a: int| 0 <= a < states@.len() && flow_tuple(mutation_key(states@[a])) == t,
{
    let mut states: Vec<FlowMutation> = Vec::new();
    let mut i: usize = 0;
    while i < mutations.len()
        invariant
            0 <= i <= mutations@.len(),
            forall|a: int, b: int| 0 <= a < b < states@.len() ==> flow_tuple(mutation_key(#[trigger] states@[a])) != flow_tuple(mutation_key(#[trigger] states@[b])),
            forall|a: int| 0 <= a < states@.len() ==> last_mutation(mutations@.take(i as int), flow_tuple(mutation_key(#[trigger] states@[a]))) == Some(states@[a]),
            forall|t: (u32, u32, u16, u16, u8)| #![trigger last_mutation(mutations@.take(i as int), t)] last_mutation(mutations@.take(i as int), t) is Some ==> exists|a: int| 0 <= a < states@.len() && flow_tuple(mutation_key(states@[a])) == t,
        decreases mutations@.len() - i,
    {
        let m = mutations[i];
        let key = mutation_key_of(&m);
        let found = find_mutation(&states, &key);
        let ghost old_states = states@;
        proof {
            assert forall|t: (u32, u32, u16, u16, u8)| true implies last_mutation(mutations@.take(i + 1), t) == if flow_tuple(mutation_key(mutations@[i as int])) == t {
                Some(mutations@[i as int])
            } else {
                last_mutation(mutations@.take(i as int), t)
            } by {
                lemma_last_mutation_step(mutations@, i as int, t);
            }
        }
        match found {
            Some(j) => {
                states.set(j, m);
            },
            None => {
                states.push(m);
            },
        }
        proof {
            let ss = states@;
            assert forall|t: (u32, u32, u16, u16, u8)| #![trigger last_mutation(mutations@.take(i + 1), t)] last_mutation(mutations@.take(i + 1), t) is Some implies exists|a: int| 0 <= a < ss.len() && flow_tuple(mutation_key(ss[a])) == t by {
                if flow_tuple(mutation_key(m)) == t {
                    match found {
                        Some(j) => { assert(flow_tuple(mutation_key(ss[j as int])) == t); },
                        None => { assert(flow_tuple(mutation_key(ss[ss.len() - 1])) == t); },
                    }
                } else {
                    assert(last_mutation(mutations@.take(i as int), t) is Some);
                    let a = choose|a: int| 0 <= a < old_states.len() && flow_tuple(mutation_key(old_states[a])) == t;
                    match found {
                        Some(j) => { assert(a != j); assert(ss[a] == old_states[a]); },
                        None => { assert(ss[a] == old_states[a]); },
                    }
                }
            }
            assert forall|a: int| 0 <= a < ss.len() implies last_mutation(mutations@.take(i + 1), flow_tuple(mutation_key(#[trigger] ss[a]))) == Some(ss[a]) by {
                if ss[a] != m {
                    assert(ss[a] == old_states[a]);
                    assert(flow_tuple(mutation_key(old_states[a])) != flow_tuple(mutation_key(m)));
                }
            }
        }
        i = i + 1;
    }
    assert(mutations@.take(mutations@.len() as int) =~= mutations@);
    states
}

/// Split per-flow states into upserts and deletes.
fn split_mutations(mutations: &[FlowMutation], states: &Vec<FlowMutation>) -> (r: (Vec<FlowEntry>, Vec<NativeFlowKey>))
    requires
        forall|a: int, b: int| 0 <= a < b < states@.len() ==> flow_tuple(mutation_key(#[trigger] states@[a])) != flow_tuple(mutation_key(#[trigger] states@[b])),
        forall|a: int| 0 <= a < states@.len() ==> last_mutation(mutations@, flow_tuple(mutation_key(#[trigger] states@[a]))) == Some(states@[a]),
        forall|t: (u32, u32, u16, u16, u8)| #![trigger last_mutation(mutations@, t)] last_mutation(mutations@, t) is Some ==> exists|a: int| 0 <= a < states@.len() && flow_tuple(mutation_key(states@[a])) == t,
    ensures
        forall|i: int| 0 <= i < r.0@.len() ==> last_mutation(mutations@, flow_tuple(#[trigger] r.0@[i].0)) == Some(FlowMutation::Upsert(r.0@[i])),
        forall|i: int| 0 <= i < r.1@.len() ==> last_mutation(mutations@, flow_tuple(#[trigger] r.1@[i])) == Some(FlowMutation::Delete(r.1@[i])),
        forall|t: (u32, u32, u16, u16, u8)| #[trigger] last_upsert(mutations@, t) is Some ==> exists|i: int| 0 <= i < r.0@.len() && r.0@[i] == last_upsert(mutations@, t)->0,
        forall|t: (u32, u32, u16, u16, u8)| #[trigger] last_delete(mutations@, t) is Some ==> exists|i: int| 0 <= i < r.1@.len() && r.1@[i] == last_delete(mutations@, t)->0,
        forall|i: int, j: int| 0 <= i < j < r.0@.len() ==> flow_tuple(#[trigger] r.0@[i].0) != flow_tuple(#[trigger] r.0@[j].0),
        forall|i: int, j: int| 0 <= i < j < r.1@.len() ==> flow_tuple(#[trigger] r.1@[i]) != flow_tuple(#[trigger] r.1@[j]),
{
    let mut entries: Vec<FlowEntry> = Vec::new();
    let mut deletes: Vec<NativeFlowKey> = Vec::new();
    let ghost mut eidx: Seq<int> = Seq::empty();
    let ghost mut didx: Seq<int> = Seq::empty();
    let ghost mut pos: Seq<int> = Seq::empty();
    let mut s: usize = 0;
    while s < states.len()
        invariant
            0 <= s <= states@.len(),
            eidx.len() == entries@.len(),
            didx.len() == deletes@.len(),
            pos.len() == s,
            forall|a: int| 0 <= a < entries@.len() ==> 0 <= #[trigger] eidx[a] < s && states@[eidx[a]] == FlowMutation::Upsert(entries@[a]),
            forall|a: int| 0 <= a < deletes@.len() ==> 0 <= #[trigger] didx[a] < s && states@[didx[a]] == FlowMutation::Delete(deletes@[a]),
            forall|a: int, b: int| 0 <= a < b < entries@.len() ==> #[trigger] eidx[a] < #[trigger] eidx[b],
            forall|a: int, b: int| 0 <= a < b < deletes@.len() ==> #[trigger] didx[a] < #[trigger] didx[b],
            forall|b: int| 0 <= b < s ==> (#[trigger] states@[b] is Upsert ==> 0 <= pos[b] < entries@.len() && entries@[pos[b]] == states@[b]->Upsert_0),
            forall|b: int| 0 <= b < s ==> (#[trigger] states@[b] is Delete ==> 0 <= pos[b] < deletes@.len() && deletes@[pos[b]] == states@[b]->Delete_0),
        decreases states@.len() - s,
    {
        let st = states[s];
        match st {
            FlowMutation::Upsert(e) => {
                proof {
                    pos = pos.push(entries@.len() as int);
                    eidx = eidx.push(s as int);
                }
                entries.push(e);
            },
            FlowMutation::Delete(k) => {
                proof {
                    pos = pos.push(deletes@.len() as int);
                    didx = didx.push(s as int);
                }
                deletes.push(k);
            },
        }
        s = s + 1;
    }
    proof {
        assert forall|i: int, j: int| 0 <= i < j < entries@.len() implies flow_tuple(#[trigger] entries@[i].0) != flow_tuple(#[trigger] entries@[j].0) by {
            assert(eidx[i] < eidx[j]);
            assert(mutation_key(states@[eidx[i]]) == entries@[i].0);
            assert(mutation_key(states@[eidx[j]]) == entries@[j].0);
        }
        assert forall|i: int, j: int| 0 <= i < j < deletes@.len() implies flow_tuple(#[trigger] deletes@[i]) != flow_tuple(#[trigger] deletes@[j]) by {
            assert(didx[i] < didx[j]);
            assert(mutation_key(states@[didx[i]]) == deletes@[i]);
            assert(mutation_key(states@[didx[j]]) == deletes@[j]);
        }
        assert forall|i: int| 0 <= i < entries@.len() implies last_mutation(mutations@, flow_tuple(#[trigger] entries@[i].0)) == Some(FlowMutation::Upsert(entries@[i])) by {
            assert(mutation_key(states@[eidx[i]]) == entries@[i].0);
        }
        assert forall|i: int| 0 <= i < deletes@.len() implies last_mutation(mutations@, flow_tuple(#[trigger] deletes@[i])) == Some(FlowMutation::Delete(deletes@[i])) by {
            assert(mutation_key(states@[didx[i]]) == deletes@[i]);
        }
        assert forall|t: (u32, u32, u16, u16, u8)| #[trigger] last_upsert(mutations@, t) is Some implies exists|i: int| 0 <= i < entries@.len() && entries@[i] == last_upsert(mutations@, t)->0 by {
            assert(last_mutation(mutations@, t) is Some);
            let a = choose|a: int| 0 <= a < states@.len() && flow_tuple(mutation_key(states@[a])) == t;
            assert(last_mutation(mutations@, flow_tuple(mutation_key(states@[a]))) == Some(states@[a]));
            assert(states@[a] is Upsert);
            assert(entries@[pos[a]] == last_upsert(mutations@, t)->0);
        }
        assert forall|t: (u32, u32, u16, u16, u8)| #[trigger] last_delete(mutations@, t) is Some implies exists|i: int| 0 <= i < deletes@.len() && deletes@[i] == last_delete(mutations@, t)->0 by {
            assert(last_mutation(mutations@, t) is Some);
            let a = choose|a: int| 0 <= a < states@.len() && flow_tuple(mutation_key(states@[a])) == t;
            assert(last_mutation(mutations@, flow_tuple(mutation_key(states@[a]))) == Some(states@[a]));
            assert(states@[a] is Delete);
            assert(deletes@[pos[a]] == last_delete(mutations@, t)->0);
        }
    }
    (entries, deletes)
}


/// Among the entries for the five-tuple `t`, the one with the greatest
/// last-seen time; of equally fresh ones, the later.
pub open spec fn latest_entry(es: Seq<FlowEntry>, t: (u32, u32, u16, u16, u8)) -> Option<FlowEntry>
    decreases es.len(),
{
    if es.len() == 0 {
        None
    } else {
        let prev = latest_entry(es.drop_last(), t);
        let e = es.last();
        if flow_tuple(e.0) == t && (prev is None || e.1.last_seen_ns >= prev.unwrap().1.last_seen_ns) {
            Some(e)
        } else {
            prev
        }
    }
}

/// Entries ordered strictly by their five-tuples.
pub open spec fn entries_sorted(s: Seq<FlowEntry>) -> bool {
    forall|i: int, j: int| 0 <= i < j < s.len() ==> tuple_lt(flow_tuple(#[trigger] s[i].0), flow_tuple(#[trigger] s[j].0))
}

/// Keys ordered strictly by their five-tuples.
pub open spec fn keys_sorted(s: Seq<NativeFlowKey>) -> bool {
    forall|i: int, j: int| 0 <= i < j < s.len() ==> tuple_lt(flow_tuple(#[trigger] s[i]), flow_tuple(#[trigger] s[j]))
}

proof fn lemma_latest_entry_step(es: Seq<FlowEntry>, i: int, t: (u32, u32, u16, u16, u8))
    requires
        0 <= i < es.len(),
    ensures
        latest_entry(es.take(i + 1), t) == ({
            let prev = latest_entry(es.take(i), t);
            if flow_tuple(es[i].0) == t && (prev is None || es[i].1.last_seen_ns >= prev.unwrap().1.last_seen_ns) {
                Some(es[i])
            } else {
                prev
            }
        }),
{
    assert(es.take(i + 1).drop_last() =~= es.take(i));
}

/// Position of `key` in a list sorted by five-tuple: every element before it
/// is smaller; `found` tells whether the element there has the same tuple.
fn sorted_entry_position(out: &Vec<FlowEntry>, key: &NativeFlowKey) -> (r: (usize, bool))
    requires
        entries_sorted(out@),
    ensures
        r.0 <= out@.len(),
        forall|q: int| 0 <= q < r.0 ==> tuple_lt(flow_tuple(#[trigger] out@[q].0), flow_tuple(*key)),
        r.1 ==> r.0 < out@.len() && flow_tuple(out@[r.0 as int].0) == flow_tuple(*key),
        !r.1 ==> forall|q: int| r.0 <= q < out@.len() ==> tuple_lt(flow_tuple(*key), flow_tuple(#[trigger] out@[q].0)),
{
    let mut pos: usize = 0;
    while pos < out.len() && flow_key_lt(&out[pos].0, key)
        invariant
            0 <= pos <= out@.len(),
            entries_sorted(out@),
            forall|q: int| 0 <= q < pos ==> tuple_lt(flow_tuple(#[trigger] out@[q].0), flow_tuple(*key)),
        decreases out@.len() - pos,
    {
        pos = pos + 1;
    }
    if pos < out.len() && crate::datapath::flow_key_eq(&out[pos].0, key) {
        return (pos, true);
    }
    proof {
        assert forall|q: int| pos <= q < out@.len() implies tuple_lt(flow_tuple(*key), flow_tuple(#[trigger] out@[q].0)) by {
            if q > pos {
                assert(tuple_lt(flow_tuple(out@[pos as int].0), flow_tuple(out@[q].0)));
            }
        }
    }
    (pos, false)
}

/// Collapse a list of entries to one per flow, keeping the freshest (the
/// later of equally fresh ones), ordered by five-tuple.
pub fn collapse_latest_entries(entries: Vec<FlowEntry>) -> (r: Vec<FlowEntry>)
    ensures
        entries_sorted(r@),
        forall|i: int| 0 <= i < r@.len() ==> latest_entry(entries@, flow_tuple(#[trigger] r@[i].0)) == Some(r@[i]),
        forall|t: (u32, u32, u16, u16, u8)| #![trigger latest_entry(entries@, t)] latest_entry(entries@, t) is Some ==> exists|i: int| 0 <= i < r@.len() && flow_tuple(r@[i].0) == t,
{
    let mut out: Vec<FlowEntry> = Vec::new();
    let mut i: usize = 0;
    while i < entries.len()
        invariant
            0 <= i <= entries@.len(),
            entries_sorted(out@),
            forall|a: int| 0 <= a < out@.len() ==> latest_entry(entries@.take(i as int), flow_tuple(#[trigger] out@[a].0)) == Some(out@[a]),
            forall|t: (u32, u32, u16, u16, u8)| #![trigger latest_entry(entries@.take(i as int), t)] latest_entry(entries@.take(i as int), t) is Some ==> exists|a: int| 0 <= a < out@.len() && flow_tuple(out@[a].0) == t,
        decreases entries@.len() - i,
    {
        let e = entries[i];
        let ghost old_out = out@;
        let ghost t_e = flow_tuple(e.0);
        proof {
            assert forall|t: (u32, u32, u16, u16, u8)| #![trigger latest_entry(entries@.take(i + 1), t)] true implies latest_entry(entries@.take(i + 1), t) == ({
                let prev = latest_entry(entries@.take(i as int), t);
                if flow_tuple(entries@[i as int].0) == t && (prev is None || entries@[i as int].1.last_seen_ns >= prev.unwrap().1.last_seen_ns) {
                    Some(entries@[i as int])
                } else {
                    prev
                }
            }) by {
                lemma_latest_entry_step(entries@, i as int, t);
            }
        }
        let (pos, found) = sorted_entry_position(&out, &e.0);
        if found {
            if e.1.last_seen_ns >= out[pos].1.last_seen_ns {
                out.set(pos, e);
            }
            proof {
                assert(latest_entry(entries@.take(i as int), t_e) == Some(old_out[pos as int]));
                assert forall|a: int| 0 <= a < out@.len() implies latest_entry(entries@.take(i + 1), flow_tuple(#[trigger] out@[a].0)) == Some(out@[a]) by {
                    if a != pos {
                        assert(out@[a] == old_out[a]);
                        if a < pos {
                            assert(tuple_lt(flow_tuple(old_out[a].0), flow_tuple(old_out[pos as int].0)));
                        } else {
                            assert(tuple_lt(flow_tuple(old_out[pos as int].0), flow_tuple(old_out[a].0)));
                        }
                    }
                }
                assert forall|t: (u32, u32, u16, u16, u8)| #![trigger latest_entry(entries@.take(i + 1), t)] latest_entry(entries@.take(i + 1), t) is Some implies exists|a: int| 0 <= a < out@.len() && flow_tuple(out@[a].0) == t by {
                    if t == t_e {
                        assert(flow_tuple(out@[pos as int].0) == t);
                    } else {
                        let a = choose|a: int| 0 <= a < old_out.len() && flow_tuple(old_out[a].0) == t;
                        assert(flow_tuple(out@[a].0) == t);
                    }
                }
                assert forall|x: int, y: int| 0 <= x < y < out@.len() implies tuple_lt(flow_tuple(#[trigger] out@[x].0), flow_tuple(#[trigger] out@[y].0)) by {
                    assert(tuple_lt(flow_tuple(old_out[x].0), flow_tuple(old_out[y].0)));
                }
            }
        } else {
            proof {
                if latest_entry(entries@.take(i as int), t_e) is Some {
                    let a = choose|a: int| 0 <= a < old_out.len() && flow_tuple(old_out[a].0) == t_e;
                    if a < pos {
                        assert(tuple_lt(flow_tuple(old_out[a].0), t_e));
                    } else {
                        assert(tuple_lt(t_e, flow_tuple(old_out[a].0)));
                    }
                }
                assert(latest_entry(entries@.take(i as int), t_e) is None);
            }
            out.insert(pos, e);
            proof {
                assert(out@ == old_out.insert(pos as int, e));
                assert forall|x: int, y: int| 0 <= x < y < out@.len() implies tuple_lt(flow_tuple(#[trigger] out@[x].0), flow_tuple(#[trigger] out@[y].0)) by {
                    if y < pos {
                        assert(tuple_lt(flow_tuple(old_out[x].0), flow_tuple(old_out[y].0)));
                    } else if y == pos {
                        assert(out@[x] == old_out[x]);
                    } else if x < pos {
                        assert(out@[y] == old_out[y - 1]);
                        assert(tuple_lt(t_e, flow_tuple(old_out[y - 1].0)));
                    } else if x == pos {
                        assert(out@[y] == old_out[y - 1]);
                    } else {
                        assert(tuple_lt(flow_tuple(old_out[x - 1].0), flow_tuple(old_out[y - 1].0)));
                    }
                }
                assert forall|a: int| 0 <= a < out@.len() implies latest_entry(entries@.take(i + 1), flow_tuple(#[trigger] out@[a].0)) == Some(out@[a]) by {
                    if a < pos {
                        assert(out@[a] == old_out[a]);
                        assert(tuple_lt(flow_tuple(old_out[a].0), t_e));
                    } else if a > pos {
                        assert(out@[a] == old_out[a - 1]);
                        assert(tuple_lt(t_e, flow_tuple(old_out[a - 1].0)));
                    }
                }
                assert forall|t: (u32, u32, u16, u16, u8)| #![trigger latest_entry(entries@.take(i + 1), t)] latest_entry(entries@.take(i + 1), t) is Some implies exists|a: int| 0 <= a < out@.len() && flow_tuple(out@[a].0) == t by {
                    if t == t_e {
                        assert(flow_tuple(out@[pos as int].0) == t);
                    } else {
                        let a = choose|a: int| 0 <= a < old_out.len() && flow_tuple(old_out[a].0) == t;
                        if a < pos {
                            assert(flow_tuple(out@[a].0) == t);
                        } else {
                            assert(flow_tuple(out@[a + 1].0) == t);
                        }
                    }
                }
            }
        }
        i = i + 1;
    }
    assert(entries@.take(entries@.len() as int) =~= entries@);
    out
}

/// Some entry of the list concerns the five-tuple `t`.
#[verifier::opaque]
pub open spec fn entries_cover(entries: Seq<FlowEntry>, t: (u32, u32, u16, u16, u8)) -> bool {
    exists|j: int| 0 <= j < entries.len() && flow_tuple(#[trigger] entries[j].0) == t
}

fn entries_contain_key(entries: &[FlowEntry], key: &NativeFlowKey) -> (r: bool)
    ensures
        r == entries_cover(entries@, flow_tuple(*key)),
{
    reveal(entries_cover);
    let mut j: usize = 0;
    while j < entries.len()
        invariant
            0 <= j <= entries@.len(),
            forall|q: int| 0 <= q < j ==> flow_tuple(#[trigger] entries@[q].0) != flow_tuple(*key),
        decreases entries@.len() - j,
    {
        if crate::datapath::flow_key_eq(&entries[j].0, key) {
            proof {
                reveal(entries_cover);
                assert(flow_tuple(entries@[j as int].0) == flow_tuple(*key));
                assert(entries_cover(entries@, flow_tuple(*key)));
            }
            return true;
        }
        j = j + 1;
    }
    false
}

fn sorted_key_position(out: &Vec<NativeFlowKey>, key: &NativeFlowKey) -> (r: (usize, bool))
    requires
        keys_sorted(out@),
    ensures
        r.0 <= out@.len(),
        forall|q: int| 0 <= q < r.0 ==> tuple_lt(flow_tuple(#[trigger] out@[q]), flow_tuple(*key)),
        r.1 ==> r.0 < out@.len() && flow_tuple(out@[r.0 as int]) == flow_tuple(*key),
        !r.1 ==> forall|q: int| r.0 <= q < out@.len() ==> tuple_lt(flow_tuple(*key), flow_tuple(#[trigger] out@[q])),
{
    let mut pos: usize = 0;
    while pos < out.len() && flow_key_lt(&out[pos], key)
        invariant
            0 <= pos <= out@.len(),
            keys_sorted(out@),
            forall|q: int| 0 <= q < pos ==> tuple_lt(flow_tuple(#[trigger] out@[q]), flow_tuple(*key)),
        decreases out@.len() - pos,
    {
        pos = pos + 1;
    }
    if pos < out.len() && crate::datapath::flow_key_eq(&out[pos], key) {
        return (pos, true);
    }
    proof {
        assert forall|q: int| pos <= q < out@.len() implies tuple_lt(flow_tuple(*key), flow_tuple(#[trigger] out@[q])) by {
            if q > pos {
                assert(tuple_lt(flow_tuple(out@[pos as int]), flow_tuple(out@[q])));
            }
        }
    }
    (pos, false)
}

fn insert_key_at(out: &mut Vec<NativeFlowKey>, pos: usize, d: NativeFlowKey)
    requires
        keys_sorted(old(out)@),
        pos <= old(out)@.len(),
        forall|q: int| 0 <= q < pos ==> tuple_lt(flow_tuple(#[trigger] old(out)@[q]), flow_tuple(d)),
        forall|q: int| pos <= q < old(out)@.len() ==> tuple_lt(flow_tuple(d), flow_tuple(#[trigger] old(out)@[q])),
    ensures
        final(out)@ == old(out)@.insert(pos as int, d),
        keys_sorted(final(out)@),
{
    let ghost old_out = out@;
    out.insert(pos, d);
    proof {
        let t_d = flow_tuple(d);
        assert forall|x: int, y: int| 0 <= x < y < out@.len() implies tuple_lt(flow_tuple(#[trigger] out@[x]), flow_tuple(#[trigger] out@[y])) by {
            if y < pos {
                assert(tuple_lt(flow_tuple(old_out[x]), flow_tuple(old_out[y])));
            } else if y == pos {
                assert(out@[x] == old_out[x]);
            } else if x < pos {
                assert(out@[y] == old_out[y - 1]);
                assert(tuple_lt(t_d, flow_tuple(old_out[y - 1])));
            } else if x == pos {
                assert(out@[y] == old_out[y - 1]);
            } else {
                assert(tuple_lt(flow_tuple(old_out[x - 1]), flow_tuple(old_out[y - 1])));
            }
        }
    }
}

/// Add a key to a sorted key list unless a key with its five-tuple is there.
fn add_sorted_key(out: &mut Vec<NativeFlowKey>, d: NativeFlowKey)
    requires
        keys_sorted(old(out)@),
    ensures
        keys_sorted(final(out)@),
        exists|a: int| 0 <= a < final(out)@.len() && flow_tuple(final(out)@[a]) == flow_tuple(d),
        forall|a: int| 0 <= a < final(out)@.len() ==> #[trigger] final(out)@[a] == d || old(out)@.contains(final(out)@[a]),
        forall|b: int| 0 <= b < old(out)@.len() ==> final(out)@.contains(#[trigger] old(out)@[b]),
{
    let ghost old_out = out@;
    let (pos, found) = sorted_key_position(out, &d);
    if !found {
        insert_key_at(out, pos, d);
        proof {
            assert(flow_tuple(out@[pos as int]) == flow_tuple(d));
            assert forall|a: int| 0 <= a < out@.len() implies #[trigger] out@[a] == d || old_out.contains(out@[a]) by {
                if a < pos {
                    assert(out@[a] == old_out[a]);
                } else if a > pos {
                    assert(out@[a] == old_out[a - 1]);
                }
            }
            assert forall|b: int| 0 <= b < old_out.len() implies out@.contains(#[trigger] old_out[b]) by {
                if b < pos {
                    assert(out@[b] == old_out[b]);
                } else {
                    assert(out@[b + 1] == old_out[b]);
                }
            }
        }
    } else {
        assert(flow_tuple(out@[pos as int]) == flow_tuple(d));
        assert forall|a: int| 0 <= a < out@.len() implies #[trigger] out@[a] == d || old_out.contains(out@[a]) by {
            assert(out@[a] == old_out[a]);
        }
        assert forall|b: int| 0 <= b < old_out.len() implies out@.contains(#[trigger] old_out[b]) by {
            assert(out@[b] == old_out[b]);
        }
    }
}

/// Deletes that survive a batch: each flow once, ordered by five-tuple, and
/// none for a flow that the same batch upserts.
pub fn collapse_delete_keys(deletes: Vec<NativeFlowKey>, entries: &[FlowEntry]) -> (r: Vec<NativeFlowKey>)
    ensures
        keys_sorted(r@),
        forall|i: int| 0 <= i < r@.len() ==> !entries_cover(entries@, flow_tuple(#[trigger] r@[i])) && deletes@.contains(r@[i]),
        forall|j: int| 0 <= j < deletes@.len() && !entries_cover(entries@, flow_tuple(#[trigger] deletes@[j])) ==> exists|i: int| 0 <= i < r@.len() && flow_tuple(r@[i]) == flow_tuple(deletes@[j]),
{
    let mut out: Vec<NativeFlowKey> = Vec::new();
    let mut i: usize = 0;
    while i < deletes.len()
        invariant
            0 <= i <= deletes@.len(),
            keys_sorted(out@),
            forall|a: int| 0 <= a < out@.len() ==> !entries_cover(entries@, flow_tuple(#[trigger] out@[a])) && deletes@.take(i as int).contains(out@[a]),
            forall|j: int| 0 <= j < i && !entries_cover(entries@, flow_tuple(#[trigger] deletes@[j])) ==> exists|a: int| 0 <= a < out@.len() && flow_tuple(out@[a]) == flow_tuple(deletes@[j]),
        decreases deletes@.len() - i,
    {
        let d = deletes[i];
        let ghost old_out = out@;
        let ghost prefix = deletes@.take(i as int);
        let ghost next = deletes@.take(i + 1);
        assert(next == prefix.push(d));
        if !entries_contain_key(entries, &d) {
            add_sorted_key(&mut out, d);
            proof {
                assert forall|a: int| 0 <= a < out@.len() implies !entries_cover(entries@, flow_tuple(#[trigger] out@[a])) && next.contains(out@[a]) by {
                    if out@[a] == d {
                        assert(next[i as int] == d);
                    } else {
                        let b = choose|b: int| 0 <= b < old_out.len() && old_out[b] == out@[a];
                        assert(old_out[b] == out@[a]);
                        let c = choose|c: int| 0 <= c < prefix.len() && prefix[c] == old_out[b];
                        assert(next[c] == prefix[c]);
                    }
                }
                assert forall|j: int| 0 <= j < i + 1 && !entries_cover(entries@, flow_tuple(#[trigger] deletes@[j])) implies exists|a: int| 0 <= a < out@.len() && flow_tuple(out@[a]) == flow_tuple(deletes@[j]) by {
                    if j < i {
                        let a = choose|a: int| 0 <= a < old_out.len() && flow_tuple(old_out[a]) == flow_tuple(deletes@[j]);
                        assert(out@.contains(old_out[a]));
                    }
                }
            }
        } else {
            proof {
                assert forall|a: int| 0 <= a < out@.len() implies !entries_cover(entries@, flow_tuple(#[trigger] out@[a])) && next.contains(out@[a]) by {
                    let c = choose|c: int| 0 <= c < prefix.len() && prefix[c] == out@[a];
                    assert(next[c] == prefix[c]);
                }
            }
        }
        i = i + 1;
    }
    assert(deletes@.take(deletes@.len() as int) =~= deletes@);
    out
}

} // verus!
