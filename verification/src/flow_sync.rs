//! Replication of the native flow table to the backup gateway: which flows
//! the active gateway still has to send, what it remembers as acknowledged,
//! and when the backup accepts a replicated batch.

use vstd::prelude::*;
use vstd::string::*;
use crate::text::trim;
use crate::datapath::{NativeFlowKey, flow_tuple, flow_key_eq};
use crate::flow::FlowEntry;
use crate::flow_table::{
    FlowTable, FlowTuple, keyed_map, keys_distinct, lemma_keyed_lookup, lemma_keyed_absent,
    lemma_keyed_update, lemma_keyed_push, spec_upsert, upsert_flows,
};

verus! {

/// A replicated batch, sent to the backup.
#[derive(Clone, Debug, Default, PartialEq, Eq)]
pub struct FlowReplRequest {
    pub from: String,
    pub entries: Vec<FlowEntry>,
}

/// The backup's answer: how many flows it applied.
#[derive(Clone, Copy, Debug, Default, PartialEq, Eq, Structural)]
pub struct FlowReplResponse {
    pub applied: usize,
}

/// Key and value of an acknowledged flow.
pub open spec fn rkey() -> spec_fn((NativeFlowKey, u64)) -> FlowTuple {
    |e: (NativeFlowKey, u64)| flow_tuple(e.0)
}

pub open spec fn rval() -> spec_fn((NativeFlowKey, u64)) -> u64 {
    |e: (NativeFlowKey, u64)| e.1
}

/// For each flow acknowledged by the backup, the last-seen time that was
/// sent; no five-tuple occurs twice.
pub struct FlowReplica {
    seen: Vec<(NativeFlowKey, u64)>,
}

impl View for FlowReplica {
    type V = Map<FlowTuple, u64>;

    closed spec fn view(&self) -> Map<FlowTuple, u64> {
        keyed_map(self.seen@, rkey(), rval())
    }
}

impl FlowReplica {
    pub closed spec fn wf(&self) -> bool {
        keys_distinct(self.seen@, rkey())
    }

    pub fn new() -> (r: FlowReplica)
        ensures
            r.wf(),
            r@ == Map::<FlowTuple, u64>::empty(),
    {
        FlowReplica { seen: Vec::new() }
    }

    fn find(&self, key: &NativeFlowKey) -> (r: Option<usize>)
        requires
            self.wf(),
        ensures
            r matches Some(i) ==> i < self.seen@.len() && rkey()(self.seen@[i as int]) == flow_tuple(*key),
            r is None ==> forall|j: int| 0 <= j < self.seen@.len() ==> rkey()(#[trigger] self.seen@[j]) != flow_tuple(*key),
    {
        let mut i: usize = 0;
        while i < self.seen.len()
            invariant
                0 <= i <= self.seen@.len(),
                forall|j: int| 0 <= j < i ==> rkey()(#[trigger] self.seen@[j]) != flow_tuple(*key),
            decreases self.seen@.len() - i,
        {
            if flow_key_eq(&self.seen[i].0, key) {
                return Some(i);
            }
            i = i + 1;
        }
        None
    }

    /// The acknowledged last-seen time of a flow.
    pub fn get(&self, key: &NativeFlowKey) -> (r: Option<u64>)
        requires
            self.wf(),
        ensures
            r == self@.get(flow_tuple(*key)),
    {
        match self.find(key) {
            Some(i) => {
                proof {
                    lemma_keyed_lookup(self.seen@, rkey(), rval(), i as int);
                }
                Some(self.seen[i].1)
            },
            None => {
                proof {
                    lemma_keyed_absent(self.seen@, rkey(), rval(), flow_tuple(*key));
                }
                None
            },
        }
    }

    /// Remember the sent flows as acknowledged.
    pub fn record(&mut self, sent: &[FlowEntry])
        requires
            old(self).wf(),
        ensures
            final(self).wf(),
            final(self)@ == sent_map(old(self)@, sent@),
    {
        let mut k: usize = 0;
        while k < sent.len()
            invariant
                0 <= k <= sent@.len(),
                self.wf(),
                self@ == sent_map(old(self)@, sent@.take(k as int)),
            decreases sent@.len() - k,
        {
            let (key, value) = sent[k];
            assert(sent@.take(k + 1).drop_last() =~= sent@.take(k as int));
            assert(sent@.take(k + 1).last() == (key, value));
            let ghost before = self.seen@;
            match self.find(&key) {
                Some(i) => {
                    proof {
                        lemma_keyed_update(before, rkey(), rval(), i as int, (key, value.last_seen_ns));
                    }
                    self.seen.set(i, (key, value.last_seen_ns));
                },
                None => {
                    proof {
                        lemma_keyed_absent(before, rkey(), rval(), flow_tuple(key));
                        lemma_keyed_push(before, rkey(), rval(), (key, value.last_seen_ns));
                        assert forall|a: int, b: int| 0 <= a < b < before.push((key, value.last_seen_ns)).len()
                            implies rkey()(#[trigger] before.push((key, value.last_seen_ns))[a])
                                != rkey()(#[trigger] before.push((key, value.last_seen_ns))[b]) by {
                            if b == before.len() as int {
                                assert(rkey()(before[a]) != flow_tuple(key));
                            }
                        }
                    }
                    self.seen.push((key, value.last_seen_ns));
                },
            }
            k = k + 1;
        }
        assert(sent@.take(sent@.len() as int) =~= sent@);
    }
}

/// The acknowledged times after recording the sent flows in order.
pub open spec fn sent_map(m: Map<FlowTuple, u64>, sent: Seq<FlowEntry>) -> Map<FlowTuple, u64>
    decreases sent.len(),
{
    if sent.len() == 0 {
        m
    } else {
        sent_map(m, sent.drop_last()).insert(flow_tuple(sent.last().0), sent.last().1.last_seen_ns)
    }
}

/// A flow still to be sent: never acknowledged, or seen since.
pub open spec fn newer_than(e: FlowEntry, replica: Map<FlowTuple, u64>) -> bool {
    match replica.get(flow_tuple(e.0)) {
        None => true,
        Some(seen) => e.1.last_seen_ns > seen,
    }
}

/// The flows that are new or fresher than what the backup acknowledged.
pub fn entries_newer_than(flows: &[FlowEntry], replica: &FlowReplica) -> (r: Vec<FlowEntry>)
    requires
        replica.wf(),
    ensures
        r@ == flows@.filter(|e: FlowEntry| newer_than(e, replica@)),
{
    let mut out: Vec<FlowEntry> = Vec::new();
    let mut i: usize = 0;
    while i < flows.len()
        invariant
            0 <= i <= flows@.len(),
            replica.wf(),
            out@ == flows@.take(i as int).filter(|e: FlowEntry| newer_than(e, replica@)),
        decreases flows@.len() - i,
    {
        let e = flows[i];
        proof {
            assert(flows@.take(i + 1).drop_last() =~= flows@.take(i as int));
            assert(flows@.take(i + 1).last() == e);
            reveal(Seq::filter);
        }
        let send = match replica.get(&e.0) {
            None => true,
            Some(seen) => e.1.last_seen_ns > seen,
        };
        if send {
            out.push(e);
        }
        i = i + 1;
    }
    assert(flows@.take(flows@.len() as int) =~= flows@);
    out
}

/// Why the backup refuses a replicated batch.
#[derive(Clone, Debug, PartialEq, Eq)]
pub enum FlowReplError {
    /// The batch does not name its sender.
    MissingSource,
    /// No HA peer is configured.
    NoPeer,
    /// The sender is not the configured peer.
    ForeignSource,
    /// This gateway is not the backup; carries its state.
    NotBackup(String),
}

/// Apply a replicated batch on the backup. It is refused unless it names
/// its sender, that sender is the configured peer and this gateway is the
/// backup; else it is upserted into the flow table. Returns how many flows
/// applied.
pub fn apply_replicated(
    table: &mut FlowTable,
    request: &FlowReplRequest,
    peer_name: Option<&str>,
    local_state: &str,
) -> (r: Result<usize, FlowReplError>)
    requires
        old(table).wf(),
    ensures
        final(table).wf(),
        ({
            let peer = match peer_name {
                Some(p) => Some(p@),
                None => None,
            };
            if trim(request.from@).len() == 0 {
                r == Err::<usize, FlowReplError>(FlowReplError::MissingSource) && final(table)@ == old(table)@
            } else if peer is None {
                r == Err::<usize, FlowReplError>(FlowReplError::NoPeer) && final(table)@ == old(table)@
            } else if request.from@ != peer.unwrap() {
                r == Err::<usize, FlowReplError>(FlowReplError::ForeignSource) && final(table)@ == old(table)@
            } else if local_state@ != "BACKUP"@ {
                r matches Err(FlowReplError::NotBackup(s)) && s@ == local_state@ && final(table)@ == old(table)@
            } else {
                r matches Ok(n) && (final(table)@, n as nat) == spec_upsert(old(table)@, request.entries@)
            }
        }),
{
    if crate::text::trimmed(request.from.as_str()).len() == 0 {
        return Err(FlowReplError::MissingSource);
    }
    let p = match peer_name {
        None => return Err(FlowReplError::NoPeer),
        Some(p) => p,
    };
    let from = crate::text::chars_of(request.from.as_str());
    if !crate::text::chars_eq(&from, &crate::text::chars_of(p)) {
        return Err(FlowReplError::ForeignSource);
    }
    if !crate::text::chars_eq(&crate::text::chars_of(local_state), &crate::text::chars_of("BACKUP")) {
        return Err(FlowReplError::NotBackup(String::from_str(local_state)));
    }
    Ok(upsert_flows(table, request.entries.as_slice()))
}

} // verus!
