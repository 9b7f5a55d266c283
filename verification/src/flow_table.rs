//! The native flow table as the datapath keeps it: one entry per five-tuple.
//! Replicated flows are upserted only when fresher, deletions count the
//! flows they removed, and a sweep drops idle flows and counts the live
//! connections of each backend.

use vstd::prelude::*;
use crate::datapath::{NativeFlowKey, NativeFlowValue, NativeEndpointLoadKey, flow_tuple, flow_key_eq};
use crate::flow::{FlowEntry, spec_flow_expired, spec_flow_apply_applies, spec_canonical_pair};

verus! {

/// The identity of a flow: its five-tuple.
pub type FlowTuple = (u32, u32, u16, u16, u8);

/// The map built by inserting the entries of `s` in order.
pub open spec fn keyed_map<E, K, V>(s: Seq<E>, key: spec_fn(E) -> K, val: spec_fn(E) -> V) -> Map<K, V>
    decreases s.len(),
{
    if s.len() == 0 {
        Map::empty()
    } else {
        keyed_map(s.drop_last(), key, val).insert(key(s.last()), val(s.last()))
    }
}

/// No two entries of `s` have the same key.
pub open spec fn keys_distinct<E, K>(s: Seq<E>, key: spec_fn(E) -> K) -> bool {
    forall|i: int, j: int| 0 <= i < j < s.len() ==> key(#[trigger] s[i]) != key(#[trigger] s[j])
}

pub proof fn lemma_keyed_push<E, K, V>(s: Seq<E>, key: spec_fn(E) -> K, val: spec_fn(E) -> V, e: E)
    ensures
        keyed_map(s.push(e), key, val) == keyed_map(s, key, val).insert(key(e), val(e)),
{
    assert(s.push(e).drop_last() =~= s);
}

pub proof fn lemma_keyed_absent<E, K, V>(s: Seq<E>, key: spec_fn(E) -> K, val: spec_fn(E) -> V, k: K)
    requires
        forall|i: int| 0 <= i < s.len() ==> key(#[trigger] s[i]) != k,
    ensures
        !keyed_map(s, key, val).contains_key(k),
    decreases s.len(),
{
    if s.len() > 0 {
        let t = s.drop_last();
        assert forall|i: int| 0 <= i < t.len() implies key(#[trigger] t[i]) != k by {
            assert(t[i] == s[i]);
        }
        lemma_keyed_absent(t, key, val, k);
        assert(key(s[s.len() - 1]) != k);
    }
}

pub proof fn lemma_keyed_lookup<E, K, V>(s: Seq<E>, key: spec_fn(E) -> K, val: spec_fn(E) -> V, i: int)
    requires
        keys_distinct(s, key),
        0 <= i < s.len(),
    ensures
        keyed_map(s, key, val).contains_key(key(s[i])),
        keyed_map(s, key, val)[key(s[i])] == val(s[i]),
    decreases s.len(),
{
    if i < s.len() - 1 {
        let t = s.drop_last();
        assert forall|a: int, b: int| 0 <= a < b < t.len() implies key(#[trigger] t[a]) != key(#[trigger] t[b]) by {
            assert(t[a] == s[a] && t[b] == s[b]);
        }
        lemma_keyed_lookup(t, key, val, i);
        assert(t[i] == s[i]);
        assert(key(s[i]) != key(s[s.len() - 1]));
    }
}

pub proof fn lemma_keyed_update<E, K, V>(s: Seq<E>, key: spec_fn(E) -> K, val: spec_fn(E) -> V, i: int, e: E)
    requires
        keys_distinct(s, key),
        0 <= i < s.len(),
        key(e) == key(s[i]),
    ensures
        keys_distinct(s.update(i, e), key),
        keyed_map(s.update(i, e), key, val) == keyed_map(s, key, val).insert(key(e), val(e)),
    decreases s.len(),
{
    let u = s.update(i, e);
    assert forall|a: int, b: int| 0 <= a < b < u.len() implies key(#[trigger] u[a]) != key(#[trigger] u[b]) by {
        assert(key(u[a]) == key(s[a]));
        assert(key(u[b]) == key(s[b]));
    }
    if i == s.len() - 1 {
        assert(u.drop_last() =~= s.drop_last());
        assert(keyed_map(u, key, val) =~= keyed_map(s, key, val).insert(key(e), val(e)));
    } else {
        let t = s.drop_last();
        assert(u.drop_last() =~= t.update(i, e));
        assert forall|a: int, b: int| 0 <= a < b < t.len() implies key(#[trigger] t[a]) != key(#[trigger] t[b]) by {
            assert(t[a] == s[a] && t[b] == s[b]);
        }
        lemma_keyed_update(t, key, val, i, e);
        assert(key(s[s.len() - 1]) != key(s[i]));
        assert(u.last() == s.last());
        assert(keyed_map(u, key, val) =~= keyed_map(s, key, val).insert(key(e), val(e)));
    }
}

pub proof fn lemma_keyed_remove<E, K, V>(s: Seq<E>, key: spec_fn(E) -> K, val: spec_fn(E) -> V, i: int)
    requires
        keys_distinct(s, key),
        0 <= i < s.len(),
    ensures
        keys_distinct(s.remove(i), key),
        keyed_map(s.remove(i), key, val) == keyed_map(s, key, val).remove(key(s[i])),
    decreases s.len(),
{
    let r = s.remove(i);
    assert forall|a: int, b: int| 0 <= a < b < r.len() implies key(#[trigger] r[a]) != key(#[trigger] r[b]) by {
        let sa = if a < i { a } else { a + 1 };
        let sb = if b < i { b } else { b + 1 };
        assert(r[a] == s[sa] && r[b] == s[sb]);
    }
    let t = s.drop_last();
    assert forall|a: int, b: int| 0 <= a < b < t.len() implies key(#[trigger] t[a]) != key(#[trigger] t[b]) by {
        assert(t[a] == s[a] && t[b] == s[b]);
    }
    if i == s.len() - 1 {
        assert(r =~= t);
        assert forall|j: int| 0 <= j < t.len() implies key(#[trigger] t[j]) != key(s[i]) by {
            assert(t[j] == s[j]);
        }
        lemma_keyed_absent(t, key, val, key(s[i]));
        assert(keyed_map(r, key, val) =~= keyed_map(s, key, val).remove(key(s[i])));
    } else {
        assert(r.drop_last() =~= t.remove(i));
        assert(r.last() == s.last());
        lemma_keyed_remove(t, key, val, i);
        assert(t[i] == s[i]);
        assert(key(s[s.len() - 1]) != key(s[i]));
        assert(keyed_map(r, key, val) =~= keyed_map(s, key, val).remove(key(s[i])));
    }
}

/// Key and value of a flow entry in the table's map.
pub open spec fn fkey() -> spec_fn(FlowEntry) -> FlowTuple {
    |e: FlowEntry| flow_tuple(e.0)
}

pub open spec fn fval() -> spec_fn(FlowEntry) -> NativeFlowValue {
    |e: FlowEntry| e.1
}

/// The flows of a table as a map from five-tuple to value.
pub open spec fn flow_map(s: Seq<FlowEntry>) -> Map<FlowTuple, NativeFlowValue> {
    keyed_map(s, fkey(), fval())
}

/// The flow table, in its iteration order; no five-tuple occurs twice.
pub struct FlowTable {
    entries: Vec<FlowEntry>,
}

impl View for FlowTable {
    type V = Seq<FlowEntry>;

    closed spec fn view(&self) -> Seq<FlowEntry> {
        self.entries@
    }
}

impl FlowTable {
    pub open spec fn wf(&self) -> bool {
        keys_distinct(self@, fkey())
    }
}

/// Index of the flow with five-tuple `t`, if any.
pub open spec fn has_flow(s: Seq<FlowEntry>, t: FlowTuple) -> bool {
    exists|i: int| 0 <= i < s.len() && flow_tuple(s[i].0) == t
}

pub open spec fn flow_index(s: Seq<FlowEntry>, t: FlowTuple) -> int {
    choose|i: int| 0 <= i < s.len() && flow_tuple(s[i].0) == t
}

/// One replicated entry: a present flow is replaced when the replica is
/// fresher; an absent one is added. Reports whether the entry applied.
pub open spec fn upsert_step(s: Seq<FlowEntry>, e: FlowEntry) -> (Seq<FlowEntry>, bool) {
    let t = flow_tuple(e.0);
    if has_flow(s, t) {
        let i = flow_index(s, t);
        if spec_flow_apply_applies(Some(s[i].1), e.1) {
            (s.update(i, e), true)
        } else {
            (s, false)
        }
    } else if spec_flow_apply_applies(None, e.1) {
        (s.push(e), true)
    } else {
        (s, false)
    }
}

/// The table after upserting `es` in order, and how many applied.
pub open spec fn spec_upsert(s: Seq<FlowEntry>, es: Seq<FlowEntry>) -> (Seq<FlowEntry>, nat)
    decreases es.len(),
{
    if es.len() == 0 {
        (s, 0)
    } else {
        let prev = spec_upsert(s, es.drop_last());
        let step = upsert_step(prev.0, es.last());
        (step.0, if step.1 { prev.1 + 1 } else { prev.1 })
    }
}

/// One deletion: the flow with the key's five-tuple is removed if present.
pub open spec fn delete_step(s: Seq<FlowEntry>, k: NativeFlowKey) -> (Seq<FlowEntry>, bool) {
    let t = flow_tuple(k);
    if has_flow(s, t) {
        (s.remove(flow_index(s, t)), true)
    } else {
        (s, false)
    }
}

/// The table after deleting `ks` in order, and how many flows went.
pub open spec fn spec_delete(s: Seq<FlowEntry>, ks: Seq<NativeFlowKey>) -> (Seq<FlowEntry>, nat)
    decreases ks.len(),
{
    if ks.len() == 0 {
        (s, 0)
    } else {
        let prev = spec_delete(s, ks.drop_last());
        let step = delete_step(prev.0, ks.last());
        (step.0, if step.1 { prev.1 + 1 } else { prev.1 })
    }
}

/// A flow that has been idle longer than its timeout at `now_ns`.
pub open spec fn idle(e: FlowEntry, now_ns: u64) -> bool {
    spec_flow_expired(e.1.last_seen_ns, e.1.timeout_secs, now_ns)
}

/// The canonical connection pair of a flow.
pub open spec fn pair_of(e: FlowEntry) -> (FlowTuple, FlowTuple) {
    spec_canonical_pair(e.0, e.1)
}

/// Key and value of a backend load entry.
pub open spec fn lkey() -> spec_fn((NativeEndpointLoadKey, u32)) -> (u32, u32) {
    |e: (NativeEndpointLoadKey, u32)| (e.0.service_id, e.0.endpoint_id)
}

pub open spec fn lval() -> spec_fn((NativeEndpointLoadKey, u32)) -> u32 {
    |e: (NativeEndpointLoadKey, u32)| e.1
}

/// Live connections per backend over the flows of `s` in order: each live
/// connection counts once, for the backend of the first of its directions
/// met; counts saturate. Returns the connections seen and the counts.
pub open spec fn load_fold(s: Seq<FlowEntry>, now_ns: u64) -> (Seq<(FlowTuple, FlowTuple)>, Map<(u32, u32), u32>)
    decreases s.len(),
{
    if s.len() == 0 {
        (Seq::empty(), Map::empty())
    } else {
        let prev = load_fold(s.drop_last(), now_ns);
        let e = s.last();
        if idle(e, now_ns) || prev.0.contains(pair_of(e)) {
            prev
        } else {
            let k = (e.1.service_id, e.1.endpoint_id);
            let n: u32 = if prev.1.contains_key(k) {
                if prev.1[k] == u32::MAX { u32::MAX } else { (prev.1[k] + 1) as u32 }
            } else {
                1
            };
            (prev.0.push(pair_of(e)), prev.1.insert(k, n))
        }
    }
}

/// Flows that are not idle at `now_ns`, in order.
pub open spec fn live_flows(s: Seq<FlowEntry>, now_ns: u64) -> Seq<FlowEntry> {
    s.filter(|e: FlowEntry| !idle(e, now_ns))
}

impl FlowTable {
    pub fn new() -> (t: FlowTable)
        ensures
            t.wf(),
            t@ == Seq::<FlowEntry>::empty(),
    {
        FlowTable { entries: Vec::new() }
    }

    fn find(&self, key: &NativeFlowKey) -> (r: Option<usize>)
        requires
            self.wf(),
        ensures
            r matches Some(i) ==> i < self@.len() && flow_tuple(self@[i as int].0) == flow_tuple(*key)
                && flow_index(self@, flow_tuple(*key)) == i && has_flow(self@, flow_tuple(*key)),
            r is None ==> !has_flow(self@, flow_tuple(*key)),
    {
        let mut i: usize = 0;
        while i < self.entries.len()
            invariant
                0 <= i <= self@.len(),
                self.wf(),
                self@ == self.entries@,
                forall|j: int| 0 <= j < i ==> flow_tuple(#[trigger] self@[j].0) != flow_tuple(*key),
            decreases self@.len() - i,
        {
            if flow_key_eq(&self.entries[i].0, key) {
                proof {
                    let t = flow_tuple(*key);
                    assert(0 <= i < self@.len() && flow_tuple(self@[i as int].0) == t);
                    assert(has_flow(self@, t));
                    let c = flow_index(self@, t);
                    assert(0 <= c < self@.len() && flow_tuple(self@[c].0) == t);
                    assert(fkey()(self@[c]) == t);
                    assert(fkey()(self@[i as int]) == t);
                    if c < i as int {
                        assert(fkey()(self@[c]) != fkey()(self@[i as int]));
                    }
                    if c > i as int {
                        assert(fkey()(self@[i as int]) != fkey()(self@[c]));
                    }
                }
                return Some(i);
            }
            i = i + 1;
        }
        None
    }

    /// The value stored for a flow's five-tuple.
    pub fn get(&self, key: &NativeFlowKey) -> (r: Option<NativeFlowValue>)
        requires
            self.wf(),
        ensures
            r == flow_map(self@).get(flow_tuple(*key))
    {
        match self.find(key) {
            Some(i) => {
                proof {
                    lemma_keyed_lookup(self@, fkey(), fval(), i as int);
                }
                Some(self.entries[i].1)
            },
            None => {
                proof {
                    assert forall|j: int| 0 <= j < self@.len() implies fkey()(#[trigger] self@[j]) != flow_tuple(*key) by {
                        if fkey()(self@[j]) == flow_tuple(*key) {
                            assert(has_flow(self@, flow_tuple(*key)));
                        }
                    }
                    lemma_keyed_absent(self@, fkey(), fval(), flow_tuple(*key));
                }
                None
            },
        }
    }
}

/// The flows of the table, in its order.
pub fn dump_flows(table: &FlowTable) -> (r: Vec<FlowEntry>)
    requires
        table.wf(),
    ensures
        r@ == table@,
{
    let mut out: Vec<FlowEntry> = Vec::new();
    let mut i: usize = 0;
    while i < table.entries.len()
        invariant
            0 <= i <= table@.len(),
            table@ == table.entries@,
            out@ == table@.take(i as int),
        decreases table@.len() - i,
    {
        out.push(table.entries[i]);
        assert(table@.take(i + 1) == table@.take(i as int).push(table@[i as int]));
        i = i + 1;
    }
    assert(table@.take(table@.len() as int) == table@);
    out
}

/// Upsert replicated flows: each is applied when its flow is absent or the
/// replica has seen it later. Returns how many applied.
pub fn upsert_flows(table: &mut FlowTable, entries: &[FlowEntry]) -> (r: usize)
    requires
        old(table).wf(),
    ensures
        final(table).wf(),
        (final(table)@, r as nat) == spec_upsert(old(table)@, entries@),
{
    let mut applied: usize = 0;
    let mut k: usize = 0;
    while k < entries.len()
        invariant
            0 <= k <= entries@.len(),
            table.wf(),
            applied <= k,
            (table@, applied as nat) == spec_upsert(old(table)@, entries@.take(k as int)),
        decreases entries@.len() - k,
    {
        let e = entries[k];
        assert(entries@.take(k + 1).drop_last() =~= entries@.take(k as int));
        assert(entries@.take(k + 1).last() == e);
        let ghost before = table@;
        match table.find(&e.0) {
            Some(i) => {
                let local = table.entries[i].1;
                if crate::flow::flow_apply_applies(Some(&local), &e.1) {
                    proof {
                        lemma_keyed_update(before, fkey(), fval(), i as int, e);
                    }
                    table.entries.set(i, e);
                    applied = applied + 1;
                }
            },
            None => {
                proof {
                    assert forall|a: int, b: int| 0 <= a < b < before.push(e).len() implies fkey()(#[trigger] before.push(e)[a]) != fkey()(#[trigger] before.push(e)[b]) by {
                        if b == before.len() as int {
                            if fkey()(before[a]) == flow_tuple(e.0) {
                                assert(has_flow(before, flow_tuple(e.0)));
                            }
                        }
                    }
                }
                table.entries.push(e);
                applied = applied + 1;
            },
        }
        k = k + 1;
    }
    assert(entries@.take(entries@.len() as int) =~= entries@);
    applied
}

/// Delete flows by key; returns how many were present.
pub fn delete_flows(table: &mut FlowTable, keys: &[NativeFlowKey]) -> (r: usize)
    requires
        old(table).wf(),
    ensures
        final(table).wf(),
        (final(table)@, r as nat) == spec_delete(old(table)@, keys@),
{
    let mut deleted: usize = 0;
    let mut k: usize = 0;
    while k < keys.len()
        invariant
            0 <= k <= keys@.len(),
            table.wf(),
            deleted <= k,
            (table@, deleted as nat) == spec_delete(old(table)@, keys@.take(k as int)),
        decreases keys@.len() - k,
    {
        let key = keys[k];
        assert(keys@.take(k + 1).drop_last() =~= keys@.take(k as int));
        assert(keys@.take(k + 1).last() == key);
        let ghost before = table@;
        match table.find(&key) {
            Some(i) => {
                proof {
                    lemma_keyed_remove(before, fkey(), fval(), i as int);
                }
                table.entries.remove(i);
                deleted = deleted + 1;
            },
            None => {},
        }
        k = k + 1;
    }
    assert(keys@.take(keys@.len() as int) =~= keys@);
    deleted
}

fn same_pair(a: (FlowTuple, FlowTuple), b: (FlowTuple, FlowTuple)) -> (r: bool)
    ensures
        r == (a == b),
{
    let ((a0, a1, a2, a3, a4), (a5, a6, a7, a8, a9)) = a;
    let ((b0, b1, b2, b3, b4), (b5, b6, b7, b8, b9)) = b;
    a0 == b0 && a1 == b1 && a2 == b2 && a3 == b3 && a4 == b4 && a5 == b5 && a6 == b6 && a7 == b7
        && a8 == b8 && a9 == b9
}

fn seen_contains(seen: &Vec<(FlowTuple, FlowTuple)>, p: (FlowTuple, FlowTuple)) -> (r: bool)
    ensures
        r == seen@.contains(p),
{
    let mut i: usize = 0;
    while i < seen.len()
        invariant
            0 <= i <= seen@.len(),
            forall|j: int| 0 <= j < i ==> seen@[j] != p,
        decreases seen@.len() - i,
    {
        if same_pair(seen[i], p) {
            assert(seen@[i as int] == p);
            return true;
        }
        i = i + 1;
    }
    false
}

fn tuple_of(k: &NativeFlowKey) -> (t: FlowTuple)
    ensures
        t == flow_tuple(*k),
{
    (k.src, k.dst, k.sport, k.dport, k.proto)
}

/// Count one more live connection for a backend.
fn bump_load(loads: &mut Vec<(NativeEndpointLoadKey, u32)>, service_id: u32, endpoint_id: u32)
    requires
        keys_distinct(old(loads)@, lkey()),
    ensures
        keys_distinct(final(loads)@, lkey()),
        ({
            let m = keyed_map(old(loads)@, lkey(), lval());
            let k = (service_id, endpoint_id);
            let n: u32 = if m.contains_key(k) {
                if m[k] == u32::MAX { u32::MAX } else { (m[k] + 1) as u32 }
            } else {
                1
            };
            keyed_map(final(loads)@, lkey(), lval()) == m.insert(k, n)
        }),
{
    let ghost before = loads@;
    let ghost k = (service_id, endpoint_id);
    let mut i: usize = 0;
    while i < loads.len()
        invariant
            0 <= i <= loads@.len(),
            loads@ == before,
            before == old(loads)@,
            k == (service_id, endpoint_id),
            keys_distinct(before, lkey()),
            forall|j: int| 0 <= j < i ==> lkey()(#[trigger] before[j]) != k,
        decreases loads@.len() - i,
    {
        let (key, n) = loads[i];
        assert(before[i as int] == (key, n));
        assert(lkey()(before[i as int]) == (key.service_id, key.endpoint_id));
        if key.service_id == service_id && key.endpoint_id == endpoint_id {
            let next: u32 = if n == u32::MAX { u32::MAX } else { n + 1 };
            proof {
                lemma_keyed_lookup(before, lkey(), lval(), i as int);
                assert(lval()(before[i as int]) == n);
                lemma_keyed_update(before, lkey(), lval(), i as int, (key, next));
            }
            loads.set(i, (key, next));
            return;
        }
        assert(lkey()(before[i as int]) != k);
        i = i + 1;
    }
    proof {
        lemma_keyed_absent(before, lkey(), lval(), k);
        lemma_keyed_push(before, lkey(), lval(), (NativeEndpointLoadKey { service_id, endpoint_id }, 1u32));
        assert forall|a: int, b: int| 0 <= a < b < before.push((NativeEndpointLoadKey { service_id, endpoint_id }, 1u32)).len()
            implies lkey()(#[trigger] before.push((NativeEndpointLoadKey { service_id, endpoint_id }, 1u32))[a])
                != lkey()(#[trigger] before.push((NativeEndpointLoadKey { service_id, endpoint_id }, 1u32))[b]) by {
            if b == before.len() as int {
                assert(lkey()(before[a]) != k);
            }
        }
    }
    loads.push((NativeEndpointLoadKey { service_id, endpoint_id }, 1u32));
}

/// Drop the flows idle at `now_ns` and count live connections per backend.
/// Returns how many flows were dropped and the per-backend counts.
pub fn sweep_flows_and_refresh_loads(table: &mut FlowTable, now_ns: u64) -> (r: (usize, Vec<(NativeEndpointLoadKey, u32)>))
    requires
        old(table).wf(),
    ensures
        final(table).wf(),
        final(table)@ == live_flows(old(table)@, now_ns),
        r.0 == old(table)@.len() - live_flows(old(table)@, now_ns).len(),
        keys_distinct(r.1@, lkey()),
        keyed_map(r.1@, lkey(), lval()) == load_fold(old(table)@, now_ns).1,
{
    let ghost s = table@;
    let mut live: Vec<FlowEntry> = Vec::new();
    let mut seen: Vec<(FlowTuple, FlowTuple)> = Vec::new();
    let mut loads: Vec<(NativeEndpointLoadKey, u32)> = Vec::new();
    let mut expired: usize = 0;
    let mut i: usize = 0;
    while i < table.entries.len()
        invariant
            0 <= i <= s.len(),
            table@ == s,
            table.entries@ == s,
            keys_distinct(s, fkey()),
            expired + live@.len() == i,
            live@ == live_flows(s.take(i as int), now_ns),
            forall|p: int| 0 <= p < live@.len() ==> exists|j: int| 0 <= j < i && #[trigger] live@[p] == s[j],
            keys_distinct(live@, fkey()),
            seen@ == load_fold(s.take(i as int), now_ns).0,
            keys_distinct(loads@, lkey()),
            keyed_map(loads@, lkey(), lval()) == load_fold(s.take(i as int), now_ns).1,
        decreases s.len() - i,
    {
        let e = table.entries[i];
        assert(s.take(i + 1).drop_last() =~= s.take(i as int));
        assert(s.take(i + 1).last() == e);
        proof {
            reveal(Seq::filter);
        }
        if crate::flow::flow_expired(e.1.last_seen_ns, e.1.timeout_secs, now_ns) {
            expired = expired + 1;
        } else {
            proof {
                assert forall|a: int, b: int| 0 <= a < b < live@.push(e).len() implies fkey()(#[trigger] live@.push(e)[a]) != fkey()(#[trigger] live@.push(e)[b]) by {
                    if b == live@.len() as int {
                        let j = choose|j: int| 0 <= j < i && live@[a] == s[j];
                        assert(fkey()(s[j]) != fkey()(s[i as int]));
                    }
                }
            }
            let ghost old_live = live@;
            live.push(e);
            assert forall|p: int| 0 <= p < live@.len() implies exists|j: int| 0 <= j < i + 1 && #[trigger] live@[p] == s[j] by {
                if p < old_live.len() {
                    let j = choose|j: int| 0 <= j < i && old_live[p] == s[j];
                    assert(live@[p] == s[j]);
                } else {
                    assert(live@[p] == s[i as int]);
                }
            }
            let (k1, k2) = crate::flow::canonical_flow_pair(e.0, e.1);
            let pair = (tuple_of(&k1), tuple_of(&k2));
            assert(pair == pair_of(e));
            if !seen_contains(&seen, pair) {
                seen.push(pair);
                bump_load(&mut loads, e.1.service_id, e.1.endpoint_id);
            }
        }
        i = i + 1;
    }
    assert(s.take(s.len() as int) =~= s);
    table.entries = live;
    (expired, loads)
}

impl FlowTable {
    /// A table holding the given flows; a later entry for the same
    /// five-tuple replaces an earlier one.
    pub fn from_entries(entries: &[FlowEntry]) -> (t: FlowTable)
        ensures
            t.wf(),
            flow_map(t@) == flow_map(entries@),
    {
        let mut t = FlowTable::new();
        let mut k: usize = 0;
        while k < entries.len()
            invariant
                0 <= k <= entries@.len(),
                t.wf(),
                flow_map(t@) == flow_map(entries@.take(k as int)),
            decreases entries@.len() - k,
        {
            let e = entries[k];
            assert(entries@.take(k + 1).drop_last() =~= entries@.take(k as int));
            assert(entries@.take(k + 1).last() == e);
            let ghost before = t@;
            match t.find(&e.0) {
                Some(i) => {
                    proof {
                        lemma_keyed_update(before, fkey(), fval(), i as int, e);
                    }
                    t.entries.set(i, e);
                },
                None => {
                    proof {
                        lemma_keyed_push(before, fkey(), fval(), e);
                        assert forall|a: int, b: int| 0 <= a < b < before.push(e).len() implies fkey()(#[trigger] before.push(e)[a]) != fkey()(#[trigger] before.push(e)[b]) by {
                            if b == before.len() as int {
                                if fkey()(before[a]) == flow_tuple(e.0) {
                                    assert(has_flow(before, flow_tuple(e.0)));
                                }
                            }
                        }
                    }
                    t.entries.push(e);
                },
            }
            k = k + 1;
        }
        assert(entries@.take(entries@.len() as int) =~= entries@);
        t
    }
}

proof fn lemma_upsert_step(s: Seq<FlowEntry>, e: FlowEntry)
    requires
        keys_distinct(s, fkey()),
    ensures
        keys_distinct(upsert_step(s, e).0, fkey()),
        ({
            let m = flow_map(s);
            let n = flow_map(upsert_step(s, e).0);
            let t = flow_tuple(e.0);
            &&& forall|u: FlowTuple| m.contains_key(u) ==> n.contains_key(u) && n[u].last_seen_ns >= m[u].last_seen_ns
            &&& n.contains_key(t) && n[t].last_seen_ns >= e.1.last_seen_ns
            &&& forall|u: FlowTuple| n.contains_key(u) && u != t ==> m.contains_key(u) && n[u] == m[u]
            &&& (upsert_step(s, e).1 <==> n.contains_key(t) && n[t] == e.1 && (!m.contains_key(t) || m[t].last_seen_ns < e.1.last_seen_ns))
        }),
{
    let t = flow_tuple(e.0);
    if has_flow(s, t) {
        let i = flow_index(s, t);
        lemma_keyed_lookup(s, fkey(), fval(), i);
        if spec_flow_apply_applies(Some(s[i].1), e.1) {
            lemma_keyed_update(s, fkey(), fval(), i, e);
        }
    } else {
        assert forall|j: int| 0 <= j < s.len() implies fkey()(#[trigger] s[j]) != t by {
            if fkey()(s[j]) == t {
                assert(has_flow(s, t));
            }
        }
        lemma_keyed_absent(s, fkey(), fval(), t);
        lemma_keyed_push(s, fkey(), fval(), e);
        assert forall|a: int, b: int| 0 <= a < b < s.push(e).len() implies fkey()(#[trigger] s.push(e)[a]) != fkey()(#[trigger] s.push(e)[b]) by {
            if b == s.len() as int {
                assert(fkey()(s[a]) != t);
            }
        }
    }
}

/// Upsert replicated flows into the pinned table, if there is one: on a
/// node whose datapath is detached nothing is written and none applied.
pub fn upsert_pinned_flows(table: &mut Option<FlowTable>, entries: &[FlowEntry]) -> (r: usize)
    requires
        *old(table) matches Some(t) ==> t.wf(),
    ensures
        match *old(table) {
            None => r == 0 && *final(table) is None,
            Some(t) => *final(table) matches Some(t2) && t2.wf() && (t2@, r as nat) == spec_upsert(t@, entries@),
        },
{
    match table {
        Some(t) => upsert_flows(t, entries),
        None => 0,
    }
}

/// Delete replicated flows from the pinned table, if there is one: on a
/// node whose datapath is detached nothing is deleted.
pub fn delete_pinned_flows(table: &mut Option<FlowTable>, keys: &[NativeFlowKey]) -> (r: usize)
    requires
        *old(table) matches Some(t) ==> t.wf(),
    ensures
        match *old(table) {
            None => r == 0 && *final(table) is None,
            Some(t) => *final(table) matches Some(t2) && t2.wf() && (t2@, r as nat) == spec_delete(t@, keys@),
        },
{
    match table {
        Some(t) => delete_flows(t, keys),
        None => 0,
    }
}

/// Law: upserting replicated flows never makes a stored flow older, and
/// afterwards every replicated flow is stored at least as fresh as it was
/// sent; the table keeps one entry per five-tuple.
pub proof fn upsert_only_moves_flows_forward(s: Seq<FlowEntry>, es: Seq<FlowEntry>)
    requires
        keys_distinct(s, fkey()),
    ensures
        keys_distinct(spec_upsert(s, es).0, fkey()),
        forall|u: FlowTuple| #[trigger] flow_map(s).contains_key(u) ==> flow_map(spec_upsert(s, es).0).contains_key(u)
            && flow_map(spec_upsert(s, es).0)[u].last_seen_ns >= flow_map(s)[u].last_seen_ns,
        forall|j: int| 0 <= j < es.len() ==> flow_map(spec_upsert(s, es).0).contains_key(flow_tuple(#[trigger] es[j].0))
            && flow_map(spec_upsert(s, es).0)[flow_tuple(es[j].0)].last_seen_ns >= es[j].1.last_seen_ns,
    decreases es.len(),
{
    if es.len() > 0 {
        let d = es.drop_last();
        upsert_only_moves_flows_forward(s, d);
        let prev = spec_upsert(s, d).0;
        lemma_upsert_step(prev, es.last());
        assert forall|j: int| 0 <= j < es.len() implies flow_map(spec_upsert(s, es).0).contains_key(flow_tuple(#[trigger] es[j].0))
            && flow_map(spec_upsert(s, es).0)[flow_tuple(es[j].0)].last_seen_ns >= es[j].1.last_seen_ns by {
            if j < es.len() - 1 {
                assert(es[j] == d[j]);
            }
        }
    }
}

proof fn lemma_delete_step(s: Seq<FlowEntry>, k: NativeFlowKey)
    requires
        keys_distinct(s, fkey()),
    ensures
        keys_distinct(delete_step(s, k).0, fkey()),
        flow_map(delete_step(s, k).0) == flow_map(s).remove(flow_tuple(k)),
        delete_step(s, k).1 == flow_map(s).contains_key(flow_tuple(k)),
{
    let t = flow_tuple(k);
    if has_flow(s, t) {
        let i = flow_index(s, t);
        lemma_keyed_lookup(s, fkey(), fval(), i);
        lemma_keyed_remove(s, fkey(), fval(), i);
    } else {
        assert forall|j: int| 0 <= j < s.len() implies fkey()(#[trigger] s[j]) != t by {
            if fkey()(s[j]) == t {
                assert(has_flow(s, t));
            }
        }
        lemma_keyed_absent(s, fkey(), fval(), t);
        assert(flow_map(s).remove(t) =~= flow_map(s));
    }
}

/// Law: deleting flows removes exactly the given five-tuples from the
/// table and leaves every other flow as it was.
pub proof fn delete_removes_exactly_the_keys(s: Seq<FlowEntry>, ks: Seq<NativeFlowKey>)
    requires
        keys_distinct(s, fkey()),
    ensures
        keys_distinct(spec_delete(s, ks).0, fkey()),
        forall|j: int| 0 <= j < ks.len() ==> !flow_map(spec_delete(s, ks).0).contains_key(flow_tuple(#[trigger] ks[j])),
        forall|u: FlowTuple| #[trigger] flow_map(spec_delete(s, ks).0).contains_key(u) <==> flow_map(s).contains_key(u)
            && forall|j: int| 0 <= j < ks.len() ==> u != flow_tuple(#[trigger] ks[j]),
        forall|u: FlowTuple| flow_map(spec_delete(s, ks).0).contains_key(u) ==> #[trigger] flow_map(spec_delete(s, ks).0)[u] == flow_map(s)[u],
    decreases ks.len(),
{
    if ks.len() > 0 {
        let d = ks.drop_last();
        delete_removes_exactly_the_keys(s, d);
        let prev = spec_delete(s, d).0;
        lemma_delete_step(prev, ks.last());
        assert forall|j: int| 0 <= j < ks.len() implies !flow_map(spec_delete(s, ks).0).contains_key(flow_tuple(#[trigger] ks[j])) by {
            if j < ks.len() - 1 {
                assert(ks[j] == d[j]);
            }
        }
        assert forall|u: FlowTuple| #[trigger] flow_map(spec_delete(s, ks).0).contains_key(u) <==> flow_map(s).contains_key(u)
            && forall|j: int| 0 <= j < ks.len() ==> u != flow_tuple(#[trigger] ks[j]) by {
            if flow_map(s).contains_key(u) && forall|j: int| 0 <= j < ks.len() ==> u != flow_tuple(#[trigger] ks[j]) {
                assert forall|j: int| 0 <= j < d.len() implies u != flow_tuple(#[trigger] d[j]) by {
                    assert(d[j] == ks[j]);
                }
                assert(u != flow_tuple(ks[ks.len() - 1]));
            }
            if flow_map(spec_delete(s, ks).0).contains_key(u) {
                assert forall|j: int| 0 <= j < ks.len() implies u != flow_tuple(#[trigger] ks[j]) by {
                    if j < ks.len() - 1 {
                        assert(ks[j] == d[j]);
                    }
                }
            }
        }
    }
}

/// Law: the count that deleting reports is the number of flows removed:
/// with the flows left it makes up the flows there were.
pub proof fn delete_counts_the_flows_removed(s: Seq<FlowEntry>, ks: Seq<NativeFlowKey>)
    requires
        keys_distinct(s, fkey()),
    ensures
        spec_delete(s, ks).1 + spec_delete(s, ks).0.len() == s.len(),
    decreases ks.len(),
{
    if ks.len() > 0 {
        let d = ks.drop_last();
        delete_counts_the_flows_removed(s, d);
        let prev = spec_delete(s, d).0;
        let t = flow_tuple(ks.last());
        if has_flow(prev, t) {
            let i = flow_index(prev, t);
            assert(prev.remove(i).len() == prev.len() - 1);
        }
    }
}

proof fn lemma_delete_absent(t: Seq<FlowEntry>, ks: Seq<NativeFlowKey>)
    requires
        keys_distinct(t, fkey()),
        forall|j: int| 0 <= j < ks.len() ==> !flow_map(t).contains_key(flow_tuple(#[trigger] ks[j])),
    ensures
        spec_delete(t, ks) == (t, 0nat),
    decreases ks.len(),
{
    if ks.len() > 0 {
        let d = ks.drop_last();
        assert forall|j: int| 0 <= j < d.len() implies !flow_map(t).contains_key(flow_tuple(#[trigger] d[j])) by {
            assert(d[j] == ks[j]);
        }
        lemma_delete_absent(t, d);
        lemma_delete_step(t, ks.last());
        assert(!flow_map(t).contains_key(flow_tuple(ks[ks.len() - 1])));
    }
}

/// Law: deleting the same keys again removes nothing: the table stays as
/// the first deletion left it and the count is zero.
pub proof fn deleting_again_removes_nothing(s: Seq<FlowEntry>, ks: Seq<NativeFlowKey>)
    requires
        keys_distinct(s, fkey()),
    ensures
        spec_delete(spec_delete(s, ks).0, ks) == (spec_delete(s, ks).0, 0nat),
{
    delete_removes_exactly_the_keys(s, ks);
    lemma_delete_absent(spec_delete(s, ks).0, ks);
}

/// Law: after a sweep no stored flow is idle, and every flow that was not
/// idle is still stored.
pub proof fn sweep_keeps_exactly_the_live_flows(s: Seq<FlowEntry>, now_ns: u64)
    ensures
        forall|i: int| 0 <= i < live_flows(s, now_ns).len() ==> !idle(#[trigger] live_flows(s, now_ns)[i], now_ns),
        forall|i: int| 0 <= i < s.len() && !idle(s[i], now_ns) ==> #[trigger] live_flows(s, now_ns).contains(s[i]),
{
    broadcast use vstd::seq_lib::group_filter_ensures;
    assert forall|i: int| 0 <= i < live_flows(s, now_ns).len() implies !idle(#[trigger] live_flows(s, now_ns)[i], now_ns) by {
        s.lemma_filter_pred(|e: FlowEntry| !idle(e, now_ns), i);
    }
    assert forall|i: int| 0 <= i < s.len() && !idle(s[i], now_ns) implies #[trigger] live_flows(s, now_ns).contains(s[i]) by {
        s.lemma_filter_contains(|e: FlowEntry| !idle(e, now_ns), i);
    }
}

} // verus!
