//! Laws of storing a listener: storing the same listener a second time
//! leaves the stored state as the first time left it.

use vstd::prelude::*;
use crate::probe_schedule::first_named;
use crate::native_state::{HealthView, view_names, upserted, observed_state, record_for, with_records, health_key, record_pairs, lowered_protocols, stored_listener, stored_entry, norm_vips, norm_protocols, same_identity, key_of, health_views, probing, lemma_dedup_first};
use crate::native_store::{RuntimeRuleStateEntry, protocols_of};
use crate::health::TargetHealthEntry;
use crate::overlay::texts;
use crate::native_store::RuntimeRuleTarget;
use crate::health::HealthProbeConfig;

verus! {

proof fn lemma_first_named(names: Seq<Seq<char>>, k: Seq<char>, from: int)
    requires
        0 <= from,
    ensures
        match first_named(names, k, from) {
            Some(f) => from <= f < names.len() && names[f] == k && forall|j: int| from <= j < f ==> names[j] != k,
            None => forall|j: int| from <= j < names.len() ==> names[j] != k,
        },
    decreases names.len() - from,
{
    if from < names.len() && names[from] != k {
        lemma_first_named(names, k, from + 1);
    }
}

/// The name of the record written for a protocol and backend.
pub open spec fn pair_key(x: (Seq<char>, RuntimeRuleTarget)) -> Seq<char> {
    health_key(x.1.address@, x.0, x.1.target_port)
}

/// A record with another observed state.
pub open spec fn set_state(h: HealthView, s: Option<Seq<char>>) -> HealthView {
    (h.0, h.1, h.2, h.3, h.4, h.5, h.6, h.7, h.8, h.9, s, h.11)
}

/// The state a new record of a kind starts in.
pub open spec fn fallback_of(probe: Option<HealthProbeConfig>) -> Seq<char> {
    match probe {
        Some(_) => "unknown"@,
        None => "ok"@,
    }
}

/// The record written for a pair, apart from its observed state.
pub open spec fn template(x: (Seq<char>, RuntimeRuleTarget), probe: Option<HealthProbeConfig>) -> HealthView {
    record_for(seq![], x, probe)
}

/// The state a write of name `k` keeps: the one observed in `items`.
pub open spec fn cur(items: Seq<HealthView>, k: Seq<char>, probe: Option<HealthProbeConfig>) -> Seq<char> {
    observed_state(items, k, fallback_of(probe))
}

proof fn lemma_record_shape(items: Seq<HealthView>, x: (Seq<char>, RuntimeRuleTarget), probe: Option<HealthProbeConfig>)
    ensures
        record_for(items, x, probe) == set_state(template(x, probe), Some(cur(items, pair_key(x), probe))),
        record_for(items, x, probe).1 == pair_key(x),
{
}

/// `names` with each of `ks` appended that it does not hold yet.
pub open spec fn grow(names: Seq<Seq<char>>, ks: Seq<Seq<char>>) -> Seq<Seq<char>>
    decreases ks.len(),
{
    if ks.len() == 0 {
        names
    } else {
        let g = grow(names, ks.drop_last());
        if g.contains(ks.last()) {
            g
        } else {
            g.push(ks.last())
        }
    }
}

proof fn lemma_grow(names: Seq<Seq<char>>, ks: Seq<Seq<char>>)
    ensures
        grow(names, ks).len() >= names.len(),
        forall|i: int| 0 <= i < names.len() ==> grow(names, ks)[i] == names[i],
        forall|k: Seq<char>| #[trigger] grow(names, ks).contains(k) <==> (names.contains(k) || ks.contains(k)),
        forall|i: int| names.len() <= i < grow(names, ks).len() ==> {
            let k = #[trigger] grow(names, ks)[i];
            &&& ks.contains(k)
            &&& !names.contains(k)
            &&& forall|j: int| 0 <= j < i ==> grow(names, ks)[j] != k
        },
    decreases ks.len(),
{
    if ks.len() > 0 {
        let g = grow(names, ks.drop_last());
        lemma_grow(names, ks.drop_last());
        let x = ks.last();
        assert forall|k: Seq<char>| #[trigger] grow(names, ks).contains(k) <==> (names.contains(k) || ks.contains(k)) by {
            if ks.contains(k) && !ks.drop_last().contains(k) {
                let w = choose|w: int| 0 <= w < ks.len() && ks[w] == k;
                if w < ks.len() - 1 {
                    assert(ks.drop_last()[w] == k);
                }
                assert(k == x);
                if !g.contains(x) {
                    assert(grow(names, ks)[g.len() as int] == x);
                }
            }
            if ks.drop_last().contains(k) {
                let w = choose|w: int| 0 <= w < ks.drop_last().len() && ks.drop_last()[w] == k;
                assert(ks[w] == k);
            }
            if grow(names, ks).contains(k) && !g.contains(k) {
                let w = choose|w: int| 0 <= w < grow(names, ks).len() && grow(names, ks)[w] == k;
                if w < g.len() {
                    assert(g[w] == k);
                }
                assert(k == x);
                assert(ks[ks.len() - 1] == k);
            }
            if g.contains(k) {
                let w = choose|w: int| 0 <= w < g.len() && g[w] == k;
                assert(grow(names, ks)[w] == k);
            }
        }
        if !g.contains(x) {
            assert forall|j: int| 0 <= j < g.len() implies grow(names, ks)[j] != x by {
                assert(g[j] != x) by {
                    if g[j] == x {
                        assert(g.contains(x));
                    }
                }
            }
            assert(ks.contains(x)) by {
                assert(ks[ks.len() - 1] == x);
            }
            assert(!names.contains(x)) by {
                if names.contains(x) {
                    let w = choose|w: int| 0 <= w < names.len() && names[w] == x;
                    assert(g[w] == x);
                }
            }
        }
        assert forall|i: int| names.len() <= i < grow(names, ks).len() implies {
            let k = #[trigger] grow(names, ks)[i];
            &&& ks.contains(k)
            &&& !names.contains(k)
            &&& forall|j: int| 0 <= j < i ==> grow(names, ks)[j] != k
        } by {
            if i < g.len() {
                let k = g[i];
                assert(grow(names, ks)[i] == k);
                assert(ks.drop_last().contains(k));
                let w = choose|w: int| 0 <= w < ks.drop_last().len() && ks.drop_last()[w] == k;
                assert(ks[w] == k);
                assert forall|j: int| 0 <= j < i implies grow(names, ks)[j] != k by {
                    assert(grow(names, ks)[j] == g[j]);
                }
            }
        }
    }
}

proof fn lemma_first_named_at(names: Seq<Seq<char>>, k: Seq<char>, f: int)
    requires
        0 <= f < names.len(),
        names[f] == k,
        forall|j: int| 0 <= j < f ==> names[j] != k,
    ensures
        first_named(names, k, 0) == Some(f),
{
    lemma_first_named(names, k, 0);
    match first_named(names, k, 0) {
        Some(g) => {
            if g < f {
                assert(names[g] != k);
            }
            if g > f {
                assert(names[f] != k);
            }
        },
        None => {
            assert(names[f] != k);
        },
    }
}

/// The keys of the pairs, in order.
pub open spec fn keys_of(q: Seq<(Seq<char>, RuntimeRuleTarget)>) -> Seq<Seq<char>> {
    q.map_values(|x: (Seq<char>, RuntimeRuleTarget)| pair_key(x))
}

/// The last pair of a key.
pub open spec fn last_with(q: Seq<(Seq<char>, RuntimeRuleTarget)>, k: Seq<char>) -> (Seq<char>, RuntimeRuleTarget)
    decreases q.len(),
{
    if q.len() == 0 {
        vstd::pervasive::arbitrary()
    } else if pair_key(q.last()) == k {
        q.last()
    } else {
        last_with(q.drop_last(), k)
    }
}

/// `y` is what writing the pairs `q` in turn makes of the records `x`:
/// the names grow by the new keys; the first record of each key of `q`
/// holds the last write of that key with the state observed in `x`; all
/// other records are those of `x`.
pub open spec fn described(x: Seq<HealthView>, q: Seq<(Seq<char>, RuntimeRuleTarget)>, y: Seq<HealthView>, probe: Option<HealthProbeConfig>) -> bool {
    &&& view_names(y) == grow(view_names(x), keys_of(q))
    &&& forall|i: int| 0 <= i < y.len() ==> #[trigger] y[i] == (if keys_of(q).contains(y[i].1) && first_named(view_names(y), y[i].1, 0) == Some(i) {
        set_state(template(last_with(q, y[i].1), probe), Some(cur(x, y[i].1, probe)))
    } else {
        x[i]
    })
    &&& forall|i: int| x.len() <= i < y.len() ==> keys_of(q).contains((#[trigger] y[i]).1) && first_named(view_names(y), y[i].1, 0) == Some(i)
}

proof fn lemma_names_index(y: Seq<HealthView>, i: int)
    requires
        0 <= i < y.len(),
    ensures
        view_names(y)[i] == y[i].1,
        view_names(y).len() == y.len(),
{
}

proof fn lemma_described(x: Seq<HealthView>, q: Seq<(Seq<char>, RuntimeRuleTarget)>, probe: Option<HealthProbeConfig>)
    ensures
        described(x, q, with_records(x, q, probe), probe),
    decreases q.len(),
{
    let nx = view_names(x);
    if q.len() == 0 {
        assert(keys_of(q) =~= Seq::<Seq<char>>::empty());
        assert forall|i: int| 0 <= i < x.len() implies #[trigger] x[i] == (if keys_of(q).contains(x[i].1) && first_named(view_names(x), x[i].1, 0) == Some(i) {
            set_state(template(last_with(q, x[i].1), probe), Some(cur(x, x[i].1, probe)))
        } else {
            x[i]
        }) by {
            assert(!keys_of(q).contains(x[i].1));
        }
        return;
    }
    let qq = q.drop_last();
    let xp = q.last();
    let k = pair_key(xp);
    lemma_described(x, qq, probe);
    let y = with_records(x, qq, probe);
    let ny = view_names(y);
    let kq = keys_of(qq);
    assert(keys_of(q) =~= kq.push(k));
    assert(keys_of(q).drop_last() =~= kq);
    lemma_grow(nx, kq);
    assert(ny == grow(nx, kq));
    assert(ny.len() == y.len());
    // The write of `xp` keeps the state observed in `x`.
    assert(cur(y, k, probe) == cur(x, k, probe)) by {
        lemma_first_named(ny, k, 0);
        lemma_first_named(nx, k, 0);
        if kq.contains(k) {
            assert(ny.contains(k));
            match first_named(ny, k, 0) {
                Some(f) => {
                    lemma_names_index(y, f);
                    assert(y[f] == set_state(template(last_with(qq, k), probe), Some(cur(x, k, probe))));
                },
                None => {
                    let w = choose|w: int| 0 <= w < ny.len() && ny[w] == k;
                    assert(ny[w] != k);
                },
            }
        } else {
            assert forall|j: int| nx.len() <= j < ny.len() implies ny[j] != k by {
                lemma_names_index(y, j);
                assert(kq.contains(y[j].1));
            }
            match first_named(nx, k, 0) {
                Some(f) => {
                    assert forall|j: int| 0 <= j < f implies ny[j] != k by {
                        assert(ny[j] == nx[j]);
                    }
                    lemma_first_named_at(ny, k, f);
                    lemma_names_index(y, f);
                    lemma_names_index(x, f);
                    assert(y[f] == x[f]);
                },
                None => {
                    assert forall|j: int| 0 <= j < ny.len() implies ny[j] != k by {
                        if j < nx.len() {
                            assert(ny[j] == nx[j]);
                        }
                    }
                    match first_named(ny, k, 0) {
                        Some(f) => {
                            assert(ny[f] != k);
                        },
                        None => {},
                    }
                },
            }
        }
    }
    let r = record_for(y, xp, probe);
    lemma_record_shape(y, xp, probe);
    assert(r == set_state(template(xp, probe), Some(cur(x, k, probe))));
    let y2 = with_records(x, q, probe);
    assert(q.drop_last() == qq);
    assert(y2 == upserted(y, r));
    lemma_first_named(ny, k, 0);
    assert(last_with(q, k) == xp);
    match first_named(ny, k, 0) {
        Some(f) => {
            assert(y2 == y.update(f, r));
            lemma_names_index(y, f);
            assert(view_names(y2) =~= ny);
            assert(ny.contains(k));
            assert(grow(nx, keys_of(q)) == ny);
            assert forall|i: int| 0 <= i < y2.len() implies #[trigger] y2[i] == (if keys_of(q).contains(y2[i].1) && first_named(view_names(y2), y2[i].1, 0) == Some(i) {
                set_state(template(last_with(q, y2[i].1), probe), Some(cur(x, y2[i].1, probe)))
            } else {
                x[i]
            }) by {
                if i == f {
                    assert(keys_of(q).contains(k)) by {
                        assert(keys_of(q)[q.len() - 1] == k);
                    }
                } else {
                    let ki = y[i].1;
                    assert(y2[i] == y[i]);
                    assert(y[i] == (if kq.contains(y[i].1) && first_named(ny, y[i].1, 0) == Some(i) {
                        set_state(template(last_with(qq, y[i].1), probe), Some(cur(x, y[i].1, probe)))
                    } else {
                        x[i]
                    }));
                    if ki != k {
                        assert(keys_of(q).contains(ki) == kq.contains(ki)) by {
                            if keys_of(q).contains(ki) {
                                let w = choose|w: int| 0 <= w < keys_of(q).len() && keys_of(q)[w] == ki;
                                assert(w < kq.len());
                                assert(kq[w] == ki);
                            }
                            if kq.contains(ki) {
                                let w = choose|w: int| 0 <= w < kq.len() && kq[w] == ki;
                                assert(keys_of(q)[w] == ki);
                            }
                        }
                        assert(last_with(q, ki) == last_with(qq, ki));
                    }
                }
            }
            assert forall|i: int| x.len() <= i < y2.len() implies keys_of(q).contains((#[trigger] y2[i]).1) && first_named(view_names(y2), y2[i].1, 0) == Some(i) by {
                assert(y2[i].1 == ny[i]) by {
                    lemma_names_index(y2, i);
                }
                lemma_names_index(y, i);
                assert(kq.contains(y[i].1));
                let w = choose|w: int| 0 <= w < kq.len() && kq[w] == y[i].1;
                assert(keys_of(q)[w] == y[i].1);
            }
        },
        None => {
            assert(y2 == y.push(r));
            assert(view_names(y2) =~= ny.push(k));
            assert(!ny.contains(k)) by {
                if ny.contains(k) {
                    let w = choose|w: int| 0 <= w < ny.len() && ny[w] == k;
                    assert(ny[w] != k);
                }
            }
            assert(grow(nx, keys_of(q)) == ny.push(k));
            let n2 = view_names(y2);
            assert forall|kk: Seq<char>, i: int| 0 <= i < ny.len() && first_named(ny, kk, 0) == Some(i) implies first_named(n2, kk, 0) == Some(i) by {
                lemma_first_named(ny, kk, 0);
                lemma_first_named_at(n2, kk, i);
            }
            assert forall|i: int| 0 <= i < y2.len() implies #[trigger] y2[i] == (if keys_of(q).contains(y2[i].1) && first_named(view_names(y2), y2[i].1, 0) == Some(i) {
                set_state(template(last_with(q, y2[i].1), probe), Some(cur(x, y2[i].1, probe)))
            } else {
                x[i]
            }) by {
                if i == y.len() {
                    assert(keys_of(q).contains(k)) by {
                        assert(keys_of(q)[q.len() - 1] == k);
                    }
                    assert forall|j: int| 0 <= j < i implies n2[j] != k by {
                        assert(n2[j] == ny[j]);
                    }
                    lemma_first_named_at(n2, k, i);
                } else {
                    let ki = y[i].1;
                    assert(y2[i] == y[i]);
                    lemma_names_index(y, i);
                    assert(ki != k);
                    assert(y[i] == (if kq.contains(y[i].1) && first_named(ny, y[i].1, 0) == Some(i) {
                        set_state(template(last_with(qq, y[i].1), probe), Some(cur(x, y[i].1, probe)))
                    } else {
                        x[i]
                    }));
                    assert(keys_of(q).contains(ki) == kq.contains(ki)) by {
                        if keys_of(q).contains(ki) {
                            let w = choose|w: int| 0 <= w < keys_of(q).len() && keys_of(q)[w] == ki;
                            assert(w < kq.len());
                            assert(kq[w] == ki);
                        }
                        if kq.contains(ki) {
                            let w = choose|w: int| 0 <= w < kq.len() && kq[w] == ki;
                            assert(keys_of(q)[w] == ki);
                        }
                    }
                    assert(last_with(q, ki) == last_with(qq, ki));
                    assert(first_named(n2, ki, 0) == first_named(ny, ki, 0)) by {
                        lemma_first_named(ny, ki, 0);
                        lemma_first_named(n2, ki, 0);
                        match first_named(ny, ki, 0) {
                            Some(f) => {
                                lemma_first_named_at(n2, ki, f);
                            },
                            None => {
                                match first_named(n2, ki, 0) {
                                    Some(g) => {
                                        if g < ny.len() {
                                            assert(ny[g] == n2[g]);
                                        }
                                    },
                                    None => {},
                                }
                            },
                        }
                    }
                }
            }
            assert forall|i: int| x.len() <= i < y2.len() implies keys_of(q).contains((#[trigger] y2[i]).1) && first_named(view_names(y2), y2[i].1, 0) == Some(i) by {
                if i == y.len() {
                    assert(keys_of(q)[q.len() - 1] == k);
                    assert forall|j: int| 0 <= j < i implies n2[j] != k by {
                        assert(n2[j] == ny[j]);
                    }
                    lemma_first_named_at(n2, k, i);
                } else {
                    assert(y2[i] == y[i]);
                    lemma_names_index(y, i);
                    assert(kq.contains(y[i].1));
                    let w = choose|w: int| 0 <= w < kq.len() && kq[w] == y[i].1;
                    assert(keys_of(q)[w] == y[i].1);
                }
            }
        },
    }
}

proof fn lemma_grow_present(names: Seq<Seq<char>>, ks: Seq<Seq<char>>)
    requires
        forall|i: int| 0 <= i < ks.len() ==> names.contains(#[trigger] ks[i]),
    ensures
        grow(names, ks) == names,
    decreases ks.len(),
{
    if ks.len() > 0 {
        assert forall|i: int| 0 <= i < ks.drop_last().len() implies names.contains(#[trigger] ks.drop_last()[i]) by {
            assert(ks.drop_last()[i] == ks[i]);
        }
        lemma_grow_present(names, ks.drop_last());
        assert(names.contains(ks[ks.len() - 1]));
    }
}

/// Writing the same records a second time changes nothing: each name
/// keeps its place, the last write of each name wins again, and the
/// observed state it carried is carried again.
pub proof fn writing_records_twice_is_writing_them_once(h: Seq<HealthView>, p: Seq<(Seq<char>, RuntimeRuleTarget)>, probe: Option<HealthProbeConfig>)
    ensures
        with_records(with_records(h, p, probe), p, probe) == with_records(h, p, probe),
{
    let w = with_records(h, p, probe);
    lemma_described(h, p, probe);
    lemma_described(w, p, probe);
    let y = with_records(w, p, probe);
    let nw = view_names(w);
    let ny = view_names(y);
    lemma_grow(view_names(h), keys_of(p));
    assert forall|i: int| 0 <= i < keys_of(p).len() implies nw.contains(#[trigger] keys_of(p)[i]) by {
        assert(keys_of(p).contains(keys_of(p)[i]));
    }
    lemma_grow_present(nw, keys_of(p));
    assert(ny == nw);
    assert(y.len() == w.len()) by {
        lemma_names_index_len(y);
        lemma_names_index_len(w);
    }
    assert forall|i: int| 0 <= i < y.len() implies y[i] == w[i] by {
        lemma_names_index(y, i);
        lemma_names_index(w, i);
        let k = y[i].1;
        if keys_of(p).contains(k) && first_named(ny, k, 0) == Some(i) {
            assert(w[i] == set_state(template(last_with(p, k), probe), Some(cur(h, k, probe))));
            assert(cur(w, k, probe) == cur(h, k, probe));
        }
    }
    assert(y =~= w);
}

proof fn lemma_names_index_len(y: Seq<HealthView>)
    ensures
        view_names(y).len() == y.len(),
{
}

/// Two pair lists write the same records.
pub open spec fn same_writes(p1: Seq<(Seq<char>, RuntimeRuleTarget)>, p2: Seq<(Seq<char>, RuntimeRuleTarget)>) -> bool {
    &&& p1.len() == p2.len()
    &&& forall|i: int| 0 <= i < p1.len() ==> (#[trigger] p1[i]).0 == p2[i].0 && p1[i].1.address@ == p2[i].1.address@ && p1[i].1.target_port == p2[i].1.target_port
}

proof fn lemma_same_writes(x: Seq<HealthView>, p1: Seq<(Seq<char>, RuntimeRuleTarget)>, p2: Seq<(Seq<char>, RuntimeRuleTarget)>, probe: Option<HealthProbeConfig>)
    requires
        same_writes(p1, p2),
    ensures
        with_records(x, p1, probe) == with_records(x, p2, probe),
    decreases p1.len(),
{
    if p1.len() > 0 {
        assert(same_writes(p1.drop_last(), p2.drop_last())) by {
            assert forall|i: int| 0 <= i < p1.drop_last().len() implies (#[trigger] p1.drop_last()[i]).0 == p2.drop_last()[i].0 && p1.drop_last()[i].1.address@ == p2.drop_last()[i].1.address@ && p1.drop_last()[i].1.target_port == p2.drop_last()[i].1.target_port by {
                assert(p1[i] == p1.drop_last()[i]);
            }
        }
        lemma_same_writes(x, p1.drop_last(), p2.drop_last(), probe);
        let prev = with_records(x, p1.drop_last(), probe);
        assert(p1[p1.len() - 1].0 == p2[p2.len() - 1].0);
        assert(record_for(prev, p1.last(), probe) == record_for(prev, p2.last(), probe));
    }
}

proof fn lemma_record_pairs_same(protos: Seq<Seq<char>>, t1: Seq<RuntimeRuleTarget>, t2: Seq<RuntimeRuleTarget>)
    requires
        t1.len() == t2.len(),
        forall|i: int| 0 <= i < t1.len() ==> (#[trigger] t1[i]).address@ == t2[i].address@ && t1[i].target_port == t2[i].target_port,
    ensures
        same_writes(record_pairs(protos, t1), record_pairs(protos, t2)),
    decreases protos.len(),
{
    if protos.len() > 0 {
        lemma_record_pairs_same(protos.drop_last(), t1, t2);
        let a1 = record_pairs(protos.drop_last(), t1);
        let a2 = record_pairs(protos.drop_last(), t2);
        let m1 = t1.map_values(|t: RuntimeRuleTarget| (protos.last(), t));
        let m2 = t2.map_values(|t: RuntimeRuleTarget| (protos.last(), t));
        let r1 = record_pairs(protos, t1);
        let r2 = record_pairs(protos, t2);
        assert(r1 == a1 + m1);
        assert(r2 == a2 + m2);
        assert forall|i: int| 0 <= i < r1.len() implies (#[trigger] r1[i]).0 == r2[i].0 && r1[i].1.address@ == r2[i].1.address@ && r1[i].1.target_port == r2[i].1.target_port by {
            if i < a1.len() {
                assert(r1[i] == a1[i]);
                assert(r2[i] == a2[i]);
            } else {
                assert(r1[i] == m1[i - a1.len()]);
                assert(r2[i] == m2[i - a2.len()]);
                assert(t1[i - a1.len()].address@ == t2[i - a1.len()].address@);
            }
        }
    }
}

proof fn lemma_filter_keeps_all(s: Seq<RuntimeRuleStateEntry>, pred: spec_fn(RuntimeRuleStateEntry) -> bool)
    requires
        forall|i: int| 0 <= i < s.len() ==> pred(#[trigger] s[i]),
    ensures
        s.filter(pred) == s,
    decreases s.len(),
{
    if s.len() > 0 {
        assert forall|i: int| 0 <= i < s.drop_last().len() implies pred(#[trigger] s.drop_last()[i]) by {
            assert(s.drop_last()[i] == s[i]);
        }
        lemma_filter_keeps_all(s.drop_last(), pred);
        s.drop_last().lemma_filter_push(s.last(), pred);
        assert(s.drop_last().push(s.last()) =~= s);
        assert(pred(s[s.len() - 1]));
    }
}

/// Law: storing the same listener a second time leaves the state as the
/// first time left it: the other listeners stay as they are, the stored
/// listener is stored the same way again, and the health records are
/// unchanged. The listener must keep at least one address (one without
/// any is not the same stored listener as itself).
pub proof fn storing_a_listener_again_changes_nothing(
    old_listeners: Seq<RuntimeRuleStateEntry>,
    old_health: Seq<TargetHealthEntry>,
    s1: crate::native_store::NativeProxyState,
    s2: crate::native_store::NativeProxyState,
    entry: RuntimeRuleStateEntry,
    probe: Option<HealthProbeConfig>,
    default_ips: Seq<String>,
)
    requires
        stored_listener(old_listeners, old_health, s1, entry, probe, default_ips),
        stored_listener(s1.listeners@, s1.target_health@, s2, entry, probe, default_ips),
        norm_vips(entry, default_ips).len() > 0,
    ensures
        s2.listeners@.drop_last() == s1.listeners@.drop_last(),
        stored_entry(s2.listeners@.last(), entry, default_ips, probing(probe)),
        health_views(s2.target_health@) == health_views(s1.target_health@),
{
    let n1 = s1.listeners@.last();
    let n2 = s2.listeners@.last();
    let pred1 = |x: RuntimeRuleStateEntry| !same_identity(x, n1);
    let pred2 = |x: RuntimeRuleStateEntry| !same_identity(x, n2);
    assert(key_of(n1).0 =~= key_of(n2).0);
    assert(key_of(n1) == key_of(n2));
    assert(pred1 =~= pred2);
    let kk = key_of(n1);
    assert(kk.0.len() > 0);
    assert(kk.0[0] == kk.0[0]);
    assert(same_identity(n1, n1));
    let rest = s1.listeners@.drop_last();
    assert(rest == old_listeners.filter(pred1));
    assert forall|i: int| 0 <= i < rest.len() implies pred1(#[trigger] rest[i]) by {
        old_listeners.lemma_filter_pred(pred1, i);
    }
    lemma_filter_keeps_all(rest, pred1);
    rest.lemma_filter_push(n1, pred1);
    assert(rest.push(n1) =~= s1.listeners@);
    assert(s2.listeners@.drop_last() == s1.listeners@.filter(pred2));
    // The health records.
    assert(texts(n1.protocols@) == norm_protocols(entry));
    assert(texts(n2.protocols@) == norm_protocols(entry));
    assert(n1.protocols@.len() > 0 && n2.protocols@.len() > 0) by {
        if entry.protocols@.len() > 0 {
            lemma_dedup_first(entry.protocols@.map_values(|p: String| crate::text::lower(p@)));
        }
    }
    assert(protocols_of(n1) =~= texts(n1.protocols@));
    assert(protocols_of(n2) =~= texts(n2.protocols@));
    assert(lowered_protocols(n1) == lowered_protocols(n2));
    let pr = if probing(probe) {
        probe
    } else {
        None
    };
    lemma_record_pairs_same(lowered_protocols(n1), n1.targets@, n2.targets@);
    lemma_same_writes(health_views(s1.target_health@), record_pairs(lowered_protocols(n1), n1.targets@), record_pairs(lowered_protocols(n2), n2.targets@), pr);
    writing_records_twice_is_writing_them_once(health_views(old_health), record_pairs(lowered_protocols(n1), n1.targets@), pr);
}

} // verus!
