//! Overlay assignment is stable: assigning again to an inventory whose
//! addresses were just assigned changes nothing.

use vstd::prelude::*;
use crate::overlay::{spec_needs_assignment, spec_overlay_host, first_free, dedup_backends, assign_backends, phase_gateways, spec_assign};

verus! {

/// The values of `s` that need no assignment, in order.
pub open spec fn settled(s: Seq<Seq<char>>) -> Seq<Seq<char>>
    decreases s.len(),
{
    if s.len() == 0 {
        seq![]
    } else if spec_needs_assignment(s.last()) {
        settled(s.drop_last())
    } else {
        settled(s.drop_last()).push(s.last())
    }
}

proof fn lemma_settled_has(s: Seq<Seq<char>>, i: int)
    requires
        0 <= i < s.len(),
        !spec_needs_assignment(s[i]),
    ensures
        settled(s).contains(s[i]),
    decreases s.len(),
{
    if i < s.len() - 1 {
        lemma_settled_has(s.drop_last(), i);
        let p = settled(s.drop_last());
        let k = choose|k: int| 0 <= k < p.len() && p[k] == s[i];
        if !spec_needs_assignment(s.last()) {
            assert(settled(s)[k] == s[i]);
        }
    } else {
        if !spec_needs_assignment(s.last()) {
            assert(settled(s).last() == s[i]);
        }
    }
}

proof fn lemma_settled_from(s: Seq<Seq<char>>, y: Seq<char>)
    requires
        settled(s).contains(y),
    ensures
        !spec_needs_assignment(y),
        exists|i: int| 0 <= i < s.len() && s[i] == y,
    decreases s.len(),
{
    if s.len() > 0 {
        let p = settled(s.drop_last());
        if spec_needs_assignment(s.last()) {
            lemma_settled_from(s.drop_last(), y);
            let i = choose|i: int| 0 <= i < s.drop_last().len() && s.drop_last()[i] == y;
            assert(s[i] == y);
        } else {
            if p.contains(y) {
                lemma_settled_from(s.drop_last(), y);
                let i = choose|i: int| 0 <= i < s.drop_last().len() && s.drop_last()[i] == y;
                assert(s[i] == y);
            } else {
                let k = choose|k: int| 0 <= k < settled(s).len() && settled(s)[k] == y;
                assert(k == p.len());
                assert(s[s.len() - 1] == y);
            }
        }
    }
}

proof fn lemma_ff_fresh(c: Seq<char>, u: Seq<Seq<char>>, h: u32, max: u32)
    ensures
        first_free(c, u, h, max) matches Some(x) ==> !u.contains(x),
    decreases max - h,
{
    if h <= max && h < max {
        lemma_ff_fresh(c, u, (h + 1) as u32, max);
    }
}

proof fn lemma_ff_none(c: Seq<char>, u: Seq<Seq<char>>, u2: Seq<Seq<char>>, h: u32, max: u32)
    requires
        first_free(c, u, h, max) is None,
        forall|y: Seq<char>| u.contains(y) ==> u2.contains(y),
    ensures
        first_free(c, u2, h, max) is None,
    decreases max - h,
{
    if h <= max && h < max {
        if let Some(o) = spec_overlay_host(c, h) {
            if u.contains(o) {
                lemma_ff_none(c, u, u2, (h + 1) as u32, max);
            }
        }
    }
}

proof fn lemma_ff_some(c: Seq<char>, u: Seq<Seq<char>>, u2: Seq<Seq<char>>, h: u32, max: u32, x: Seq<char>)
    requires
        first_free(c, u, h, max) == Some(x),
        forall|y: Seq<char>| u.contains(y) ==> u2.contains(y),
        !u2.contains(x),
    ensures
        first_free(c, u2, h, max) == Some(x),
    decreases max - h,
{
    if h <= max && h < max {
        if let Some(o) = spec_overlay_host(c, h) {
            if u.contains(o) {
                lemma_ff_some(c, u, u2, (h + 1) as u32, max, x);
            }
        }
    }
}

/// What deduplication gives: as many values, the used addresses grown by
/// the settled ones, which are new and distinct.
proof fn lemma_dedup(bs: Seq<Seq<char>>, u1: Seq<Seq<char>>)
    ensures
        dedup_backends(bs, u1).0.len() == bs.len(),
        dedup_backends(bs, u1).1 == u1 + settled(dedup_backends(bs, u1).0),
        forall|i: int| 0 <= i < bs.len() && !spec_needs_assignment(#[trigger] dedup_backends(bs, u1).0[i]) ==> !u1.contains(dedup_backends(bs, u1).0[i]),
        forall|i: int, j: int| 0 <= j < i < bs.len() && !spec_needs_assignment(#[trigger] dedup_backends(bs, u1).0[i])
            && !spec_needs_assignment(#[trigger] dedup_backends(bs, u1).0[j]) ==> dedup_backends(bs, u1).0[i] != dedup_backends(bs, u1).0[j],
    decreases bs.len(),
{
    if bs.len() > 0 {
        lemma_dedup(bs.drop_last(), u1);
        let (p, u) = dedup_backends(bs.drop_last(), u1);
        let o = bs.last();
        let b = dedup_backends(bs, u1).0;
        assert(b.drop_last() =~= p);
        let ph: Seq<char> = "10.255.255.2/24"@;
        reveal_strlit("10.255.255.2/24");
        crate::text::lemma_trim_plain(ph);
        assert(spec_needs_assignment(ph));
        assert(settled(b).len() >= 0);
        if spec_needs_assignment(o) {
            assert(settled(b) == settled(p));
        } else if u.contains(o) {
            assert(b.last() == ph);
            assert(settled(b) == settled(p));
        } else {
            assert(settled(b) == settled(p).push(o));
            assert(u.push(o) =~= u1 + settled(p).push(o));
            assert forall|j: int| 0 <= j < p.len() && !spec_needs_assignment(p[j]) implies p[j] != o by {
                lemma_settled_has(p, j);
                assert(u.contains(p[j])) by {
                    let k = choose|k: int| 0 <= k < settled(p).len() && settled(p)[k] == p[j];
                    assert(u[u1.len() + k] == p[j]);
                }
            }
            assert(!u1.contains(o)) by {
                if u1.contains(o) {
                    let k = choose|k: int| 0 <= k < u1.len() && u1[k] == o;
                    assert(u[k] == o);
                }
            }
        }
        assert forall|i: int| 0 <= i < p.len() implies b[i] == p[i] by {}
    }
}

proof fn lemma_assign_prefix(s: Seq<Seq<char>>, u: Seq<Seq<char>>, c: Seq<char>, max: u32, k: int)
    requires
        0 <= k <= s.len(),
    ensures
        assign_backends(s, u, c, max).0.len() == s.len(),
        assign_backends(s, u, c, max).0.take(k) == assign_backends(s.take(k), u, c, max).0,
    decreases s.len(),
{
    if s.len() == 0 {
        assert(s.take(k) =~= s);
    } else if k == s.len() {
        lemma_assign_prefix(s.drop_last(), u, c, max, 0);
        assert(s.take(k) =~= s);
        assert(assign_backends(s, u, c, max).0.take(k) =~= assign_backends(s, u, c, max).0);
    } else {
        lemma_assign_prefix(s.drop_last(), u, c, max, k);
        assert(s.drop_last().take(k) =~= s.take(k));
        let prev = assign_backends(s.drop_last(), u, c, max).0;
        assert(assign_backends(s, u, c, max).0.take(k) =~= prev.take(k));
    }
}

pub open spec fn subset(a: Seq<Seq<char>>, b: Seq<Seq<char>>) -> bool {
    forall|y: Seq<char>| a.contains(y) ==> b.contains(y)
}

/// Facts of one assignment pass over deduplicated backends.
proof fn lemma_pass(b: Seq<Seq<char>>, u1: Seq<Seq<char>>, u2: Seq<Seq<char>>, c: Seq<char>, max: u32)
    requires
        subset(u1, u2),
        forall|i: int| 0 <= i < b.len() && !spec_needs_assignment(#[trigger] b[i]) ==> u2.contains(b[i]) && !u1.contains(b[i]),
        forall|i: int, j: int| 0 <= j < i < b.len() && !spec_needs_assignment(#[trigger] b[i]) && !spec_needs_assignment(#[trigger] b[j])
            ==> b[i] != b[j],
    ensures
        ({
            let (p, w) = assign_backends(b, u2, c, max);
            &&& p.len() == b.len()
            &&& subset(u2, w)
            &&& forall|j: int| 0 <= j < b.len() && !spec_needs_assignment(#[trigger] b[j]) ==> p[j] == b[j]
            &&& forall|j: int| 0 <= j < b.len() && !spec_needs_assignment(#[trigger] p[j]) ==> w.contains(p[j]) && !u1.contains(p[j])
            &&& forall|i: int, j: int| 0 <= i < j < b.len() && !spec_needs_assignment(#[trigger] p[i]) && !spec_needs_assignment(#[trigger] p[j])
                ==> p[i] != p[j]
            &&& forall|j: int| 0 <= j < b.len() && !spec_needs_assignment(#[trigger] p[j]) && spec_needs_assignment(b[j]) ==> !u2.contains(p[j])
        }),
    decreases b.len(),
{
    if b.len() > 0 {
        let bd = b.drop_last();
        assert forall|i: int| 0 <= i < bd.len() && !spec_needs_assignment(#[trigger] bd[i]) implies u2.contains(bd[i]) && !u1.contains(bd[i]) by {
            assert(bd[i] == b[i]);
        }
        assert forall|i: int, j: int| 0 <= j < i < bd.len() && !spec_needs_assignment(#[trigger] bd[i]) && !spec_needs_assignment(#[trigger] bd[j])
            implies bd[i] != bd[j] by {
            assert(bd[i] == b[i] && bd[j] == b[j]);
        }
        lemma_pass(bd, u1, u2, c, max);
        let (p0, w0) = assign_backends(bd, u2, c, max);
        let (p, w) = assign_backends(b, u2, c, max);
        let x = b.last();
        let n = b.len() - 1;
        assert(p.drop_last() =~= p0);
        assert forall|j: int| 0 <= j < n implies p[j] == p0[j] && b[j] == bd[j] by {}
        if !spec_needs_assignment(x) {
            assert(w == w0);
            assert(p[n] == x);
            assert forall|i: int| 0 <= i < n && !spec_needs_assignment(#[trigger] p[i]) implies p[i] != x by {
                assert(p[i] == p0[i]);
                if !spec_needs_assignment(b[i]) {
                    assert(p0[i] == bd[i]);
                } else {
                    assert(!u2.contains(p0[i]));
                }
            }
        } else {
            lemma_ff_fresh(c, w0, 2, max);
            match first_free(c, w0, 2, max) {
                Some(m) => {
                    assert(w == w0.push(m));
                    assert(p[n] == m);
                    assert forall|y: Seq<char>| w0.contains(y) implies w.contains(y) by {
                        let k = choose|k: int| 0 <= k < w0.len() && w0[k] == y;
                        assert(w[k] == y);
                    }
                    assert(w[w0.len() as int] == m);
                    assert forall|i: int| 0 <= i < n && !spec_needs_assignment(#[trigger] p[i]) implies p[i] != m by {
                        assert(p[i] == p0[i]);
                        assert(w0.contains(p0[i]));
                    }
                    assert(!u1.contains(m));
                    assert(!u2.contains(m));
                },
                None => {
                    assert(w == w0);
                    assert(p[n] == x);
                },
            }
        }
    }
}

proof fn lemma_concat_contains(a: Seq<Seq<char>>, b: Seq<Seq<char>>, y: Seq<char>)
    ensures
        (a + b).contains(y) <==> (a.contains(y) || b.contains(y)),
{
    if (a + b).contains(y) {
        let k = choose|k: int| 0 <= k < (a + b).len() && (a + b)[k] == y;
        if k < a.len() {
            assert(a[k] == y);
        } else {
            assert(b[k - a.len()] == y);
        }
    }
    if a.contains(y) {
        let k = choose|k: int| 0 <= k < a.len() && a[k] == y;
        assert((a + b)[k] == y);
    }
    if b.contains(y) {
        let k = choose|k: int| 0 <= k < b.len() && b[k] == y;
        assert((a + b)[a.len() + k] == y);
    }
}

/// Deduplicating values whose settled ones are new and distinct keeps them
/// all.
proof fn lemma_dedup_keeps(r: Seq<Seq<char>>, u1: Seq<Seq<char>>)
    requires
        forall|j: int| 0 <= j < r.len() && !spec_needs_assignment(#[trigger] r[j]) ==> !u1.contains(r[j]),
        forall|i: int, j: int| 0 <= i < j < r.len() && !spec_needs_assignment(#[trigger] r[i]) && !spec_needs_assignment(#[trigger] r[j])
            ==> r[i] != r[j],
    ensures
        dedup_backends(r, u1) == (r, u1 + settled(r)),
    decreases r.len(),
{
    if r.len() == 0 {
        assert(u1 + settled(r) =~= u1);
    } else {
        let rd = r.drop_last();
        assert forall|j: int| 0 <= j < rd.len() && !spec_needs_assignment(#[trigger] rd[j]) implies !u1.contains(rd[j]) by {
            assert(rd[j] == r[j]);
        }
        assert forall|i: int, j: int| 0 <= i < j < rd.len() && !spec_needs_assignment(#[trigger] rd[i]) && !spec_needs_assignment(#[trigger] rd[j])
            implies rd[i] != rd[j] by {
            assert(rd[i] == r[i] && rd[j] == r[j]);
        }
        lemma_dedup_keeps(rd, u1);
        let o = r.last();
        assert(rd.push(o) =~= r);
        if !spec_needs_assignment(o) {
            let u = u1 + settled(rd);
            assert(!u.contains(o)) by {
                lemma_concat_contains(u1, settled(rd), o);
                if settled(rd).contains(o) {
                    lemma_settled_from(rd, o);
                    let i = choose|i: int| 0 <= i < rd.len() && rd[i] == o;
                    assert(r[i] == rd[i]);
                    assert(r[r.len() - 1] == o);
                }
            }
            assert(u.push(o) =~= u1 + settled(r));
        }
    }
}

/// The second pass over the first pass's result assigns the same addresses.
proof fn lemma_second_pass(b: Seq<Seq<char>>, u1: Seq<Seq<char>>, u2: Seq<Seq<char>>, c: Seq<char>, max: u32, k: int)
    requires
        0 <= k <= b.len(),
        subset(u1, u2),
        forall|i: int| 0 <= i < b.len() && !spec_needs_assignment(#[trigger] b[i]) ==> u2.contains(b[i]) && !u1.contains(b[i]),
        forall|i: int, j: int| 0 <= j < i < b.len() && !spec_needs_assignment(#[trigger] b[i]) && !spec_needs_assignment(#[trigger] b[j])
            ==> b[i] != b[j],
        subset(u2, u1 + settled(assign_backends(b, u2, c, max).0)),
    ensures
        ({
            let r = assign_backends(b, u2, c, max).0;
            let u2p = u1 + settled(r);
            let (p2, w2) = assign_backends(r.take(k), u2p, c, max);
            let (p1, w1) = assign_backends(b.take(k), u2, c, max);
            &&& p2 == p1
            &&& subset(w1, w2)
            &&& forall|y: Seq<char>| w2.contains(y) ==> w1.contains(y) || settled(r).contains(y)
            &&& subset(u2p, w2)
        }),
    decreases k,
{
    let r = assign_backends(b, u2, c, max).0;
    let u2p = u1 + settled(r);
    lemma_pass(b, u1, u2, c, max);
    if k == 0 {
        assert(r.take(0) =~= Seq::<Seq<char>>::empty());
        assert(b.take(0) =~= Seq::<Seq<char>>::empty());
        assert forall|y: Seq<char>| u2p.contains(y) implies u2.contains(y) || settled(r).contains(y) by {
            lemma_concat_contains(u1, settled(r), y);
        }
    } else {
        lemma_second_pass(b, u1, u2, c, max, k - 1);
        let (p2, w2) = assign_backends(r.take(k - 1), u2p, c, max);
        let (p1, w1) = assign_backends(b.take(k - 1), u2, c, max);
        assert(r.take(k).drop_last() =~= r.take(k - 1));
        assert(b.take(k).drop_last() =~= b.take(k - 1));
        lemma_assign_prefix(b, u2, c, max, k);
        let q = assign_backends(b.take(k), u2, c, max);
        assert(r.take(k) == q.0);
        let x = b[k - 1];
        assert(b.take(k).last() == x);
        let rk = r[k - 1];
        assert(r.take(k).last() == rk);
        assert(q.0[k - 1] == rk);
        if !spec_needs_assignment(x) {
            assert(rk == x);
        } else {
            lemma_ff_fresh(c, w1, 2, max);
            match first_free(c, w1, 2, max) {
                Some(m) => {
                    assert(rk == m);
                    if !spec_needs_assignment(m) {
                        lemma_settled_has(r, k - 1);
                        lemma_concat_contains(u1, settled(r), m);
                        assert(w2.contains(m));
                        assert forall|y: Seq<char>| w1.push(m).contains(y) implies w2.contains(y) by {
                            if y != m {
                                let t = choose|t: int| 0 <= t < w1.push(m).len() && w1.push(m)[t] == y;
                                assert(w1[t] == y);
                            }
                        }
                        assert forall|y: Seq<char>| w2.contains(y) implies w1.push(m).contains(y) || settled(r).contains(y) by {
                            if w1.contains(y) {
                                let t = choose|t: int| 0 <= t < w1.len() && w1[t] == y;
                                assert(w1.push(m)[t] == y);
                            }
                        }
                    } else {
                        assert(!w2.contains(m)) by {
                            if w2.contains(m) {
                                if settled(r).contains(m) {
                                    lemma_settled_from(r, m);
                                }
                            }
                        }
                        lemma_ff_some(c, w1, w2, 2, max, m);
                        assert forall|y: Seq<char>| w1.push(m).contains(y) implies w2.push(m).contains(y) by {
                            let t = choose|t: int| 0 <= t < w1.push(m).len() && w1.push(m)[t] == y;
                            if t < w1.len() {
                                assert(w1[t] == y);
                                assert(w2.contains(y));
                                let t2 = choose|t2: int| 0 <= t2 < w2.len() && w2[t2] == y;
                                assert(w2.push(m)[t2] == y);
                            } else {
                                assert(w2.push(m)[w2.len() as int] == y);
                            }
                        }
                        assert forall|y: Seq<char>| w2.push(m).contains(y) implies w1.push(m).contains(y) || settled(r).contains(y) by {
                            let t = choose|t: int| 0 <= t < w2.push(m).len() && w2.push(m)[t] == y;
                            if t < w2.len() {
                                assert(w2[t] == y);
                                if w1.contains(y) {
                                    let t1 = choose|t1: int| 0 <= t1 < w1.len() && w1[t1] == y;
                                    assert(w1.push(m)[t1] == y);
                                }
                            } else {
                                assert(w1.push(m)[w1.len() as int] == y);
                            }
                        }
                        assert forall|y: Seq<char>| u2p.contains(y) implies w2.push(m).contains(y) by {
                            let t2 = choose|t2: int| 0 <= t2 < w2.len() && w2[t2] == y;
                            assert(w2.push(m)[t2] == y);
                        }
                    }
                },
                None => {
                    assert(rk == x);
                    lemma_ff_none(c, w1, w2, 2, max);
                },
            }
        }
    }
}

/// Law: assigning overlay addresses again changes nothing, whether the
/// gateways are given as before or with the addresses just assigned.
pub proof fn assignment_is_stable(c: Seq<char>, gws: Seq<Seq<char>>, local: Seq<char>, bes: Seq<Seq<char>>)
    ensures
        ({
            let a = spec_assign(c, gws, local, bes);
            &&& spec_assign(c, gws, local, a.2) == a
            &&& spec_assign(c, a.0, a.1, a.2) == a
        }),
{
    let (g2, l2, u1) = phase_gateways(c, gws, local);
    let (b2, u2) = dedup_backends(bes, u1);
    let max = (bes.len() + gws.len() + 256) as u32;
    lemma_dedup(bes, u1);
    assert forall|i: int| 0 <= i < b2.len() && !spec_needs_assignment(#[trigger] b2[i]) implies u2.contains(b2[i]) && !u1.contains(b2[i]) by {
        lemma_settled_has(b2, i);
        lemma_concat_contains(u1, settled(b2), b2[i]);
    }
    assert forall|y: Seq<char>| u1.contains(y) implies u2.contains(y) by {
        lemma_concat_contains(u1, settled(b2), y);
    }
    lemma_pass(b2, u1, u2, c, max);
    let r = assign_backends(b2, u2, c, max).0;
    assert forall|y: Seq<char>| u2.contains(y) implies (u1 + settled(r)).contains(y) by {
        lemma_concat_contains(u1, settled(b2), y);
        lemma_concat_contains(u1, settled(r), y);
        if settled(b2).contains(y) {
            lemma_settled_from(b2, y);
            let i = choose|i: int| 0 <= i < b2.len() && b2[i] == y;
            lemma_settled_has(r, i);
        }
    }
    lemma_second_pass(b2, u1, u2, c, max, b2.len() as int);
    assert(r.take(b2.len() as int) =~= r);
    assert(b2.take(b2.len() as int) =~= b2);
    lemma_dedup_keeps(r, u1);
    assert(r.len() == bes.len());
    // the gateways' phase gives the same result from the assigned gateways
    match spec_overlay_host(c, 1) {
        Some(g) => {
            let g3 = g2.map_values(|o: Seq<char>| if spec_needs_assignment(o) { g } else { o });
            assert(g3 =~= g2);
        },
        None => {},
    }
    assert(phase_gateways(c, g2, l2) == phase_gateways(c, gws, local));
}

/// Assignment keeps the number of gateways and of backends.
pub proof fn assignment_lengths(c: Seq<char>, gws: Seq<Seq<char>>, local: Seq<char>, bes: Seq<Seq<char>>)
    ensures
        spec_assign(c, gws, local, bes).0.len() == gws.len(),
        spec_assign(c, gws, local, bes).2.len() == bes.len(),
{
    let (g2, l2, u1) = phase_gateways(c, gws, local);
    let (b2, u2) = dedup_backends(bes, u1);
    lemma_dedup(bes, u1);
    lemma_assign_prefix(b2, u2, c, (bes.len() + gws.len() + 256) as u32, 0);
}

} // verus!
