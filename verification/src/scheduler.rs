//! Endpoint selectors of the native datapath: weighted, hash-slot, persistent
//! source-IP and round-robin selection over a service's endpoint slots.
//!
//! A slot is eligible when it is active and has a positive weight. Slots are
//! paired with weights positionally, as far as both lists reach.

use vstd::prelude::*;

verus! {

/// Number of slots that have both an activity flag and a weight.
pub open spec fn paired_len(weights: Seq<u16>, active: Seq<bool>) -> int {
    if weights.len() < active.len() {
        weights.len() as int
    } else {
        active.len() as int
    }
}

/// A slot can receive traffic: it is active and carries a positive weight.
pub open spec fn eligible(weights: Seq<u16>, active: Seq<bool>, i: int) -> bool {
    0 <= i < weights.len() && i < active.len() && active[i] && weights[i] > 0
}

/// Sum of the weights of the active slots before `i`.
pub open spec fn weight_prefix(weights: Seq<u16>, active: Seq<bool>, i: int) -> int
    decreases i,
{
    if i <= 0 {
        0
    } else {
        weight_prefix(weights, active, i - 1) + if active[i - 1] {
            weights[i - 1] as int
        } else {
            0
        }
    }
}

/// Total active weight of the paired slots.
pub open spec fn weight_total(weights: Seq<u16>, active: Seq<bool>) -> int {
    weight_prefix(weights, active, paired_len(weights, active))
}

/// The first eligible slot below `n`, or nothing: stated without a choice.
pub open spec fn is_first_eligible(weights: Seq<u16>, active: Seq<bool>, n: int, r: Option<usize>) -> bool {
    match r {
        Some(i) => 0 <= i < n && eligible(weights, active, i as int) && forall|j: int| 0 <= j < i ==> !eligible(weights, active, j),
        None => forall|j: int| 0 <= j < n ==> !eligible(weights, active, j),
    }
}

proof fn lemma_prefix_monotone(weights: Seq<u16>, active: Seq<bool>, i: int, j: int)
    requires
        0 <= i <= j,
    ensures
        weight_prefix(weights, active, i) <= weight_prefix(weights, active, j),
    decreases j - i,
{
    if i < j {
        lemma_prefix_monotone(weights, active, i, j - 1);
    }
}

/// Weighted selection: the seed, reduced modulo the total active weight,
/// falls into exactly one eligible slot's weight range.
pub fn weighted_pick(seed: u32, weights: &[u16], active: &[bool]) -> (r: Option<usize>)
    requires
        weight_total(weights@, active@) <= u32::MAX,
    ensures
        weight_total(weights@, active@) == 0 ==> r is None,
        weight_total(weights@, active@) > 0 ==> r is Some,
        r matches Some(i) ==> {
            &&& i < paired_len(weights@, active@)
            &&& eligible(weights@, active@, i as int)
            &&& weight_prefix(weights@, active@, i as int) <= (seed as int) % weight_total(weights@, active@)
            &&& (seed as int) % weight_total(weights@, active@) < weight_prefix(weights@, active@, i as int) + weights@[i as int]
        },
{
    let n: usize = if weights.len() < active.len() {
        weights.len()
    } else {
        active.len()
    };
    let ghost w = weights@;
    let ghost a = active@;
    let mut total: u32 = 0;
    let mut i: usize = 0;
    while i < n
        invariant
            n == paired_len(w, a),
            w == weights@,
            a == active@,
            0 <= i <= n,
            total as int == weight_prefix(w, a, i as int),
            weight_total(w, a) <= u32::MAX,
        decreases n - i,
    {
        proof {
            lemma_prefix_monotone(w, a, i as int + 1, n as int);
        }
        if active[i] {
            total = total + weights[i] as u32;
        }
        i = i + 1;
    }
    if total == 0 {
        return None;
    }
    let target: u32 = seed % total;
    let mut cursor: u32 = target;
    let mut index: usize = 0;
    while index < n
        invariant
            n == paired_len(w, a),
            w == weights@,
            a == active@,
            0 <= index <= n,
            total as int == weight_total(w, a),
            total > 0,
            target as int == (seed as int) % (total as int),
            cursor as int == target as int - weight_prefix(w, a, index as int),
        decreases n - index,
    {
        if active[index] && weights[index] > 0 {
            if cursor < weights[index] as u32 {
                return Some(index);
            }
            cursor = cursor - weights[index] as u32;
        }
        index = index + 1;
    }
    proof {
        assert(target < total);
    }
    None
}

/// Hash-slot selection: the seed picks a slot directly; when it cannot take
/// traffic the first eligible slot is used instead.
pub fn slot_pick(seed: u32, weights: &[u16], active: &[bool]) -> (r: Option<usize>)
    requires
        active@.len() > 0 && active@[(seed as int) % (active@.len() as int)] ==> (seed as int)
            % (active@.len() as int) < weights@.len(),
    ensures
        active@.len() == 0 ==> r is None,
        active@.len() > 0 ==> {
            let primary = (seed as int) % (active@.len() as int);
            if eligible(weights@, active@, primary) {
                r == Some(primary as usize)
            } else {
                is_first_eligible(weights@, active@, paired_len(weights@, active@), r)
            }
        },
{
    if active.len() == 0 {
        return None;
    }
    let primary: usize = seed as usize % active.len();
    if active[primary] && weights[primary] > 0 {
        return Some(primary);
    }
    first_eligible_slot(weights, active)
}

/// Position of the first eligible slot among the paired slots.
pub fn first_eligible_slot(weights: &[u16], active: &[bool]) -> (r: Option<usize>)
    ensures
        is_first_eligible(weights@, active@, paired_len(weights@, active@), r),
{
    let n: usize = if weights.len() < active.len() {
        weights.len()
    } else {
        active.len()
    };
    let mut i: usize = 0;
    while i < n
        invariant
            n == paired_len(weights@, active@),
            0 <= i <= n,
            forall|j: int| 0 <= j < i ==> !eligible(weights@, active@, j),
        decreases n - i,
    {
        if active[i] && weights[i] > 0 {
            return Some(i);
        }
        i = i + 1;
    }
    None
}

/// Primary persistence slot seed: low and high octets of the client address.
pub open spec fn persist_primary_seed(client_ip: u32) -> u32 {
    (client_ip & 0xff) ^ ((client_ip >> 24u32) & 0xff)
}

/// Secondary persistence slot seed: the two middle octets of the client address.
pub open spec fn persist_secondary_seed(client_ip: u32) -> u32 {
    ((client_ip >> 8u32) & 0xff) ^ ((client_ip >> 16u32) & 0xff)
}

/// Persistent source-IP selection: the client address alone (never the
/// transport port) chooses a primary slot, then a secondary one, then the
/// first eligible slot.
pub fn persist_pick(client_ip: u32, weights: &[u16], active: &[bool]) -> (r: Option<usize>)
    requires
        active@.len() > 0 ==> {
            let p = (persist_primary_seed(client_ip) as int) % (active@.len() as int);
            let s = (persist_secondary_seed(client_ip) as int) % (active@.len() as int);
            &&& (active@[p] ==> p < weights@.len())
            &&& (!eligible(weights@, active@, p) && active@[s] ==> s < weights@.len())
        },
    ensures
        active@.len() == 0 ==> r is None,
        active@.len() > 0 ==> {
            let p = (persist_primary_seed(client_ip) as int) % (active@.len() as int);
            let s = (persist_secondary_seed(client_ip) as int) % (active@.len() as int);
            if eligible(weights@, active@, p) {
                r == Some(p as usize)
            } else if eligible(weights@, active@, s) {
                r == Some(s as usize)
            } else {
                is_first_eligible(weights@, active@, paired_len(weights@, active@), r)
            }
        },
{
    if active.len() == 0 {
        return None;
    }
    let primary: usize = ((client_ip & 0xff) ^ ((client_ip >> 24u32) & 0xff)) as usize
        % active.len();
    if active[primary] && weights[primary] > 0 {
        return Some(primary);
    }
    let secondary: usize = (((client_ip >> 8u32) & 0xff) ^ ((client_ip >> 16u32) & 0xff)) as usize
        % active.len();
    if active[secondary] && weights[secondary] > 0 {
        return Some(secondary);
    }
    first_eligible_slot(weights, active)
}

/// Slot visited at step `offset` of a round-robin scan starting at `cursor`.
pub open spec fn rr_slot(cursor: u32, offset: int, n: int) -> int {
    (cursor as int + offset) % n
}

/// Round-robin selection: scan the slots starting at the cursor and take the
/// first eligible one.
pub fn rr_pick(cursor: u32, weights: &[u16], active: &[bool]) -> (r: Option<usize>)
    requires
        forall|i: int| 0 <= i < active@.len() && active@[i] ==> i < weights@.len(),
        cursor as int + active@.len() <= usize::MAX,
    ensures
        r is None <==> forall|k: int| 0 <= k < active@.len() ==> !eligible(weights@, active@, rr_slot(cursor, k, active@.len() as int)),
        r matches Some(i) ==> exists|k: int| #![trigger rr_slot(cursor, k, active@.len() as int)]
            0 <= k < active@.len() && i == rr_slot(cursor, k, active@.len() as int)
                && eligible(weights@, active@, i as int)
                && forall|k2: int| 0 <= k2 < k ==> !eligible(weights@, active@, rr_slot(cursor, k2, active@.len() as int)),
{
    let n: usize = active.len();
    if n == 0 {
        return None;
    }
    let mut offset: usize = 0;
    while offset < n
        invariant
            n == active@.len(),
            n > 0,
            0 <= offset <= n,
            cursor as int + n <= usize::MAX,
            forall|i: int| 0 <= i < active@.len() && active@[i] ==> i < weights@.len(),
            forall|k: int| 0 <= k < offset ==> !eligible(weights@, active@, rr_slot(cursor, k, n as int)),
        decreases n - offset,
    {
        let index: usize = (cursor as usize + offset) % n;
        assert(index as int == rr_slot(cursor, offset as int, n as int));
        if active[index] && weights[index] > 0 {
            return Some(index);
        }
        offset = offset + 1;
    }
    None
}

} // verus!
