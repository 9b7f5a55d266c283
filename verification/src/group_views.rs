//! The health the API shows for target groups: a state per backend and
//! one for the group, from the observed health records.

use vstd::prelude::*;
use crate::config::{Listener, TargetGroup};
use crate::health::{TargetHealthEntry, spec_health_matches_group, spec_normalize_health_state};
use crate::probe_schedule::opt_text;
use crate::overlay::texts;

verus! {

/// A listener forwards to the group.
pub open spec fn referenced(listeners: Seq<Listener>, group: TargetGroup) -> bool {
    exists|i: int| 0 <= i < listeners.len() && (#[trigger] listeners[i]).target_group@ == group.name@
}

/// The first health record of an address that belongs to the group.
pub open spec fn first_record(listeners: Seq<Listener>, group: TargetGroup, health: Seq<TargetHealthEntry>, address: Seq<char>, from: int) -> Option<int>
    decreases health.len() - from,
{
    if from < 0 || from >= health.len() {
        None
    } else if health[from].host_name@ == address && spec_health_matches_group(listeners, group, health[from]) {
        Some(from)
    } else {
        first_record(listeners, group, health, address, from + 1)
    }
}

/// The state shown for a backend address of a group: `unassociated` when
/// no listener uses the group; else the normalized observed state of its
/// first matching record, `nok` without one.
pub open spec fn target_state(listeners: Seq<Listener>, group: TargetGroup, health: Seq<TargetHealthEntry>, address: Seq<char>) -> Seq<char> {
    if !referenced(listeners, group) {
        "unassociated"@
    } else {
        match first_record(listeners, group, health, address, 0) {
            Some(i) => match opt_text(health[i].current_state) {
                Some(s) => spec_normalize_health_state(s),
                None => "nok"@,
            },
            None => "nok"@,
        }
    }
}

/// The state shown for a group: `unassociated` when no listener uses it,
/// `ok` when it has backends and all are `ok`, else `nok`.
pub open spec fn group_state(listeners: Seq<Listener>, group: TargetGroup, states: Seq<Seq<char>>) -> Seq<char> {
    if !referenced(listeners, group) {
        "unassociated"@
    } else if states.len() > 0 && forall|i: int| 0 <= i < states.len() ==> #[trigger] states[i] == "ok"@ {
        "ok"@
    } else {
        "nok"@
    }
}

/// A target group with the health the API shows.
#[derive(Clone, Debug, PartialEq, Eq)]
pub struct TargetGroupView {
    pub group: TargetGroup,
    /// The state of each backend, in the group's order.
    pub target_health: Vec<String>,
    pub health: String,
}

fn is_referenced(listeners: &Vec<Listener>, group: &TargetGroup) -> (r: bool)
    ensures
        r == referenced(listeners@, *group),
{
    let mut i: usize = 0;
    while i < listeners.len()
        invariant
            i <= listeners@.len(),
            forall|j: int| 0 <= j < i ==> (#[trigger] listeners@[j]).target_group@ != group.name@,
        decreases listeners@.len() - i,
    {
        if crate::registry::same_name(listeners[i].target_group.as_str(), group.name.as_str()) {
            return true;
        }
        i = i + 1;
    }
    false
}

pub fn target_state_of(listeners: &Vec<Listener>, group: &TargetGroup, health: &Vec<TargetHealthEntry>, address: &str) -> (r: String)
    ensures
        r@ == target_state(listeners@, *group, health@, address@),
{
    if !is_referenced(listeners, group) {
        return "unassociated".to_string();
    }
    let mut i: usize = 0;
    while i < health.len()
        invariant
            i <= health@.len(),
            referenced(listeners@, *group),
            first_record(listeners@, *group, health@, address@, 0) == first_record(listeners@, *group, health@, address@, i as int),
        decreases health@.len() - i,
    {
        let e = &health[i];
        assert(*e == health@[i as int]);
        if crate::registry::same_name(e.host_name.as_str(), address) && crate::health::health_matches_group(listeners.as_slice(), group, e) {
            return match &e.current_state {
                Some(s) => crate::health::normalize_health_state(s.as_str()),
                None => "nok".to_string(),
            };
        }
        i = i + 1;
    }
    "nok".to_string()
}

/// The states of the backends of one group and of the group.
fn group_states(group: &TargetGroup, listeners: &Vec<Listener>, health: &Vec<TargetHealthEntry>, addrs: &Vec<String>) -> (r: (Vec<String>, String))
    requires
        addrs@.len() == group.targets@.len(),
    ensures
        r.0@.len() == group.targets@.len(),
        forall|t: int| 0 <= t < r.0@.len() ==> (#[trigger] r.0@[t])@ == target_state(listeners@, *group, health@, addrs@[t]@),
        r.1@ == group_state(listeners@, *group, texts(r.0@)),
{
    let mut states: Vec<String> = Vec::new();
    let mut all_ok = true;
    let mut t: usize = 0;
    while t < addrs.len()
        invariant
            t <= addrs@.len(),
            states@.len() == t,
            forall|u: int| 0 <= u < t ==> (#[trigger] states@[u])@ == target_state(listeners@, *group, health@, addrs@[u]@),
            all_ok == forall|u: int| 0 <= u < t ==> (#[trigger] states@[u])@ == "ok"@,
        decreases addrs@.len() - t,
    {
        let st = target_state_of(listeners, group, health, addrs[t].as_str());
        let is_ok = crate::registry::same_name(st.as_str(), "ok");
        let ghost before = states@;
        let ghost was_ok = all_ok;
        all_ok = all_ok && is_ok;
        states.push(st);
        proof {
            assert(states@[t as int] == st);
            assert forall|u: int| 0 <= u < t implies states@[u] == before[u] by {}
            if all_ok {
                assert forall|u: int| 0 <= u < t + 1 implies (#[trigger] states@[u])@ == "ok"@ by {
                    if u < t {
                        assert(before[u]@ == "ok"@);
                    }
                }
            } else {
                if !is_ok {
                    assert(!((states@[t as int])@ == "ok"@));
                } else {
                    let u = choose|u: int| 0 <= u < t && !((#[trigger] before[u])@ == "ok"@);
                    assert(states@[u] == before[u]);
                }
            }
        }
        t = t + 1;
    }
    let referenced_now = is_referenced(listeners, group);
    proof {
        assert(texts(states@).len() == states@.len());
        assert forall|u: int| 0 <= u < states@.len() implies texts(states@)[u] == states@[u]@ by {}
        if referenced_now && states@.len() > 0 {
            if all_ok {
                assert forall|u: int| 0 <= u < texts(states@).len() implies #[trigger] texts(states@)[u] == "ok"@ by {
                    assert(states@[u]@ == "ok"@);
                }
            } else {
                let u = choose|u: int| 0 <= u < states@.len() && !((#[trigger] states@[u])@ == "ok"@);
                assert(texts(states@)[u] != "ok"@);
            }
        }
    }
    let health_text = if !referenced_now {
        "unassociated".to_string()
    } else if states.len() > 0 && all_ok {
        "ok".to_string()
    } else {
        "nok".to_string()
    };
    (states, health_text)
}

/// Each target group with the state of each backend and of the group;
/// `resolved[g]` are the resolved addresses of the backends of `groups[g]`.
pub fn target_group_views(groups: Vec<TargetGroup>, listeners: &Vec<Listener>, health: &Vec<TargetHealthEntry>, resolved: &Vec<Vec<String>>) -> (r: Vec<TargetGroupView>)
    requires
        resolved@.len() == groups@.len(),
        forall|g: int| 0 <= g < groups@.len() ==> (#[trigger] resolved@[g])@.len() == groups@[g].targets@.len(),
    ensures
        r@.len() == groups@.len(),
        forall|g: int| 0 <= g < r@.len() ==> {
            let v = #[trigger] r@[g];
            &&& v.group == groups@[g]
            &&& v.target_health@.len() == groups@[g].targets@.len()
            &&& forall|t: int| 0 <= t < v.target_health@.len() ==> (#[trigger] v.target_health@[t])@ == target_state(listeners@, groups@[g], health@, resolved@[g]@[t]@)
            &&& v.health@ == group_state(listeners@, groups@[g], texts(v.target_health@))
        },
{
    let ghost all = groups@;
    let mut rest = groups;
    let mut reversed: Vec<TargetGroup> = Vec::new();
    while rest.len() > 0
        invariant
            reversed@.len() + rest@.len() == all.len(),
            rest@ == all.take(rest@.len() as int),
            forall|j: int| 0 <= j < reversed@.len() ==> #[trigger] reversed@[j] == all[all.len() - 1 - j],
        decreases rest@.len(),
    {
        let t = rest.pop().unwrap();
        reversed.push(t);
        assert(rest@ =~= all.take(rest@.len() as int));
    }
    let mut out: Vec<TargetGroupView> = Vec::new();
    let mut g: usize = 0;
    let n = resolved.len();
    while reversed.len() > 0
        invariant
            reversed@.len() + g == all.len(),
            all.len() == resolved@.len(),
            n == resolved@.len(),
            resolved@.len() == all.len(),
            forall|k: int| 0 <= k < all.len() ==> (#[trigger] resolved@[k])@.len() == all[k].targets@.len(),
            forall|j: int| 0 <= j < reversed@.len() ==> #[trigger] reversed@[j] == all[all.len() - 1 - j],
            out@.len() == g,
            forall|k: int| 0 <= k < g ==> {
                let v = #[trigger] out@[k];
                &&& v.group == all[k]
                &&& v.target_health@.len() == all[k].targets@.len()
                &&& forall|t: int| 0 <= t < v.target_health@.len() ==> (#[trigger] v.target_health@[t])@ == target_state(listeners@, all[k], health@, resolved@[k]@[t]@)
                &&& v.health@ == group_state(listeners@, all[k], texts(v.target_health@))
            },
        decreases reversed@.len(),
    {
        let group = reversed.pop().unwrap();
        assert(group == all[g as int]);
        let (states, health_text) = group_states(&group, listeners, health, &resolved[g]);
        out.push(TargetGroupView { group, target_health: states, health: health_text });
        g = g + 1;
    }
    out
}

} // verus!
