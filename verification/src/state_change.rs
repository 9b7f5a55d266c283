//! Whether storing the native proxy state changed it: the stored state and
//! the new one are compared field by field, and only a change marks the
//! datapath for a refresh.

use vstd::prelude::*;
use crate::health::{TargetHealthEntry, HealthProbeConfig};
use crate::native_store::{NativeProxyState, RuntimeRuleStateEntry, RuntimeRuleSpec, RuntimeRuleTarget, StateDirty, marked};
use crate::native_state::{HealthView, health_view, health_views, stored_listener, stored_entry, norm_vips};
use crate::overlay::texts;
use crate::probe_schedule::opt_text;
use crate::text::{chars_of, chars_eq};

verus! {

/// The settings of a stored listener by value.
pub struct SpecView {
    pub vip_ips: Seq<Seq<char>>,
    pub port: u16,
    pub protocol: Seq<char>,
    pub sel: u32,
    pub mode: u32,
    pub bgp: bool,
    pub monitor: bool,
    pub probetype: Option<Seq<char>>,
    pub probeport: Option<u16>,
    pub probereq: Option<Seq<char>>,
    pub proberesp: Option<Seq<char>>,
    pub probe_timeout: Option<u32>,
    pub probe_retries: Option<u32>,
    pub inactive_timeout: u32,
    pub block: u32,
    pub name: Option<Seq<char>>,
    pub security: Option<u32>,
    pub host: Option<Seq<char>>,
    pub proxyprotocolv2: bool,
    pub egress: bool,
}

pub open spec fn spec_view(s: RuntimeRuleSpec) -> SpecView {
    SpecView {
        vip_ips: texts(s.vip_ips@),
        port: s.port,
        protocol: s.protocol@,
        sel: s.sel,
        mode: s.mode,
        bgp: s.bgp,
        monitor: s.monitor,
        probetype: opt_text(s.probetype),
        probeport: s.probeport,
        probereq: opt_text(s.probereq),
        proberesp: opt_text(s.proberesp),
        probe_timeout: s.probe_timeout,
        probe_retries: s.probe_retries,
        inactive_timeout: s.inactive_timeout,
        block: s.block,
        name: opt_text(s.name),
        security: s.security,
        host: opt_text(s.host),
        proxyprotocolv2: s.proxyprotocolv2,
        egress: s.egress,
    }
}

pub type TargetView = (Seq<char>, u16, u32, Option<Seq<char>>, Option<Seq<char>>);

pub open spec fn target_view(t: RuntimeRuleTarget) -> TargetView {
    (t.address@, t.target_port, t.weight, opt_text(t.state), opt_text(t.counter))
}

/// A stored listener by value: settings, backends, protocols.
pub open spec fn entry_view(e: RuntimeRuleStateEntry) -> (SpecView, Seq<TargetView>, Seq<Seq<char>>) {
    (spec_view(e.spec), e.targets@.map_values(|t: RuntimeRuleTarget| target_view(t)), texts(e.protocols@))
}

/// The native proxy state by value: every field of every listener and
/// health record.
pub open spec fn state_view(s: NativeProxyState) -> (Seq<(SpecView, Seq<TargetView>, Seq<Seq<char>>)>, Seq<HealthView>) {
    (s.listeners@.map_values(|e: RuntimeRuleStateEntry| entry_view(e)), health_views(s.target_health@))
}

fn text_eq(a: &String, b: &String) -> (r: bool)
    ensures
        r == (a@ == b@),
{
    chars_eq(&chars_of(a.as_str()), &chars_of(b.as_str()))
}

fn opt_eq(a: &Option<String>, b: &Option<String>) -> (r: bool)
    ensures
        r == (opt_text(*a) == opt_text(*b)),
{
    match (a, b) {
        (Some(x), Some(y)) => text_eq(x, y),
        (None, None) => true,
        _ => false,
    }
}

fn texts_eq(a: &Vec<String>, b: &Vec<String>) -> (r: bool)
    ensures
        r == (texts(a@) == texts(b@)),
{
    if a.len() != b.len() {
        assert(texts(a@).len() != texts(b@).len());
        return false;
    }
    let mut i: usize = 0;
    while i < a.len()
        invariant
            0 <= i <= a@.len(),
            a@.len() == b@.len(),
            forall|j: int| 0 <= j < i ==> a@[j]@ == b@[j]@,
        decreases a@.len() - i,
    {
        if !text_eq(&a[i], &b[i]) {
            assert(texts(a@)[i as int] != texts(b@)[i as int]);
            return false;
        }
        i = i + 1;
    }
    assert(texts(a@) =~= texts(b@));
    true
}

fn spec_eq(a: &RuntimeRuleSpec, b: &RuntimeRuleSpec) -> (r: bool)
    ensures
        r == (spec_view(*a) == spec_view(*b)),
{
    texts_eq(&a.vip_ips, &b.vip_ips) && a.port == b.port && text_eq(&a.protocol, &b.protocol) && a.sel == b.sel
        && a.mode == b.mode && a.bgp == b.bgp && a.monitor == b.monitor && opt_eq(&a.probetype, &b.probetype)
        && a.probeport == b.probeport && opt_eq(&a.probereq, &b.probereq) && opt_eq(&a.proberesp, &b.proberesp)
        && a.probe_timeout == b.probe_timeout && a.probe_retries == b.probe_retries
        && a.inactive_timeout == b.inactive_timeout && a.block == b.block && opt_eq(&a.name, &b.name)
        && a.security == b.security && opt_eq(&a.host, &b.host) && a.proxyprotocolv2 == b.proxyprotocolv2
        && a.egress == b.egress
}

fn target_eq(a: &RuntimeRuleTarget, b: &RuntimeRuleTarget) -> (r: bool)
    ensures
        r == (target_view(*a) == target_view(*b)),
{
    text_eq(&a.address, &b.address) && a.target_port == b.target_port && a.weight == b.weight
        && opt_eq(&a.state, &b.state) && opt_eq(&a.counter, &b.counter)
}

fn entry_eq(a: &RuntimeRuleStateEntry, b: &RuntimeRuleStateEntry) -> (r: bool)
    ensures
        r == (entry_view(*a) == entry_view(*b)),
{
    let ghost ta = a.targets@.map_values(|t: RuntimeRuleTarget| target_view(t));
    let ghost tb = b.targets@.map_values(|t: RuntimeRuleTarget| target_view(t));
    if !spec_eq(&a.spec, &b.spec) || !texts_eq(&a.protocols, &b.protocols) {
        return false;
    }
    if a.targets.len() != b.targets.len() {
        assert(ta.len() != tb.len());
        return false;
    }
    let mut i: usize = 0;
    while i < a.targets.len()
        invariant
            0 <= i <= a.targets@.len(),
            a.targets@.len() == b.targets@.len(),
            ta == a.targets@.map_values(|t: RuntimeRuleTarget| target_view(t)),
            tb == b.targets@.map_values(|t: RuntimeRuleTarget| target_view(t)),
            forall|j: int| 0 <= j < i ==> ta[j] == tb[j],
        decreases a.targets@.len() - i,
    {
        if !target_eq(&a.targets[i], &b.targets[i]) {
            assert(ta[i as int] != tb[i as int]);
            return false;
        }
        i = i + 1;
    }
    assert(ta =~= tb);
    true
}

fn health_eq(a: &TargetHealthEntry, b: &TargetHealthEntry) -> (r: bool)
    ensures
        r == (health_view(*a) == health_view(*b)),
{
    text_eq(&a.host_name, &b.host_name) && text_eq(&a.name, &b.name) && opt_eq(&a.description, &b.description)
        && a.inactive_retries == b.inactive_retries && opt_eq(&a.probe_type, &b.probe_type)
        && opt_eq(&a.probe_req, &b.probe_req) && opt_eq(&a.probe_resp, &b.probe_resp)
        && a.probe_duration == b.probe_duration && a.probe_port == b.probe_port
        && opt_eq(&a.min_delay, &b.min_delay) && opt_eq(&a.avg_delay, &b.avg_delay)
        && opt_eq(&a.max_delay, &b.max_delay) && opt_eq(&a.current_state, &b.current_state) && a.sync == b.sync
}

/// The two states hold the same listeners and health records.
pub fn same_state(a: &NativeProxyState, b: &NativeProxyState) -> (r: bool)
    ensures
        r == (state_view(*a) == state_view(*b)),
{
    let ghost la = a.listeners@.map_values(|e: RuntimeRuleStateEntry| entry_view(e));
    let ghost lb = b.listeners@.map_values(|e: RuntimeRuleStateEntry| entry_view(e));
    let ghost ha = health_views(a.target_health@);
    let ghost hb = health_views(b.target_health@);
    if a.listeners.len() != b.listeners.len() {
        assert(la.len() != lb.len());
        return false;
    }
    let mut i: usize = 0;
    while i < a.listeners.len()
        invariant
            0 <= i <= a.listeners@.len(),
            a.listeners@.len() == b.listeners@.len(),
            la == a.listeners@.map_values(|e: RuntimeRuleStateEntry| entry_view(e)),
            lb == b.listeners@.map_values(|e: RuntimeRuleStateEntry| entry_view(e)),
            forall|j: int| 0 <= j < i ==> la[j] == lb[j],
        decreases a.listeners@.len() - i,
    {
        if !entry_eq(&a.listeners[i], &b.listeners[i]) {
            assert(la[i as int] != lb[i as int]);
            return false;
        }
        i = i + 1;
    }
    assert(la =~= lb);
    if a.target_health.len() != b.target_health.len() {
        assert(ha.len() != hb.len());
        return false;
    }
    let mut k: usize = 0;
    while k < a.target_health.len()
        invariant
            0 <= k <= a.target_health@.len(),
            a.target_health@.len() == b.target_health@.len(),
            ha == health_views(a.target_health@),
            hb == health_views(b.target_health@),
            forall|j: int| 0 <= j < k ==> ha[j] == hb[j],
        decreases a.target_health@.len() - k,
    {
        if !health_eq(&a.target_health[k], &b.target_health[k]) {
            assert(ha[k as int] != hb[k as int]);
            return false;
        }
        k = k + 1;
    }
    assert(ha =~= hb);
    true
}

/// The dirty flag after saving `state` over the stored `stored`: marked
/// only when the two differ.
pub open spec fn save_marks(stored: NativeProxyState, state: NativeProxyState, d: StateDirty) -> StateDirty {
    if state_view(stored) != state_view(state) {
        marked(d)
    } else {
        d
    }
}

/// After the state is built: it is written, and the datapath marked for a
/// refresh, only when it differs from the stored state (or nothing could be
/// read back). Returns whether it is written.
pub fn save_if_changed(stored: Option<&NativeProxyState>, state: &NativeProxyState, dirty: &mut StateDirty) -> (r: bool)
    ensures
        r == (match stored {
            Some(s) => state_view(*s) != state_view(*state),
            None => true,
        }),
        *final(dirty) == (if r {
            marked(*old(dirty))
        } else {
            *old(dirty)
        }),
        stored matches Some(s) ==> *final(dirty) == save_marks(*s, *state, *old(dirty)),
{
    let changed = match stored {
        Some(s) => !same_state(s, state),
        None => true,
    };
    crate::native_store::mark_if_changed(dirty, changed);
    changed
}

proof fn lemma_stored_entries_agree(n1: RuntimeRuleStateEntry, n2: RuntimeRuleStateEntry, e: RuntimeRuleStateEntry, default_ips: Seq<String>, monitor: bool)
    requires
        stored_entry(n1, e, default_ips, monitor),
        stored_entry(n2, e, default_ips, monitor),
    ensures
        entry_view(n1) == entry_view(n2),
{
    let t1 = n1.targets@.map_values(|t: RuntimeRuleTarget| target_view(t));
    let t2 = n2.targets@.map_values(|t: RuntimeRuleTarget| target_view(t));
    assert forall|k: int| 0 <= k < t1.len() implies t1[k] == t2[k] by {
        assert(crate::native_state::norm_target(n1.targets@[k], e.targets@[k]));
        assert(crate::native_state::norm_target(n2.targets@[k], e.targets@[k]));
    }
    assert(t1 =~= t2);
    assert(spec_view(n1.spec) =~~= spec_view(n2.spec));
}

/// Law: storing the same listener a second time gives a state equal in
/// every field to the one the first store gave, so comparing it with the
/// stored state finds no change and the datapath is not marked again. The
/// listener must keep at least one address (one without any is not the
/// same stored listener as itself, and a second store adds it again).
pub proof fn storing_a_listener_again_is_no_change(
    old_listeners: Seq<RuntimeRuleStateEntry>,
    old_health: Seq<TargetHealthEntry>,
    s1: NativeProxyState,
    s2: NativeProxyState,
    entry: RuntimeRuleStateEntry,
    probe: Option<HealthProbeConfig>,
    default_ips: Seq<String>,
)
    requires
        stored_listener(old_listeners, old_health, s1, entry, probe, default_ips),
        stored_listener(s1.listeners@, s1.target_health@, s2, entry, probe, default_ips),
        norm_vips(entry, default_ips).len() > 0,
    ensures
        state_view(s2) == state_view(s1),
        forall|d: StateDirty| #[trigger] save_marks(s1, s2, d) == d,
{
    crate::store_laws::storing_a_listener_again_changes_nothing(old_listeners, old_health, s1, s2, entry, probe, default_ips);
    let n1 = s1.listeners@.last();
    let n2 = s2.listeners@.last();
    lemma_stored_entries_agree(n1, n2, entry, default_ips, crate::native_state::probing(probe));
    let l1 = s1.listeners@.map_values(|e: RuntimeRuleStateEntry| entry_view(e));
    let l2 = s2.listeners@.map_values(|e: RuntimeRuleStateEntry| entry_view(e));
    assert(s1.listeners@.len() == s1.listeners@.drop_last().len() + 1);
    assert forall|k: int| 0 <= k < l1.len() implies l1[k] == l2[k] by {
        if k < l1.len() - 1 {
            assert(s1.listeners@[k] == s1.listeners@.drop_last()[k]);
            assert(s2.listeners@[k] == s2.listeners@.drop_last()[k]);
        }
    }
    assert(l1 =~= l2);
}

} // verus!
