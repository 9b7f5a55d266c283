//! Desired listener state of the native datapath and the observed target
//! health kept beside it: the records, listener naming, expansion of an
//! aggregate listener into datapath keys, and the edits made to the stored
//! state.

use vstd::prelude::*;
use vstd::string::*;
use crate::text::{trim, decimal};
use crate::health::TargetHealthEntry;
use crate::health::TargetHealthList;

verus! {

/// Transport protocol of a datapath key.
#[derive(Clone, Copy, Debug, PartialEq, Eq, Hash, Structural)]
pub enum NativeProtocol {
    Tcp,
    Udp,
}

impl NativeProtocol {
    /// IP protocol number.
    pub fn ip_proto(self) -> (r: u8)
        ensures
            r == match self {
                NativeProtocol::Tcp => 6u8,
                NativeProtocol::Udp => 17u8,
            },
    {
        match self {
            NativeProtocol::Tcp => 6,
            NativeProtocol::Udp => 17,
        }
    }
}

/// Whether a datapath target takes new flows.
#[derive(Clone, Copy, Debug, Default, PartialEq, Eq, Structural)]
pub enum NativeTargetState {
    #[default]
    Active,
    Inactive,
}

/// Settings of one stored listener.
#[derive(Clone, Debug, Default, PartialEq, Eq)]
pub struct RuntimeRuleSpec {
    pub vip_ips: Vec<String>,
    pub port: u16,
    pub protocol: String,
    pub sel: u32,
    pub mode: u32,
    pub bgp: bool,
    pub monitor: bool,
    pub probetype: Option<String>,
    pub probeport: Option<u16>,
    pub probereq: Option<String>,
    pub proberesp: Option<String>,
    pub probe_timeout: Option<u32>,
    pub probe_retries: Option<u32>,
    pub inactive_timeout: u32,
    pub block: u32,
    pub name: Option<String>,
    pub security: Option<u32>,
    pub host: Option<String>,
    pub proxyprotocolv2: bool,
    pub egress: bool,
}

/// A backend of a stored listener.
#[derive(Clone, Debug, Default, PartialEq, Eq)]
pub struct RuntimeRuleTarget {
    /// Backend target address.
    pub address: String,
    /// Forwarding port owned by the listener configuration.
    pub target_port: u16,
    pub weight: u32,
    pub state: Option<String>,
    pub counter: Option<String>,
}

/// One stored listener: settings, backends and its logical protocols.
#[derive(Clone, Debug, Default, PartialEq, Eq)]
pub struct RuntimeRuleStateEntry {
    pub spec: RuntimeRuleSpec,
    pub targets: Vec<RuntimeRuleTarget>,
    /// Logical listener protocols; the datapath has one key per protocol.
    pub protocols: Vec<String>,
}

/// All stored listeners.
#[derive(Clone, Debug, Default, PartialEq, Eq)]
pub struct RuntimeRuleStateList {
    pub rules: Vec<RuntimeRuleStateEntry>,
}

/// Outcome of deleting a health record.
#[derive(Clone, Debug, PartialEq, Eq)]
pub enum DeleteTargetHealthResult {
    Deleted,
    NotFound,
    Referenced { listener: String },
}

/// A backend of a managed rule, with its probe settings.
#[derive(Clone, Debug, Default, PartialEq, Eq)]
pub struct ManagedTarget {
    pub backend_ip: String,
    pub backend_port: u16,
    pub weight: u32,
    pub probe_type: Option<String>,
    pub probe_port: Option<u16>,
    pub probe_req: Option<String>,
    pub probe_resp: Option<String>,
    pub period_secs: Option<u32>,
    pub retries: Option<u32>,
}

/// A rule this agent installed for a service.
#[derive(Clone, Debug, Default)]
pub struct ManagedRuntimeRule {
    pub service: String,
    pub vip_ip: String,
    pub protocol: String,
    pub vip_port: u16,
    pub backend_port: u16,
    pub backend_ip: String,
    pub backend_weight: u32,
    pub endpoints: Vec<ManagedTarget>,
    pub select: u32,
    pub mode: u32,
    pub bgp: bool,
    pub monitor: bool,
    pub inactive_timeout: Option<u32>,
    pub mark: Option<u32>,
    pub security: Option<u32>,
    pub host: Option<String>,
    pub proxy_protocol_v2: bool,
    pub egress: bool,
}

fn clone_managed_target(t: &ManagedTarget) -> (r: ManagedTarget)
    ensures
        r == *t,
{
    ManagedTarget {
        backend_ip: t.backend_ip.clone(),
        backend_port: t.backend_port,
        weight: t.weight,
        probe_type: clone_opt(&t.probe_type),
        probe_port: t.probe_port,
        probe_req: clone_opt(&t.probe_req),
        probe_resp: clone_opt(&t.probe_resp),
        period_secs: t.period_secs,
        retries: t.retries,
    }
}

fn clone_managed_targets(v: &Vec<ManagedTarget>) -> (r: Vec<ManagedTarget>)
    ensures
        r@ == v@,
{
    let mut out: Vec<ManagedTarget> = Vec::new();
    let mut i: usize = 0;
    while i < v.len()
        invariant
            0 <= i <= v@.len(),
            out@ == v@.take(i as int),
        decreases v@.len() - i,
    {
        out.push(clone_managed_target(&v[i]));
        assert(v@.take(i + 1) =~= v@.take(i as int).push(v@[i as int]));
        i = i + 1;
    }
    assert(v@.take(v@.len() as int) =~= v@);
    out
}

/// `r` is the service rule `template` for one address and one protocol, over
/// all the service's endpoints, the first endpoint (or nothing) as its
/// direct backend.
pub open spec fn desired_rule(
    r: ManagedRuntimeRule,
    template: ManagedRuntimeRule,
    vip: Seq<char>,
    proto: Seq<char>,
    endpoints: Seq<ManagedTarget>,
) -> bool {
    &&& r == (ManagedRuntimeRule {
        vip_ip: r.vip_ip,
        protocol: r.protocol,
        endpoints: r.endpoints,
        backend_port: r.backend_port,
        backend_ip: r.backend_ip,
        backend_weight: r.backend_weight,
        ..template
    })
    &&& r.vip_ip@ == vip
    &&& r.protocol@ == proto
    &&& r.endpoints@ == endpoints
    &&& if endpoints.len() > 0 {
        r.backend_port == endpoints[0].backend_port && r.backend_ip@ == endpoints[0].backend_ip@
            && r.backend_weight == endpoints[0].weight
    } else {
        r.backend_port == 0 && r.backend_ip@.len() == 0 && r.backend_weight == 0
    }
}

fn desired_rule_for(template: &ManagedRuntimeRule, vip: &String, proto: &String, endpoints: &Vec<ManagedTarget>) -> (r: ManagedRuntimeRule)
    ensures
        desired_rule(r, *template, vip@, proto@, endpoints@),
{
    let (backend_port, backend_ip, backend_weight) = if endpoints.len() > 0 {
        (endpoints[0].backend_port, endpoints[0].backend_ip.clone(), endpoints[0].weight)
    } else {
        (0u16, String::new(), 0u32)
    };
    ManagedRuntimeRule {
        service: template.service.clone(),
        vip_ip: vip.clone(),
        protocol: proto.clone(),
        vip_port: template.vip_port,
        backend_port,
        backend_ip,
        backend_weight,
        endpoints: clone_managed_targets(endpoints),
        select: template.select,
        mode: template.mode,
        bgp: template.bgp,
        monitor: template.monitor,
        inactive_timeout: template.inactive_timeout,
        mark: template.mark,
        security: template.security,
        host: clone_opt(&template.host),
        proxy_protocol_v2: template.proxy_protocol_v2,
        egress: template.egress,
    }
}

/// The rules a service asks for: one per protocol and external address,
/// protocol-major, each the service's rule (`template`, whose per-rule
/// fields are ignored) over all its endpoints.
pub fn desired_runtime_rules(
    template: &ManagedRuntimeRule,
    protocols: &Vec<String>,
    vip_ips: &Vec<String>,
    endpoints: &Vec<ManagedTarget>,
) -> (r: Vec<ManagedRuntimeRule>)
    ensures
        ({
            let pairs = key_pairs(protocols@.map_values(|p: String| p@), vip_ips@.map_values(|s: String| s@));
            &&& r@.len() == pairs.len()
            &&& forall|k: int| 0 <= k < r@.len() ==> desired_rule(#[trigger] r@[k], *template, pairs[k].1, pairs[k].0, endpoints@)
        }),
{
    let ghost pv = protocols@.map_values(|p: String| p@);
    let ghost vv = vip_ips@.map_values(|s: String| s@);
    let mut out: Vec<ManagedRuntimeRule> = Vec::new();
    let mut i: usize = 0;
    while i < protocols.len()
        invariant
            0 <= i <= protocols@.len(),
            pv == protocols@.map_values(|p: String| p@),
            vv == vip_ips@.map_values(|s: String| s@),
            out@.len() == key_pairs(pv.take(i as int), vv).len(),
            forall|k: int| 0 <= k < out@.len() ==> desired_rule(#[trigger] out@[k], *template, key_pairs(pv.take(i as int), vv)[k].1, key_pairs(pv.take(i as int), vv)[k].0, endpoints@),
        decreases protocols@.len() - i,
    {
        let ghost prev = key_pairs(pv.take(i as int), vv);
        let ghost next = key_pairs(pv.take(i + 1), vv);
        assert(pv.take(i + 1).drop_last() =~= pv.take(i as int));
        assert(next == prev + vv.map_values(|v: Seq<char>| (pv[i as int], v)));
        let mut j: usize = 0;
        while j < vip_ips.len()
            invariant
                0 <= j <= vip_ips@.len(),
                i < protocols@.len(),
                vv == vip_ips@.map_values(|s: String| s@),
                next == prev + vv.map_values(|v: Seq<char>| (protocols@[i as int]@, v)),
                out@.len() == prev.len() + j,
                forall|k: int| 0 <= k < out@.len() ==> desired_rule(#[trigger] out@[k], *template, next[k].1, next[k].0, endpoints@),
            decreases vip_ips@.len() - j,
        {
            let rule = desired_rule_for(template, &vip_ips[j], &protocols[i], endpoints);
            out.push(rule);
            j = j + 1;
        }
        i = i + 1;
    }
    assert(pv.take(protocols@.len() as int) =~= pv);
    out
}

/// Identifiers of the objects this agent created.
#[derive(Clone, Debug, Default)]
pub struct AgentState {
    pub native_datapath_prog_id: Option<u32>,
    pub vxlan_ifindex: Option<u32>,
    pub dscp_ports: Vec<u32>,
    pub created_vxlan: bool,
}

/// A stored listener as the runtime API reports it.
#[derive(Clone, Debug, PartialEq, Eq)]
pub struct RuntimeRuleEntry {
    pub name: Option<String>,
    pub vip_ip: String,
    pub protocol: String,
    pub vip_port: u16,
    pub backend_port: u16,
    pub backend_ip: String,
    pub backend_weight: u32,
    pub endpoints: Vec<ManagedTarget>,
    pub select: u32,
    pub mode: u32,
    pub bgp: bool,
    pub monitor: bool,
    pub inactive_timeout: Option<u32>,
    pub mark: Option<u32>,
    pub security: Option<u32>,
    pub host: Option<String>,
    pub proxy_protocol_v2: bool,
    pub egress: bool,
}

/// The stored native proxy state: desired listeners and observed health.
#[derive(Clone, Debug, Default, PartialEq, Eq)]
pub struct NativeProxyState {
    pub listeners: Vec<RuntimeRuleStateEntry>,
    pub target_health: Vec<TargetHealthEntry>,
}

/// Set when the stored proxy state changed and the datapath maps must be
/// refreshed; read once by the gateway loop.
#[derive(Clone, Copy, Debug, Default, PartialEq, Eq, Structural)]
pub struct StateDirty {
    pub dirty: bool,
}

/// The flag after a change is marked.
pub open spec fn marked(s: StateDirty) -> StateDirty {
    StateDirty { dirty: true }
}

/// What a check reports, and the flag after it.
pub open spec fn taken(s: StateDirty) -> (bool, StateDirty) {
    (s.dirty, StateDirty { dirty: false })
}

impl StateDirty {
    pub fn mark_state_dirty(&mut self)
        ensures
            *final(self) == marked(*old(self)),
    {
        self.dirty = true;
    }

    /// One-shot: whether the state changed since the last check; clears it.
    pub fn take_state_dirty(&mut self) -> (r: bool)
        ensures
            (r, *final(self)) == taken(*old(self)),
    {
        let r = self.dirty;
        self.dirty = false;
        r
    }
}

/// After the state is stored, the flag is marked only when the stored
/// state changed, so a store that changes nothing does not make the
/// datapath refresh again.
pub fn mark_if_changed(dirty: &mut StateDirty, changed: bool)
    ensures
        *final(dirty) == (if changed {
            marked(*old(dirty))
        } else {
            *old(dirty)
        }),
{
    if changed {
        dirty.mark_state_dirty();
    }
}

/// Law: a marked change is reported by the next check and by no later one
/// until it is marked again.
pub proof fn dirty_flag_reports_a_change_once(s: StateDirty)
    ensures
        taken(marked(s)).0,
        !taken(taken(marked(s)).1).0,
        !taken(taken(s).1).0,
{
}

/// Observed health records of the state.
pub fn target_health(state: &NativeProxyState) -> (r: &Vec<TargetHealthEntry>)
    ensures
        r@ == state.target_health@,
{
    &state.target_health
}

/// Observed health records of the state, as the API lists them.
pub fn target_health_native(state: NativeProxyState) -> (r: TargetHealthList)
    ensures
        r.entries@ == state.target_health@,
{
    TargetHealthList { entries: state.target_health }
}

/// Texts joined with a separator.
pub open spec fn join(parts: Seq<Seq<char>>, sep: Seq<char>) -> Seq<char>
    decreases parts.len(),
{
    if parts.len() == 0 {
        Seq::empty()
    } else if parts.len() == 1 {
        parts[0]
    } else {
        join(parts.drop_last(), sep) + sep + parts.last()
    }
}

pub fn join_strings(parts: &Vec<String>, sep: &str) -> (r: Vec<char>)
    ensures
        r@ == join(parts@.map_values(|p: String| p@), sep@),
{
    let ghost views = parts@.map_values(|p: String| p@);
    let sepc = crate::text::chars_of(sep);
    let mut out: Vec<char> = Vec::new();
    let mut i: usize = 0;
    while i < parts.len()
        invariant
            0 <= i <= parts@.len(),
            views == parts@.map_values(|p: String| p@),
            sepc@ == sep@,
            out@ == join(views.take(i as int), sep@),
        decreases parts@.len() - i,
    {
        assert(views.take(i + 1).drop_last() == views.take(i as int));
        if i > 0 {
            crate::text::extend_chars(&mut out, &sepc);
        }
        crate::text::extend_chars(&mut out, &crate::text::chars_of(parts[i].as_str()));
        i = i + 1;
    }
    assert(views.take(parts@.len() as int) == views);
    out
}

/// The logical protocols of a listener: its list, or its spec protocol.
pub open spec fn protocols_of(e: RuntimeRuleStateEntry) -> Seq<Seq<char>> {
    if e.protocols@.len() == 0 {
        seq![e.spec.protocol@]
    } else {
        e.protocols@.map_values(|p: String| p@)
    }
}

/// The name of a listener: its non-blank name, trimmed, or else generated
/// from its protocols and port (`tcp-udp-443`).
pub open spec fn spec_listener_name(e: RuntimeRuleStateEntry) -> Seq<char> {
    match e.spec.name {
        Some(n) => if trim(n@).len() > 0 {
            trim(n@)
        } else {
            join(protocols_of(e), "-"@) + "-"@ + decimal(e.spec.port as nat)
        },
        None => join(protocols_of(e), "-"@) + "-"@ + decimal(e.spec.port as nat),
    }
}

pub fn listener_name(lb: &RuntimeRuleStateEntry) -> (r: Vec<char>)
    ensures
        r@ == spec_listener_name(*lb),
{
    let generated = || -> (g: Vec<char>)
        ensures
            g@ == join(protocols_of(*lb), "-"@) + "-"@ + decimal(lb.spec.port as nat),
    {
        let mut g = if lb.protocols.len() == 0 {
            let one = crate::text::chars_of(lb.spec.protocol.as_str());
            assert(join(seq![lb.spec.protocol@], "-"@) == lb.spec.protocol@);
            one
        } else {
            join_strings(&lb.protocols, "-")
        };
        crate::text::extend_chars(&mut g, &crate::text::chars_of("-"));
        crate::text::extend_chars(&mut g, &crate::text::decimal_chars(lb.spec.port as u64));
        g
    };
    match &lb.spec.name {
        Some(n) => {
            let t = crate::text::trimmed(n.as_str());
            if t.len() > 0 {
                t
            } else {
                generated()
            }
        },
        None => generated(),
    }
}

/// Remove the listeners with the given name; report whether any was removed.
pub fn delete_listener(state: &mut NativeProxyState, name: &str) -> (r: bool)
    ensures
        final(state).listeners@ == old(state).listeners@.filter(|e: RuntimeRuleStateEntry| spec_listener_name(e) != name@),
        final(state).target_health == old(state).target_health,
        r == (final(state).listeners@.len() != old(state).listeners@.len()),
{
    let before = state.listeners.len();
    let ghost all = state.listeners@;
    let mut reversed: Vec<RuntimeRuleStateEntry> = Vec::new();
    while state.listeners.len() > 0
        invariant
            reversed@.len() + state.listeners@.len() == all.len(),
            state.listeners@ == all.take(state.listeners@.len() as int),
            state.target_health == old(state).target_health,
            forall|j: int| 0 <= j < reversed@.len() ==> #[trigger] reversed@[j] == all[all.len() - 1 - j],
        decreases state.listeners@.len(),
    {
        let t = state.listeners.pop().unwrap();
        reversed.push(t);
        assert(state.listeners@ =~= all.take(state.listeners@.len() as int));
    }
    let target = crate::text::chars_of(name);
    let mut kept: Vec<RuntimeRuleStateEntry> = Vec::new();
    let ghost mut done: int = 0;
    while reversed.len() > 0
        invariant
            reversed@.len() + done == all.len(),
            0 <= done <= all.len(),
            target@ == name@,
            forall|j: int| 0 <= j < reversed@.len() ==> #[trigger] reversed@[j] == all[all.len() - 1 - j],
            kept@ == all.take(done).filter(|e: RuntimeRuleStateEntry| spec_listener_name(e) != name@),
        decreases reversed@.len(),
    {
        let t = reversed.pop().unwrap();
        assert(t == all[done]);
        proof {
            assert(all.take(done + 1).drop_last() =~= all.take(done));
            reveal(Seq::filter);
        }
        let same = crate::text::chars_eq(&listener_name(&t), &target);
        if !same {
            kept.push(t);
        }
        proof {
            done = done + 1;
        }
    }
    assert(all.take(all.len() as int) =~= all);
    state.listeners = kept;
    state.listeners.len() != before
}

/// Remove the stored listener of a service.
pub fn delete_runtime_rule(state: &mut NativeProxyState, service_name: &str)
    ensures
        final(state).listeners@ == old(state).listeners@.filter(|e: RuntimeRuleStateEntry| spec_listener_name(e) != service_name@),
        final(state).target_health == old(state).target_health,
{
    let _ = delete_listener(state, service_name);
}

/// The default external address: the first effective VIP, else the gateway
/// address.
pub fn default_external_ip(vip_ips: &Vec<String>, gateway_ip: &str) -> (r: String)
    ensures
        vip_ips@.len() > 0 ==> r == vip_ips@[0],
        vip_ips@.len() == 0 ==> r@ == gateway_ip@,
{
    if vip_ips.len() > 0 {
        vip_ips[0].clone()
    } else {
        String::from_str(gateway_ip)
    }
}

/// The addresses an aggregate listener is expanded over: its own addresses,
/// trimmed and without blanks, or the default external addresses when it
/// names none.
pub open spec fn expansion_ips(e: RuntimeRuleStateEntry, default_ips: Seq<String>) -> Seq<Seq<char>> {
    if e.spec.vip_ips@.len() == 0 {
        default_ips.map_values(|s: String| s@)
    } else {
        e.spec.vip_ips@.map_values(|s: String| trim(s@)).filter(|t: Seq<char>| t.len() > 0)
    }
}

/// Every address paired with every protocol, address-major.
pub open spec fn key_pairs(ips: Seq<Seq<char>>, protos: Seq<Seq<char>>) -> Seq<(Seq<char>, Seq<char>)>
    decreases ips.len(),
{
    if ips.len() == 0 {
        Seq::empty()
    } else {
        key_pairs(ips.drop_last(), protos) + protos.map_values(|p: Seq<char>| (ips.last(), p))
    }
}

/// `n` is `e` narrowed to one address and one protocol.
pub open spec fn narrowed(n: RuntimeRuleStateEntry, e: RuntimeRuleStateEntry, ip: Seq<char>, proto: Seq<char>) -> bool {
    &&& n.spec == (RuntimeRuleSpec { vip_ips: n.spec.vip_ips, protocol: n.spec.protocol, ..e.spec })
    &&& n.spec.vip_ips@.len() == 1 && n.spec.vip_ips@[0]@ == ip
    &&& n.spec.protocol@ == proto
    &&& n.protocols@.len() == 1 && n.protocols@[0]@ == proto
    &&& n.targets@ == e.targets@
}

pub(crate) fn clone_opt(o: &Option<String>) -> (r: Option<String>)
    ensures
        r == *o,
{
    match o {
        Some(s) => Some(s.clone()),
        None => None,
    }
}

fn clone_target(t: &RuntimeRuleTarget) -> (r: RuntimeRuleTarget)
    ensures
        r == *t,
{
    RuntimeRuleTarget {
        address: t.address.clone(),
        target_port: t.target_port,
        weight: t.weight,
        state: clone_opt(&t.state),
        counter: clone_opt(&t.counter),
    }
}

fn clone_targets(v: &Vec<RuntimeRuleTarget>) -> (r: Vec<RuntimeRuleTarget>)
    ensures
        r@ == v@,
{
    let mut out: Vec<RuntimeRuleTarget> = Vec::new();
    let mut i: usize = 0;
    while i < v.len()
        invariant
            0 <= i <= v@.len(),
            out@ == v@.take(i as int),
        decreases v@.len() - i,
    {
        out.push(clone_target(&v[i]));
        assert(v@.take(i + 1) == v@.take(i as int).push(v@[i as int]));
        i = i + 1;
    }
    assert(v@.take(v@.len() as int) == v@);
    out
}

fn narrow(e: &RuntimeRuleStateEntry, ip: &String, proto: &String) -> (r: RuntimeRuleStateEntry)
    ensures
        narrowed(r, *e, ip@, proto@),
{
    let mut ips: Vec<String> = Vec::new();
    ips.push(ip.clone());
    let mut protos: Vec<String> = Vec::new();
    protos.push(proto.clone());
    let s = &e.spec;
    RuntimeRuleStateEntry {
        spec: RuntimeRuleSpec {
            vip_ips: ips,
            port: s.port,
            protocol: proto.clone(),
            sel: s.sel,
            mode: s.mode,
            bgp: s.bgp,
            monitor: s.monitor,
            probetype: clone_opt(&s.probetype),
            probeport: s.probeport,
            probereq: clone_opt(&s.probereq),
            proberesp: clone_opt(&s.proberesp),
            probe_timeout: s.probe_timeout,
            probe_retries: s.probe_retries,
            inactive_timeout: s.inactive_timeout,
            block: s.block,
            name: clone_opt(&s.name),
            security: s.security,
            host: clone_opt(&s.host),
            proxyprotocolv2: s.proxyprotocolv2,
            egress: s.egress,
        },
        targets: clone_targets(&e.targets),
        protocols: protos,
    }
}

fn expansion_ip_strings(e: &RuntimeRuleStateEntry, default_ips: &Vec<String>) -> (r: Vec<String>)
    ensures
        r@.map_values(|s: String| s@) == expansion_ips(*e, default_ips@),
{
    let mut out: Vec<String> = Vec::new();
    if e.spec.vip_ips.len() == 0 {
        let mut i: usize = 0;
        while i < default_ips.len()
            invariant
                0 <= i <= default_ips@.len(),
                out@ == default_ips@.take(i as int),
            decreases default_ips@.len() - i,
        {
            out.push(default_ips[i].clone());
            assert(default_ips@.take(i + 1) == default_ips@.take(i as int).push(default_ips@[i as int]));
            i = i + 1;
        }
        assert(default_ips@.take(default_ips@.len() as int) == default_ips@);
        return out;
    }
    let ghost trimmed_all = e.spec.vip_ips@.map_values(|s: String| trim(s@));
    let mut i: usize = 0;
    while i < e.spec.vip_ips.len()
        invariant
            0 <= i <= e.spec.vip_ips@.len(),
            trimmed_all == e.spec.vip_ips@.map_values(|s: String| trim(s@)),
            out@.map_values(|s: String| s@) == trimmed_all.take(i as int).filter(|t: Seq<char>| t.len() > 0),
        decreases e.spec.vip_ips@.len() - i,
    {
        let t = crate::text::trimmed(e.spec.vip_ips[i].as_str());
        proof {
            assert(trimmed_all.take(i + 1).drop_last() =~= trimmed_all.take(i as int));
            reveal(Seq::filter);
        }
        if t.len() > 0 {
            let ghost before = out@;
            out.push(crate::text::string_of(&t));
            assert(out@.map_values(|s: String| s@) =~= before.map_values(|s: String| s@).push(t@));
        }
        i = i + 1;
    }
    assert(trimmed_all.take(e.spec.vip_ips@.len() as int) =~= trimmed_all);
    out
}

/// One datapath entry per address and protocol of an aggregate listener.
pub fn expanded_runtime_rule_entries(entry: &RuntimeRuleStateEntry, default_ips: &Vec<String>) -> (r: Vec<RuntimeRuleStateEntry>)
    ensures
        ({
            let pairs = key_pairs(expansion_ips(*entry, default_ips@), protocols_of(*entry));
            &&& r@.len() == pairs.len()
            &&& forall|k: int| 0 <= k < r@.len() ==> narrowed(#[trigger] r@[k], *entry, pairs[k].0, pairs[k].1)
        }),
{
    let ips = expansion_ip_strings(entry, default_ips);
    let ghost ipv = ips@.map_values(|s: String| s@);
    let protocols: Vec<String> = if entry.protocols.len() == 0 {
        let mut v: Vec<String> = Vec::new();
        v.push(entry.spec.protocol.clone());
        v
    } else {
        let mut v: Vec<String> = Vec::new();
        let mut j: usize = 0;
        while j < entry.protocols.len()
            invariant
                0 <= j <= entry.protocols@.len(),
                v@ == entry.protocols@.take(j as int),
            decreases entry.protocols@.len() - j,
        {
            v.push(entry.protocols[j].clone());
            assert(entry.protocols@.take(j + 1) == entry.protocols@.take(j as int).push(entry.protocols@[j as int]));
            j = j + 1;
        }
        assert(entry.protocols@.take(entry.protocols@.len() as int) == entry.protocols@);
        v
    };
    let ghost pv = protocols@.map_values(|p: String| p@);
    assert(pv =~= protocols_of(*entry));
    let mut out: Vec<RuntimeRuleStateEntry> = Vec::new();
    let mut i: usize = 0;
    while i < ips.len()
        invariant
            0 <= i <= ips@.len(),
            ipv == ips@.map_values(|s: String| s@),
            pv == protocols@.map_values(|p: String| p@),
            out@.len() == key_pairs(ipv.take(i as int), pv).len(),
            forall|k: int| 0 <= k < out@.len() ==> narrowed(#[trigger] out@[k], *entry, key_pairs(ipv.take(i as int), pv)[k].0, key_pairs(ipv.take(i as int), pv)[k].1),
        decreases ips@.len() - i,
    {
        let ghost prev = key_pairs(ipv.take(i as int), pv);
        let ghost next = key_pairs(ipv.take(i + 1), pv);
        assert(ipv.take(i + 1).drop_last() =~= ipv.take(i as int));
        assert(next == prev + pv.map_values(|p: Seq<char>| (ipv[i as int], p)));
        let mut j: usize = 0;
        while j < protocols.len()
            invariant
                0 <= j <= protocols@.len(),
                i < ips@.len(),
                pv == protocols@.map_values(|p: String| p@),
                next == prev + pv.map_values(|p: Seq<char>| (ips@[i as int]@, p)),
                out@.len() == prev.len() + j,
                forall|k: int| 0 <= k < out@.len() ==> narrowed(#[trigger] out@[k], *entry, next[k].0, next[k].1),
            decreases protocols@.len() - j,
        {
            let n = narrow(entry, &ips[i], &protocols[j]);
            out.push(n);
            j = j + 1;
        }
        i = i + 1;
    }
    assert(ipv.take(ips@.len() as int) =~= ipv);
    out
}

} // verus!
