//! Edits of the stored native proxy state: the health records kept for
//! each backend of a listener, listener normalization and identity, the
//! write of one listener, and the merged listing of the stored listeners.

use vstd::prelude::*;
use crate::text::{trim, lower, decimal};
use crate::health::{TargetHealthEntry, HealthProbeConfig};
use crate::native_store::{NativeProxyState, RuntimeRuleStateEntry, RuntimeRuleSpec, RuntimeRuleTarget, RuntimeRuleStateList, RuntimeRuleEntry, ManagedTarget, protocols_of, clone_opt, join, spec_listener_name};
use crate::overlay::{texts, contains_text};
use crate::config::{Listener, TargetGroup, protocol_name, select_code, mode_code};
use crate::probe_schedule::{opt_text, first_named, entry_names, find_entry};

verus! {

/// Name of the health record of a backend address, protocol and port:
/// `ip_protocol_port`, the address trimmed, the protocol trimmed and in
/// lower case.
pub open spec fn health_key(ip: Seq<char>, protocol: Seq<char>, port: u16) -> Seq<char> {
    trim(ip) + "_"@ + lower(trim(protocol)) + "_"@ + decimal(port as nat)
}

pub fn target_health_key(ip: &str, protocol: &str, port: u16) -> (r: String)
    ensures
        r@ == health_key(ip@, protocol@, port),
{
    let mut out = crate::text::trimmed(ip);
    crate::text::extend_chars(&mut out, &crate::text::chars_of("_"));
    let p = crate::text::trimmed(protocol);
    crate::text::extend_chars(&mut out, &crate::text::lower_chars(&p));
    crate::text::extend_chars(&mut out, &crate::text::chars_of("_"));
    crate::text::extend_chars(&mut out, &crate::text::decimal_chars(port as u64));
    crate::text::string_of(&out)
}

/// The protocols of a listener in lower case.
pub open spec fn lowered_protocols(e: RuntimeRuleStateEntry) -> Seq<Seq<char>> {
    protocols_of(e).map_values(|p: Seq<char>| lower(p))
}

fn lowered_string(s: &str) -> (r: String)
    ensures
        r@ == lower(s@),
{
    let cs = crate::text::chars_of(s);
    crate::text::string_of(&crate::text::lower_chars(&cs))
}

pub fn listener_protocols(lb: &RuntimeRuleStateEntry) -> (r: Vec<String>)
    ensures
        r@.map_values(|s: String| s@) == lowered_protocols(*lb),
{
    let mut out: Vec<String> = Vec::new();
    if lb.protocols.len() == 0 {
        out.push(lowered_string(lb.spec.protocol.as_str()));
        assert(out@.map_values(|s: String| s@) =~= lowered_protocols(*lb));
        return out;
    }
    let ghost ps = lb.protocols@.map_values(|p: String| lower(p@));
    let mut i: usize = 0;
    while i < lb.protocols.len()
        invariant
            i <= lb.protocols@.len(),
            ps == lb.protocols@.map_values(|p: String| lower(p@)),
            out@.map_values(|s: String| s@) == ps.take(i as int),
        decreases lb.protocols@.len() - i,
    {
        let ghost before = out@;
        out.push(lowered_string(lb.protocols[i].as_str()));
        assert(out@.map_values(|s: String| s@) =~= before.map_values(|s: String| s@).push(ps[i as int]));
        assert(ps.take(i + 1) =~= ps.take(i as int).push(ps[i as int]));
        i = i + 1;
    }
    assert(ps.take(i as int) =~= ps);
    assert(ps =~= lowered_protocols(*lb));
    out
}

/// Everything a health record holds, by value.
pub type HealthView = (
    Seq<char>,
    Seq<char>,
    Option<Seq<char>>,
    Option<u32>,
    Option<Seq<char>>,
    Option<Seq<char>>,
    Option<Seq<char>>,
    Option<u32>,
    Option<u16>,
    (Option<Seq<char>>, Option<Seq<char>>, Option<Seq<char>>),
    Option<Seq<char>>,
    Option<u32>,
);

pub open spec fn health_view(e: TargetHealthEntry) -> HealthView {
    (
        e.host_name@,
        e.name@,
        opt_text(e.description),
        e.inactive_retries,
        opt_text(e.probe_type),
        opt_text(e.probe_req),
        opt_text(e.probe_resp),
        e.probe_duration,
        e.probe_port,
        (opt_text(e.min_delay), opt_text(e.avg_delay), opt_text(e.max_delay)),
        opt_text(e.current_state),
        e.sync,
    )
}

pub open spec fn health_views(s: Seq<TargetHealthEntry>) -> Seq<HealthView> {
    s.map_values(|e: TargetHealthEntry| health_view(e))
}

pub open spec fn view_names(s: Seq<HealthView>) -> Seq<Seq<char>> {
    s.map_values(|h: HealthView| h.1)
}

/// The records with `v` in place of the first record of its name, or
/// appended when none has it.
pub open spec fn upserted(items: Seq<HealthView>, v: HealthView) -> Seq<HealthView> {
    match first_named(view_names(items), v.1, 0) {
        Some(i) => items.update(i, v),
        None => items.push(v),
    }
}

/// The observed state of the first record of a name, else the fallback.
pub open spec fn observed_state(items: Seq<HealthView>, name: Seq<char>, fallback: Seq<char>) -> Seq<char> {
    match first_named(view_names(items), name, 0) {
        Some(i) => match items[i].10 {
            Some(s) => s,
            None => fallback,
        },
        None => fallback,
    }
}

proof fn lemma_names_agree(items: Seq<TargetHealthEntry>)
    ensures
        entry_names(items) == view_names(health_views(items)),
{
    assert(entry_names(items) =~= view_names(health_views(items)));
}

pub fn upsert_health_entry(items: &mut Vec<TargetHealthEntry>, entry: TargetHealthEntry)
    ensures
        health_views(final(items)@) == upserted(health_views(old(items)@), health_view(entry)),
{
    proof {
        lemma_names_agree(items@);
    }
    let ghost before = items@;
    match find_entry(items, entry.name.as_str()) {
        Some(i) => {
            items.set(i, entry);
            assert(health_views(items@) =~= health_views(before).update(i as int, health_view(entry)));
        },
        None => {
            items.push(entry);
            assert(health_views(items@) =~= health_views(before).push(health_view(entry)));
        },
    }
}

fn observed(items: &Vec<TargetHealthEntry>, name: &String, fallback: &str) -> (r: String)
    ensures
        r@ == observed_state(health_views(items@), name@, fallback@),
{
    proof {
        lemma_names_agree(items@);
    }
    match find_entry(items, name.as_str()) {
        Some(i) => {
            assert(health_views(items@)[i as int] == health_view(items@[i as int]));
            match &items[i].current_state {
                Some(s) => s.clone(),
                None => fallback.to_string(),
            }
        },
        None => fallback.to_string(),
    }
}

/// Every protocol paired with every backend, protocol-major.
pub open spec fn record_pairs(protos: Seq<Seq<char>>, targets: Seq<RuntimeRuleTarget>) -> Seq<(Seq<char>, RuntimeRuleTarget)>
    decreases protos.len(),
{
    if protos.len() == 0 {
        seq![]
    } else {
        record_pairs(protos.drop_last(), targets) + targets.map_values(|t: RuntimeRuleTarget| (protos.last(), t))
    }
}

/// The record kept for a backend of a listener without probing: healthy
/// unless the probe worker observed otherwise.
pub open spec fn default_record(items: Seq<HealthView>, proto: Seq<char>, t: RuntimeRuleTarget) -> HealthView {
    let name = health_key(t.address@, proto, t.target_port);
    (
        t.address@,
        name,
        None,
        Some(0u32),
        Some("none"@),
        None,
        None,
        Some(0u32),
        Some(t.target_port),
        (None, None, None),
        Some(observed_state(items, name, "ok"@)),
        None,
    )
}

/// The record kept for a probed backend: unknown until observed.
pub open spec fn probe_record(items: Seq<HealthView>, proto: Seq<char>, t: RuntimeRuleTarget, probe: HealthProbeConfig) -> HealthView {
    let name = health_key(t.address@, proto, t.target_port);
    (
        t.address@,
        name,
        None,
        probe.inactive_retries,
        Some(lower(match opt_text(probe.probe_type) {
            Some(pt) => pt,
            None => proto,
        })),
        opt_text(probe.probe_req),
        opt_text(probe.probe_resp),
        probe.probe_duration,
        Some(match probe.probe_port {
            Some(p) => p,
            None => t.target_port,
        }),
        (None, None, None),
        Some(observed_state(items, name, "unknown"@)),
        None,
    )
}

/// The records after one record per pair was written in turn; a probe
/// config gives probe records, none gives default ones.
pub open spec fn with_records(items: Seq<HealthView>, pairs: Seq<(Seq<char>, RuntimeRuleTarget)>, probe: Option<HealthProbeConfig>) -> Seq<HealthView>
    decreases pairs.len(),
{
    if pairs.len() == 0 {
        items
    } else {
        let prev = with_records(items, pairs.drop_last(), probe);
        upserted(prev, record_for(prev, pairs.last(), probe))
    }
}

/// The record written for one protocol and backend.
pub open spec fn record_for(items: Seq<HealthView>, x: (Seq<char>, RuntimeRuleTarget), probe: Option<HealthProbeConfig>) -> HealthView {
    match probe {
        Some(p) => probe_record(items, x.0, x.1, p),
        None => default_record(items, x.0, x.1),
    }
}

proof fn lemma_record_pairs_step(protos: Seq<Seq<char>>, targets: Seq<RuntimeRuleTarget>, i: int)
    requires
        0 <= i < protos.len(),
    ensures
        record_pairs(protos.take(i + 1), targets) == record_pairs(protos.take(i), targets) + targets.map_values(|t: RuntimeRuleTarget| (protos[i], t)),
{
    assert(protos.take(i + 1).drop_last() =~= protos.take(i));
}

fn opt_string(o: &Option<String>) -> (r: Option<String>)
    ensures
        opt_text(r) == opt_text(*o),
{
    match o {
        Some(s) => Some(s.clone()),
        None => None,
    }
}

fn health_record(items: &Vec<TargetHealthEntry>, proto: &String, t: &RuntimeRuleTarget, probe: Option<&HealthProbeConfig>) -> (r: TargetHealthEntry)
    ensures
        health_view(r) == record_for(health_views(items@), (proto@, *t), match probe {
            Some(p) => Some(*p),
            None => None,
        }),
{
    let name = target_health_key(t.address.as_str(), proto.as_str(), t.target_port);
    match probe {
        None => {
            let current = observed(items, &name, "ok");
            TargetHealthEntry {
                host_name: t.address.clone(),
                name,
                description: None,
                inactive_retries: Some(0),
                probe_type: Some("none".to_string()),
                probe_req: None,
                probe_resp: None,
                probe_duration: Some(0),
                probe_port: Some(t.target_port),
                min_delay: None,
                avg_delay: None,
                max_delay: None,
                current_state: Some(current),
                sync: None,
            }
        },
        Some(p) => {
            let current = observed(items, &name, "unknown");
            let kind = match &p.probe_type {
                Some(pt) => lowered_string(pt.as_str()),
                None => lowered_string(proto.as_str()),
            };
            TargetHealthEntry {
                host_name: t.address.clone(),
                name,
                description: None,
                inactive_retries: p.inactive_retries,
                probe_type: Some(kind),
                probe_req: opt_string(&p.probe_req),
                probe_resp: opt_string(&p.probe_resp),
                probe_duration: p.probe_duration,
                probe_port: Some(match p.probe_port {
                    Some(port) => port,
                    None => t.target_port,
                }),
                min_delay: None,
                avg_delay: None,
                max_delay: None,
                current_state: Some(current),
                sync: None,
            }
        },
    }
}

/// Write a health record for every protocol and backend of a listener,
/// keeping the state the probe worker observed; desired listeners are
/// untouched.
fn ensure_health_records(state: &mut NativeProxyState, lb: &RuntimeRuleStateEntry, probe: Option<&HealthProbeConfig>)
    ensures
        final(state).listeners == old(state).listeners,
        health_views(final(state).target_health@) == with_records(
            health_views(old(state).target_health@),
            record_pairs(lowered_protocols(*lb), lb.targets@),
            match probe {
                Some(p) => Some(*p),
                None => None,
            },
        ),
{
    let ghost h0 = health_views(state.target_health@);
    let ghost pr = match probe {
        Some(p) => Some(*p),
        None => None,
    };
    let protocols = listener_protocols(lb);
    let ghost pv = protocols@.map_values(|s: String| s@);
    let ghost tv = lb.targets@;
    let mut i: usize = 0;
    while i < protocols.len()
        invariant
            i <= protocols@.len(),
            pv == protocols@.map_values(|s: String| s@),
            tv == lb.targets@,
            pr == (match probe {
                Some(p) => Some(*p),
                None => None,
            }),
            state.listeners == old(state).listeners,
            health_views(state.target_health@) == with_records(h0, record_pairs(pv.take(i as int), tv), pr),
        decreases protocols@.len() - i,
    {
        proof {
            lemma_record_pairs_step(pv, tv, i as int);
        }
        let ghost base = record_pairs(pv.take(i as int), tv);
        let mut j: usize = 0;
        while j < lb.targets.len()
            invariant
                i < protocols@.len(),
                j <= lb.targets@.len(),
                pv == protocols@.map_values(|s: String| s@),
                tv == lb.targets@,
                pr == (match probe {
                    Some(p) => Some(*p),
                    None => None,
                }),
                state.listeners == old(state).listeners,
                health_views(state.target_health@) == with_records(h0, base + tv.take(j as int).map_values(|t: RuntimeRuleTarget| (pv[i as int], t)), pr),
            decreases lb.targets@.len() - j,
        {
            let ghost prev_pairs = base + tv.take(j as int).map_values(|t: RuntimeRuleTarget| (pv[i as int], t));
            let ghost next_pairs = base + tv.take(j + 1).map_values(|t: RuntimeRuleTarget| (pv[i as int], t));
            assert(next_pairs.drop_last() =~= prev_pairs);
            assert(next_pairs.last() == (pv[i as int], tv[j as int]));
            assert(protocols@[i as int]@ == pv[i as int]);
            let rec = health_record(&state.target_health, &protocols[i], &lb.targets[j], probe);
            upsert_health_entry(&mut state.target_health, rec);
            j = j + 1;
        }
        assert(tv.take(j as int) =~= tv);
        i = i + 1;
    }
    assert(pv.take(i as int) =~= pv);
    assert(pv =~= lowered_protocols(*lb));
}

/// Runs of equal neighbours reduced to their first element.
pub open spec fn dedup_adjacent(s: Seq<Seq<char>>) -> Seq<Seq<char>>
    decreases s.len(),
{
    if s.len() <= 1 {
        s
    } else {
        let r = dedup_adjacent(s.drop_last());
        if s.last() == s[s.len() - 2] {
            r
        } else {
            r.push(s.last())
        }
    }
}

pub proof fn lemma_dedup_first(s: Seq<Seq<char>>)
    requires
        s.len() >= 1,
    ensures
        dedup_adjacent(s).len() >= 1,
        dedup_adjacent(s)[0] == s[0],
    decreases s.len(),
{
    if s.len() > 1 {
        lemma_dedup_first(s.drop_last());
    }
}

/// The protocols a stored listener keeps: its list in lower case without
/// repeated neighbours, or its spec protocol in lower case.
pub open spec fn norm_protocols(e: RuntimeRuleStateEntry) -> Seq<Seq<char>> {
    if e.protocols@.len() == 0 {
        seq![lower(e.spec.protocol@)]
    } else {
        dedup_adjacent(e.protocols@.map_values(|p: String| lower(p@)))
    }
}

/// The addresses a stored listener keeps: its own, or the defaults when it
/// names none; trimmed, blanks dropped.
pub open spec fn norm_vips(e: RuntimeRuleStateEntry, default_ips: Seq<String>) -> Seq<Seq<char>> {
    let src = if e.spec.vip_ips@.len() == 0 {
        default_ips
    } else {
        e.spec.vip_ips@
    };
    src.map_values(|s: String| trim(s@)).filter(|t: Seq<char>| t.len() > 0)
}

/// A stored backend: weight at least one, state `active` and counter
/// `0:0` unless set.
pub open spec fn norm_target(n: RuntimeRuleTarget, t: RuntimeRuleTarget) -> bool {
    &&& n.address@ == t.address@
    &&& n.target_port == t.target_port
    &&& n.weight == (if t.weight < 1 {
        1u32
    } else {
        t.weight
    })
    &&& opt_text(n.state) == Some(match opt_text(t.state) {
        Some(v) => v,
        None => "active"@,
    })
    &&& opt_text(n.counter) == Some(match opt_text(t.counter) {
        Some(v) => v,
        None => "0:0"@,
    })
}

/// `n` is the listener `e` as stored: normalized, with the default
/// addresses when it names none, monitored when `monitor` is set.
pub open spec fn stored_entry(n: RuntimeRuleStateEntry, e: RuntimeRuleStateEntry, default_ips: Seq<String>, monitor: bool) -> bool {
    &&& n.spec == (RuntimeRuleSpec {
        vip_ips: n.spec.vip_ips,
        protocol: n.spec.protocol,
        inactive_timeout: n.spec.inactive_timeout,
        monitor: n.spec.monitor,
        ..e.spec
    })
    &&& n.spec.vip_ips@.map_values(|s: String| s@) == norm_vips(e, default_ips)
    &&& n.protocols@.map_values(|s: String| s@) == norm_protocols(e)
    &&& n.spec.protocol@ == norm_protocols(e)[0]
    &&& n.spec.inactive_timeout == (if e.spec.inactive_timeout == 0 {
        240u32
    } else {
        e.spec.inactive_timeout
    })
    &&& n.spec.monitor == (monitor || e.spec.monitor)
    &&& n.targets@.len() == e.targets@.len()
    &&& forall|k: int| 0 <= k < n.targets@.len() ==> norm_target(#[trigger] n.targets@[k], e.targets@[k])
}

fn norm_protocol_list(e: &RuntimeRuleStateEntry) -> (r: Vec<String>)
    ensures
        r@.map_values(|s: String| s@) == norm_protocols(*e),
        r@.len() >= 1,
{
    let mut out: Vec<String> = Vec::new();
    if e.protocols.len() == 0 {
        out.push(lowered_string(e.spec.protocol.as_str()));
        assert(out@.map_values(|s: String| s@) =~= norm_protocols(*e));
        return out;
    }
    let ghost ls = e.protocols@.map_values(|p: String| lower(p@));
    let first = lowered_string(e.protocols[0].as_str());
    let mut last = crate::text::chars_of(first.as_str());
    out.push(first);
    assert(ls.take(1) =~= seq![ls[0]]);
    assert(out@.map_values(|s: String| s@) =~= dedup_adjacent(ls.take(1)));
    let mut i: usize = 1;
    while i < e.protocols.len()
        invariant
            1 <= i <= e.protocols@.len(),
            ls == e.protocols@.map_values(|p: String| lower(p@)),
            last@ == ls[i - 1],
            out@.map_values(|s: String| s@) == dedup_adjacent(ls.take(i as int)),
        decreases e.protocols@.len() - i,
    {
        let l = lowered_string(e.protocols[i].as_str());
        let lc = crate::text::chars_of(l.as_str());
        assert(ls.take(i + 1).drop_last() =~= ls.take(i as int));
        assert(ls.take(i + 1)[i - 1] == ls[i - 1]);
        if !crate::text::chars_eq(&lc, &last) {
            let ghost before = out@;
            out.push(l);
            assert(out@.map_values(|s: String| s@) =~= before.map_values(|s: String| s@).push(lc@));
        }
        last = lc;
        i = i + 1;
    }
    assert(ls.take(i as int) =~= ls);
    proof {
        lemma_dedup_first(ls);
    }
    out
}

fn norm_vip_list(e: &RuntimeRuleStateEntry, default_ips: &Vec<String>) -> (r: Vec<String>)
    ensures
        r@.map_values(|s: String| s@) == norm_vips(*e, default_ips@),
{
    let src = if e.spec.vip_ips.len() == 0 {
        default_ips
    } else {
        &e.spec.vip_ips
    };
    let ghost all = src@.map_values(|s: String| trim(s@));
    let mut out: Vec<String> = Vec::new();
    let mut i: usize = 0;
    while i < src.len()
        invariant
            i <= src@.len(),
            all == src@.map_values(|s: String| trim(s@)),
            out@.map_values(|s: String| s@) == all.take(i as int).filter(|t: Seq<char>| t.len() > 0),
        decreases src@.len() - i,
    {
        let t = crate::text::trimmed(src[i].as_str());
        proof {
            assert(all.take(i + 1).drop_last() =~= all.take(i as int));
            reveal(Seq::filter);
        }
        if t.len() > 0 {
            let ghost before = out@;
            out.push(crate::text::string_of(&t));
            assert(out@.map_values(|s: String| s@) =~= before.map_values(|s: String| s@).push(t@));
        }
        i = i + 1;
    }
    assert(all.take(i as int) =~= all);
    out
}

fn norm_target_of(t: &RuntimeRuleTarget) -> (r: RuntimeRuleTarget)
    ensures
        norm_target(r, *t),
{
    RuntimeRuleTarget {
        address: t.address.clone(),
        target_port: t.target_port,
        weight: if t.weight < 1 {
            1
        } else {
            t.weight
        },
        state: Some(match &t.state {
            Some(v) => v.clone(),
            None => "active".to_string(),
        }),
        counter: Some(match &t.counter {
            Some(v) => v.clone(),
            None => "0:0".to_string(),
        }),
    }
}

fn stored_entry_of(e: &RuntimeRuleStateEntry, default_ips: &Vec<String>, monitor: bool) -> (r: RuntimeRuleStateEntry)
    ensures
        stored_entry(r, *e, default_ips@, monitor),
{
    let protocols = norm_protocol_list(e);
    let protocol = protocols[0].clone();
    let mut targets: Vec<RuntimeRuleTarget> = Vec::new();
    let mut i: usize = 0;
    while i < e.targets.len()
        invariant
            i <= e.targets@.len(),
            targets@.len() == i,
            forall|k: int| 0 <= k < i ==> norm_target(#[trigger] targets@[k], e.targets@[k]),
        decreases e.targets@.len() - i,
    {
        targets.push(norm_target_of(&e.targets[i]));
        i = i + 1;
    }
    let s = &e.spec;
    RuntimeRuleStateEntry {
        spec: RuntimeRuleSpec {
            vip_ips: norm_vip_list(e, default_ips),
            port: s.port,
            protocol,
            sel: s.sel,
            mode: s.mode,
            bgp: s.bgp,
            monitor: monitor || s.monitor,
            probetype: clone_opt(&s.probetype),
            probeport: s.probeport,
            probereq: clone_opt(&s.probereq),
            proberesp: clone_opt(&s.proberesp),
            probe_timeout: s.probe_timeout,
            probe_retries: s.probe_retries,
            inactive_timeout: if s.inactive_timeout == 0 {
                240
            } else {
                s.inactive_timeout
            },
            block: s.block,
            name: clone_opt(&s.name),
            security: s.security,
            host: clone_opt(&s.host),
            proxyprotocolv2: s.proxyprotocolv2,
            egress: s.egress,
        },
        targets,
        protocols,
    }
}

/// An optional text trimmed, blank when unset.
pub open spec fn trimmed_or_blank(o: Option<Seq<char>>) -> Seq<char> {
    match o {
        Some(v) => trim(v),
        None => seq![],
    }
}

/// A listener name edge-lb made up itself: unset, or `<protocols>-<port>`
/// or `auto-<protocols>-<port>` for the protocol lists `tcp`, `udp`,
/// `tcp-udp` and `udp-tcp`.
pub open spec fn generated_name(name: Option<Seq<char>>, port: u16) -> bool {
    match name {
        None => true,
        Some(n) => {
            let t = trim(n);
            let d = "-"@ + decimal(port as nat);
            ||| t == "tcp"@ + d
            ||| t == "udp"@ + d
            ||| t == "tcp-udp"@ + d
            ||| t == "udp-tcp"@ + d
            ||| t == "auto-tcp"@ + d
            ||| t == "auto-udp"@ + d
            ||| t == "auto-tcp-udp"@ + d
            ||| t == "auto-udp-tcp"@ + d
        },
    }
}

fn is_prefixed(t: &Vec<char>, prefix: &str, d: &Vec<char>) -> (r: bool)
    ensures
        r == (t@ == prefix@ + d@),
{
    let mut c = crate::text::chars_of(prefix);
    crate::text::extend_chars(&mut c, d);
    crate::text::chars_eq(t, &c)
}

pub fn is_generated_listener_name(name: Option<&str>, port: u16) -> (r: bool)
    ensures
        r == generated_name(match name {
            Some(n) => Some(n@),
            None => None,
        }, port),
{
    match name {
        None => true,
        Some(n) => {
            let t = crate::text::trimmed(n);
            let mut d = crate::text::chars_of("-");
            crate::text::extend_chars(&mut d, &crate::text::decimal_chars(port as u64));
            is_prefixed(&t, "tcp", &d) || is_prefixed(&t, "udp", &d) || is_prefixed(&t, "tcp-udp", &d)
                || is_prefixed(&t, "udp-tcp", &d) || is_prefixed(&t, "auto-tcp", &d) || is_prefixed(&t, "auto-udp", &d)
                || is_prefixed(&t, "auto-tcp-udp", &d) || is_prefixed(&t, "auto-udp-tcp", &d)
        },
    }
}

fn name_is_generated(name: &Option<String>, port: u16) -> (r: bool)
    ensures
        r == generated_name(opt_text(*name), port),
{
    match name {
        None => true,
        Some(n) => is_generated_listener_name(Some(n.as_str()), port),
    }
}

fn trimmed_opt(o: &Option<String>) -> (r: Vec<char>)
    ensures
        r@ == trimmed_or_blank(opt_text(*o)),
{
    match o {
        Some(v) => crate::text::trimmed(v.as_str()),
        None => Vec::new(),
    }
}

/// What identifies a stored listener: addresses, port, host and name.
pub type ListenerKey = (Seq<Seq<char>>, u16, Option<Seq<char>>, Option<Seq<char>>);

pub open spec fn key_of(e: RuntimeRuleStateEntry) -> ListenerKey {
    (e.spec.vip_ips@.map_values(|s: String| s@), e.spec.port, opt_text(e.spec.host), opt_text(e.spec.name))
}

/// Keys of the same stored listener: a shared address, the same port and
/// host, and the same name or both a generated one.
pub open spec fn keys_match(a: ListenerKey, b: ListenerKey) -> bool {
    &&& exists|i: int, j: int| 0 <= i < a.0.len() && 0 <= j < b.0.len() && #[trigger] a.0[i] == #[trigger] b.0[j]
    &&& a.1 == b.1
    &&& trimmed_or_blank(a.2) == trimmed_or_blank(b.2)
    &&& (trimmed_or_blank(a.3) == trimmed_or_blank(b.3) || (generated_name(a.3, a.1) && generated_name(b.3, b.1)))
}

/// Two listeners are the same stored listener.
pub open spec fn same_identity(a: RuntimeRuleStateEntry, b: RuntimeRuleStateEntry) -> bool {
    keys_match(key_of(a), key_of(b))
}

fn shares_address(a: &Vec<String>, b: &Vec<String>) -> (r: bool)
    ensures
        r == exists|i: int, j: int| 0 <= i < a@.len() && 0 <= j < b@.len() && (#[trigger] a@[i])@ == (#[trigger] b@[j])@,
{
    let mut i: usize = 0;
    while i < a.len()
        invariant
            i <= a@.len(),
            forall|x: int, y: int| 0 <= x < i && 0 <= y < b@.len() ==> (#[trigger] a@[x])@ != (#[trigger] b@[y])@,
        decreases a@.len() - i,
    {
        let mut j: usize = 0;
        while j < b.len()
            invariant
                i < a@.len(),
                j <= b@.len(),
                forall|x: int, y: int| 0 <= x < i && 0 <= y < b@.len() ==> (#[trigger] a@[x])@ != (#[trigger] b@[y])@,
                forall|y: int| 0 <= y < j ==> a@[i as int]@ != (#[trigger] b@[y])@,
            decreases b@.len() - j,
        {
            if crate::registry::same_name(a[i].as_str(), b[j].as_str()) {
                return true;
            }
            j = j + 1;
        }
        i = i + 1;
    }
    false
}

pub fn same_listener_identity(a: &RuntimeRuleStateEntry, b: &RuntimeRuleStateEntry) -> (r: bool)
    ensures
        r == same_identity(*a, *b),
{
    let ghost ka = key_of(*a);
    let ghost kb = key_of(*b);
    let shared = shares_address(&a.spec.vip_ips, &b.spec.vip_ips);
    assert(shared == exists|i: int, j: int| 0 <= i < ka.0.len() && 0 <= j < kb.0.len() && #[trigger] ka.0[i] == #[trigger] kb.0[j]) by {
        if shared {
            let (i, j) = choose|i: int, j: int| 0 <= i < a.spec.vip_ips@.len() && 0 <= j < b.spec.vip_ips@.len() && (#[trigger] a.spec.vip_ips@[i])@ == (#[trigger] b.spec.vip_ips@[j])@;
            assert(ka.0[i] == kb.0[j]);
        }
        if exists|i: int, j: int| 0 <= i < ka.0.len() && 0 <= j < kb.0.len() && #[trigger] ka.0[i] == #[trigger] kb.0[j] {
            let (i, j) = choose|i: int, j: int| 0 <= i < ka.0.len() && 0 <= j < kb.0.len() && #[trigger] ka.0[i] == #[trigger] kb.0[j];
            assert(a.spec.vip_ips@[i]@ == b.spec.vip_ips@[j]@);
        }
    }
    if !shared || a.spec.port != b.spec.port {
        return false;
    }
    let ha = trimmed_opt(&a.spec.host);
    let hb = trimmed_opt(&b.spec.host);
    if !crate::text::chars_eq(&ha, &hb) {
        return false;
    }
    let na = trimmed_opt(&a.spec.name);
    let nb = trimmed_opt(&b.spec.name);
    crate::text::chars_eq(&na, &nb) || (name_is_generated(&a.spec.name, a.spec.port) && name_is_generated(&b.spec.name, b.spec.port))
}

/// Drop the listeners that are the same stored listener as `n`.
fn retain_other_listeners(listeners: &mut Vec<RuntimeRuleStateEntry>, n: &RuntimeRuleStateEntry)
    ensures
        final(listeners)@ == old(listeners)@.filter(|x: RuntimeRuleStateEntry| !same_identity(x, *n)),
{
    let ghost all = listeners@;
    let mut reversed: Vec<RuntimeRuleStateEntry> = Vec::new();
    while listeners.len() > 0
        invariant
            reversed@.len() + listeners@.len() == all.len(),
            listeners@ == all.take(listeners@.len() as int),
            forall|j: int| 0 <= j < reversed@.len() ==> #[trigger] reversed@[j] == all[all.len() - 1 - j],
        decreases listeners@.len(),
    {
        let t = listeners.pop().unwrap();
        reversed.push(t);
        assert(listeners@ =~= all.take(listeners@.len() as int));
    }
    let mut kept: Vec<RuntimeRuleStateEntry> = Vec::new();
    let ghost mut done: int = 0;
    while reversed.len() > 0
        invariant
            reversed@.len() + done == all.len(),
            0 <= done <= all.len(),
            forall|j: int| 0 <= j < reversed@.len() ==> #[trigger] reversed@[j] == all[all.len() - 1 - j],
            kept@ == all.take(done).filter(|x: RuntimeRuleStateEntry| !same_identity(x, *n)),
        decreases reversed@.len(),
    {
        let t = reversed.pop().unwrap();
        assert(t == all[done]);
        proof {
            assert(all.take(done + 1).drop_last() =~= all.take(done));
            reveal(Seq::filter);
        }
        if !same_listener_identity(&t, n) {
            kept.push(t);
        }
        proof {
            done = done + 1;
        }
    }
    assert(all.take(all.len() as int) =~= all);
    *listeners = kept;
}

/// Whether a probe config turns probing on.
pub open spec fn probing(probe: Option<HealthProbeConfig>) -> bool {
    match probe {
        Some(p) => crate::health::spec_probe_enabled(opt_text(p.probe_type)),
        None => false,
    }
}

/// `new` is the state of the old listeners and health records after
/// storing the listener `entry`: its last listener is `entry` as stored, the
/// listeners before it are the old ones that are not the same stored
/// listener, and the health records got one record per protocol and backend
/// of it.
pub open spec fn stored_listener(
    old_listeners: Seq<RuntimeRuleStateEntry>,
    old_health: Seq<TargetHealthEntry>,
    new: NativeProxyState,
    entry: RuntimeRuleStateEntry,
    probe: Option<HealthProbeConfig>,
    default_ips: Seq<String>,
) -> bool {
    let n = new.listeners@.last();
    &&& new.listeners@.len() >= 1
    &&& stored_entry(n, entry, default_ips, probing(probe))
    &&& new.listeners@.drop_last() == old_listeners.filter(|x: RuntimeRuleStateEntry| !same_identity(x, n))
    &&& health_views(new.target_health@) == with_records(
        health_views(old_health),
        record_pairs(lowered_protocols(n), n.targets@),
        if probing(probe) {
            probe
        } else {
            None
        },
    )
}

/// Store a listener: normalized (the default addresses when it names
/// none), in place of the stored listeners with the same identity, with a
/// health record for each protocol and backend. A probe config that turns
/// probing on marks the listener monitored and gives probe records.
pub fn create_runtime_rule_state(
    state: &mut NativeProxyState,
    entry: &RuntimeRuleStateEntry,
    target_group_probe: Option<&HealthProbeConfig>,
    default_ips: &Vec<String>,
)
    ensures
        stored_listener(old(state).listeners@, old(state).target_health@, *final(state), *entry, match target_group_probe {
            Some(p) => Some(*p),
            None => None,
        }, default_ips@),
{
    let probe_on = match target_group_probe {
        Some(p) => p.enabled(),
        None => false,
    };
    let n = stored_entry_of(entry, default_ips, probe_on);
    retain_other_listeners(&mut state.listeners, &n);
    if probe_on {
        ensure_health_records(state, &n, target_group_probe);
    } else {
        ensure_health_records(state, &n, None);
    }
    let ghost kept = state.listeners@;
    state.listeners.push(n);
    assert(state.listeners@.drop_last() =~= kept);
}

/// Replace the listeners of a name with a listener stored as
/// `create_runtime_rule_state` stores it.
pub fn replace_runtime_rule_state_by_name(
    state: &mut NativeProxyState,
    name: &str,
    entry: &RuntimeRuleStateEntry,
    target_group_probe: Option<&HealthProbeConfig>,
    default_ips: &Vec<String>,
)
    ensures
        stored_listener(
            old(state).listeners@.filter(|e: RuntimeRuleStateEntry| spec_listener_name(e) != name@),
            old(state).target_health@,
            *final(state),
            *entry,
            match target_group_probe {
                Some(p) => Some(*p),
                None => None,
            },
            default_ips@,
        ),
{
    let _ = crate::native_store::delete_listener(state, name);
    create_runtime_rule_state(state, entry, target_group_probe, default_ips);
}

/// A listener of the merged listing: the first stored listener of its
/// identity, with the addresses, protocols and name it has after merging.
pub type MergeView = (RuntimeRuleStateEntry, Seq<Seq<char>>, Seq<Seq<char>>, Option<Seq<char>>);

pub open spec fn merge_key(m: MergeView) -> ListenerKey {
    (m.1, m.0.spec.port, opt_text(m.0.spec.host), m.3)
}

pub open spec fn initial_merge(e: RuntimeRuleStateEntry) -> MergeView {
    (e, texts(e.spec.vip_ips@), texts(e.protocols@), opt_text(e.spec.name))
}

/// `acc` with each element of `s` appended that it does not hold yet.
pub open spec fn add_missing(acc: Seq<Seq<char>>, s: Seq<Seq<char>>) -> Seq<Seq<char>>
    decreases s.len(),
{
    if s.len() == 0 {
        acc
    } else {
        let prev = add_missing(acc, s.drop_last());
        if prev.contains(s.last()) {
            prev
        } else {
            prev.push(s.last())
        }
    }
}

/// `acc` holds `p` up to ASCII case.
pub open spec fn has_ignoring_case(acc: Seq<Seq<char>>, p: Seq<char>) -> bool {
    exists|i: int| 0 <= i < acc.len() && lower(#[trigger] acc[i]) == lower(p)
}

/// `acc` with each protocol of `s` appended, in lower case, that it does
/// not hold up to case.
pub open spec fn add_protocols(acc: Seq<Seq<char>>, s: Seq<Seq<char>>) -> Seq<Seq<char>>
    decreases s.len(),
{
    if s.len() == 0 {
        acc
    } else {
        let prev = add_protocols(acc, s.drop_last());
        if has_ignoring_case(prev, s.last()) {
            prev
        } else {
            prev.push(lower(s.last()))
        }
    }
}

/// A merged listener after merging one more stored listener of its
/// identity: its addresses and protocols joined, and a generated name
/// made again from the joined protocols when both names were generated.
pub open spec fn merge_step(m: MergeView, e: RuntimeRuleStateEntry) -> MergeView {
    let base = if m.2.len() == 0 {
        seq![m.0.spec.protocol@]
    } else {
        m.2
    };
    let protos = add_protocols(base, protocols_of(e));
    let name = if generated_name(m.3, m.0.spec.port) && generated_name(opt_text(e.spec.name), e.spec.port) {
        Some(join(protos, "-"@) + "-"@ + decimal(m.0.spec.port as nat))
    } else {
        m.3
    };
    (m.0, add_missing(m.1, texts(e.spec.vip_ips@)), protos, name)
}

pub open spec fn first_match(out: Seq<MergeView>, k: ListenerKey, from: int) -> Option<int>
    decreases out.len() - from,
{
    if from < 0 || from >= out.len() {
        None
    } else if keys_match(merge_key(out[from]), k) {
        Some(from)
    } else {
        first_match(out, k, from + 1)
    }
}

/// The stored listeners with each merged into the first one of its
/// identity.
pub open spec fn merged_listing(ls: Seq<RuntimeRuleStateEntry>) -> Seq<MergeView>
    decreases ls.len(),
{
    if ls.len() == 0 {
        seq![]
    } else {
        let prev = merged_listing(ls.drop_last());
        let e = ls.last();
        match first_match(prev, key_of(e), 0) {
            Some(k) => prev.update(k, merge_step(prev[k], e)),
            None => prev.push(initial_merge(e)),
        }
    }
}

/// `r` is the listener a merge view describes.
pub open spec fn realizes(r: RuntimeRuleStateEntry, m: MergeView) -> bool {
    &&& r.spec == (RuntimeRuleSpec { vip_ips: r.spec.vip_ips, name: r.spec.name, ..m.0.spec })
    &&& r.targets@ == m.0.targets@
    &&& texts(r.spec.vip_ips@) == m.1
    &&& texts(r.protocols@) == m.2
    &&& opt_text(r.spec.name) == m.3
}

fn clone_strings(v: &Vec<String>) -> (r: Vec<String>)
    ensures
        r@ == v@,
{
    let mut out: Vec<String> = Vec::new();
    let mut i: usize = 0;
    while i < v.len()
        invariant
            i <= v@.len(),
            out@ == v@.take(i as int),
        decreases v@.len() - i,
    {
        out.push(v[i].clone());
        assert(v@.take(i + 1) =~= v@.take(i as int).push(v@[i as int]));
        i = i + 1;
    }
    assert(v@.take(i as int) =~= v@);
    out
}

fn clone_target_exact(t: &RuntimeRuleTarget) -> (r: RuntimeRuleTarget)
    ensures
        r == *t,
{
    RuntimeRuleTarget {
        address: t.address.clone(),
        target_port: t.target_port,
        weight: t.weight,
        state: clone_opt(&t.state),
        counter: clone_opt(&t.counter),
    }
}

fn clone_target_list(v: &Vec<RuntimeRuleTarget>) -> (r: Vec<RuntimeRuleTarget>)
    ensures
        r@ == v@,
{
    let mut out: Vec<RuntimeRuleTarget> = Vec::new();
    let mut i: usize = 0;
    while i < v.len()
        invariant
            i <= v@.len(),
            out@ == v@.take(i as int),
        decreases v@.len() - i,
    {
        out.push(clone_target_exact(&v[i]));
        assert(v@.take(i + 1) =~= v@.take(i as int).push(v@[i as int]));
        i = i + 1;
    }
    assert(v@.take(i as int) =~= v@);
    out
}

fn with_merged_fields(e: &RuntimeRuleStateEntry, vip_ips: Vec<String>, protocols: Vec<String>, name: Option<String>) -> (r: RuntimeRuleStateEntry)
    ensures
        r.spec == (RuntimeRuleSpec { vip_ips: vip_ips, name: name, ..e.spec }),
        r.targets@ == e.targets@,
        r.protocols == protocols,
{
    let s = &e.spec;
    RuntimeRuleStateEntry {
        spec: RuntimeRuleSpec {
            vip_ips,
            port: s.port,
            protocol: s.protocol.clone(),
            sel: s.sel,
            mode: s.mode,
            bgp: s.bgp,
            monitor: s.monitor,
            probetype: clone_opt(&s.probetype),
            probeport: s.probeport,
            probereq: clone_opt(&s.probereq),
            proberesp: clone_opt(&s.proberesp),
            probe_timeout: s.probe_timeout,
            probe_retries: s.probe_retries,
            inactive_timeout: s.inactive_timeout,
            block: s.block,
            name,
            security: s.security,
            host: clone_opt(&s.host),
            proxyprotocolv2: s.proxyprotocolv2,
            egress: s.egress,
        },
        targets: clone_target_list(&e.targets),
        protocols,
    }
}

fn holds_ignoring_case(v: &Vec<String>, p: &str) -> (r: bool)
    ensures
        r == has_ignoring_case(texts(v@), p@),
{
    let lp = crate::text::lower_chars(&crate::text::chars_of(p));
    let mut i: usize = 0;
    while i < v.len()
        invariant
            i <= v@.len(),
            lp@ == lower(p@),
            forall|j: int| 0 <= j < i ==> lower(#[trigger] texts(v@)[j]) != lower(p@),
        decreases v@.len() - i,
    {
        let lc = crate::text::lower_chars(&crate::text::chars_of(v[i].as_str()));
        assert(texts(v@)[i as int] == v@[i as int]@);
        if crate::text::chars_eq(&lc, &lp) {
            return true;
        }
        i = i + 1;
    }
    false
}

fn protocol_list(e: &RuntimeRuleStateEntry) -> (r: Vec<String>)
    ensures
        texts(r@) == protocols_of(*e),
{
    if e.protocols.len() == 0 {
        let mut v: Vec<String> = Vec::new();
        v.push(e.spec.protocol.clone());
        assert(texts(v@) =~= protocols_of(*e));
        v
    } else {
        let v = clone_strings(&e.protocols);
        assert(texts(v@) =~= protocols_of(*e));
        v
    }
}

fn merge_into(existing: &RuntimeRuleStateEntry, incoming: &RuntimeRuleStateEntry, Ghost(m): Ghost<MergeView>) -> (r: RuntimeRuleStateEntry)
    requires
        realizes(*existing, m),
    ensures
        realizes(r, merge_step(m, *incoming)),
{
    let ghost step = merge_step(m, *incoming);
    let mut vips = clone_strings(&existing.spec.vip_ips);
    let ghost add = texts(incoming.spec.vip_ips@);
    let mut i: usize = 0;
    while i < incoming.spec.vip_ips.len()
        invariant
            i <= incoming.spec.vip_ips@.len(),
            add == texts(incoming.spec.vip_ips@),
            texts(vips@) == add_missing(m.1, add.take(i as int)),
        decreases incoming.spec.vip_ips@.len() - i,
    {
        assert(add.take(i + 1).drop_last() =~= add.take(i as int));
        assert(add[i as int] == incoming.spec.vip_ips@[i as int]@);
        if !contains_text(&vips, incoming.spec.vip_ips[i].as_str()) {
            let ghost before = vips@;
            vips.push(incoming.spec.vip_ips[i].clone());
            assert(texts(vips@) =~= texts(before).push(add[i as int]));
        }
        i = i + 1;
    }
    assert(add.take(i as int) =~= add);
    let mut protos = if existing.protocols.len() == 0 {
        let mut v: Vec<String> = Vec::new();
        v.push(existing.spec.protocol.clone());
        assert(texts(v@) =~= seq![m.0.spec.protocol@]);
        v
    } else {
        clone_strings(&existing.protocols)
    };
    let ghost base = texts(protos@);
    let incoming_protos = protocol_list(incoming);
    let ghost ip = texts(incoming_protos@);
    let mut k: usize = 0;
    while k < incoming_protos.len()
        invariant
            k <= incoming_protos@.len(),
            ip == texts(incoming_protos@),
            texts(protos@) == add_protocols(base, ip.take(k as int)),
        decreases incoming_protos@.len() - k,
    {
        assert(ip.take(k + 1).drop_last() =~= ip.take(k as int));
        assert(ip[k as int] == incoming_protos@[k as int]@);
        if !holds_ignoring_case(&protos, incoming_protos[k].as_str()) {
            let ghost before = protos@;
            protos.push(lowered_string(incoming_protos[k].as_str()));
            assert(texts(protos@) =~= texts(before).push(lower(ip[k as int])));
        }
        k = k + 1;
    }
    assert(ip.take(k as int) =~= ip);
    let name = if name_is_generated(&existing.spec.name, existing.spec.port) && name_is_generated(&incoming.spec.name, incoming.spec.port) {
        let mut n = crate::native_store::join_strings(&protos, "-");
        crate::text::extend_chars(&mut n, &crate::text::chars_of("-"));
        crate::text::extend_chars(&mut n, &crate::text::decimal_chars(existing.spec.port as u64));
        Some(crate::text::string_of(&n))
    } else {
        clone_opt(&existing.spec.name)
    };
    assert(texts(protos@) =~= protos@.map_values(|p: String| p@));
    with_merged_fields(existing, vips, protos, name)
}

fn clone_entry(e: &RuntimeRuleStateEntry) -> (r: RuntimeRuleStateEntry)
    ensures
        realizes(r, initial_merge(*e)),
{
    with_merged_fields(e, clone_strings(&e.spec.vip_ips), clone_strings(&e.protocols), clone_opt(&e.spec.name))
}

proof fn lemma_realized_key(r: RuntimeRuleStateEntry, m: MergeView)
    requires
        realizes(r, m),
    ensures
        key_of(r) == merge_key(m),
{
    assert(key_of(r).0 =~= m.1);
}

fn find_same(out: &Vec<RuntimeRuleStateEntry>, e: &RuntimeRuleStateEntry, Ghost(ms): Ghost<Seq<MergeView>>) -> (r: Option<usize>)
    requires
        out@.len() == ms.len(),
        forall|k: int| 0 <= k < ms.len() ==> realizes(#[trigger] out@[k], ms[k]),
    ensures
        r matches Some(k) ==> k < out@.len() && first_match(ms, key_of(*e), 0) == Some(k as int),
        r is None ==> first_match(ms, key_of(*e), 0) is None,
{
    let mut k: usize = 0;
    while k < out.len()
        invariant
            k <= out@.len(),
            out@.len() == ms.len(),
            forall|j: int| 0 <= j < ms.len() ==> realizes(#[trigger] out@[j], ms[j]),
            first_match(ms, key_of(*e), 0) == first_match(ms, key_of(*e), k as int),
        decreases out@.len() - k,
    {
        proof {
            lemma_realized_key(out@[k as int], ms[k as int]);
        }
        if same_listener_identity(&out[k], e) {
            return Some(k);
        }
        k = k + 1;
    }
    None
}

/// The stored listeners with each merged into the first one of its
/// identity: addresses and protocols joined, generated names remade.
pub fn runtime_rules_native(state: &NativeProxyState) -> (r: RuntimeRuleStateList)
    ensures
        r.rules@.len() == merged_listing(state.listeners@).len(),
        forall|k: int| 0 <= k < r.rules@.len() ==> realizes(#[trigger] r.rules@[k], merged_listing(state.listeners@)[k]),
{
    let ghost ls = state.listeners@;
    let mut out: Vec<RuntimeRuleStateEntry> = Vec::new();
    let mut i: usize = 0;
    while i < state.listeners.len()
        invariant
            i <= ls.len(),
            ls == state.listeners@,
            out@.len() == merged_listing(ls.take(i as int)).len(),
            forall|k: int| 0 <= k < out@.len() ==> realizes(#[trigger] out@[k], merged_listing(ls.take(i as int))[k]),
        decreases ls.len() - i,
    {
        let ghost ms = merged_listing(ls.take(i as int));
        assert(ls.take(i + 1).drop_last() =~= ls.take(i as int));
        let e = &state.listeners[i];
        match find_same(&out, e, Ghost(ms)) {
            Some(k) => {
                let merged = merge_into(&out[k], e, Ghost(ms[k as int]));
                out.set(k, merged);
            },
            None => {
                let c = clone_entry(e);
                out.push(c);
            },
        }
        i = i + 1;
    }
    assert(ls.take(i as int) =~= ls);
    RuntimeRuleStateList { rules: out }
}

/// A stored backend as the runtime API reports it: address, port and
/// weight, no probe settings.
pub open spec fn managed_of(t: ManagedTarget, x: RuntimeRuleTarget) -> bool {
    &&& t.backend_ip@ == x.address@
    &&& t.backend_port == x.target_port
    &&& t.weight == x.weight
    &&& t.probe_type is None
    &&& t.probe_port is None
    &&& t.probe_req is None
    &&& t.probe_resp is None
    &&& t.period_secs is None
    &&& t.retries is None
}

/// `r` reports the (merged) listener `m`: its first address, its backends,
/// the first backend as the primary one (blank when there is none), a
/// zero timeout or mark reported as unset.
pub open spec fn reported(r: RuntimeRuleEntry, m: MergeView) -> bool {
    let s = m.0.spec;
    let ts = m.0.targets@;
    &&& opt_text(r.name) == m.3
    &&& r.vip_ip@ == (if m.1.len() > 0 {
        m.1[0]
    } else {
        Seq::<char>::empty()
    })
    &&& r.protocol@ == s.protocol@
    &&& r.vip_port == s.port
    &&& r.endpoints@.len() == ts.len()
    &&& forall|k: int| 0 <= k < ts.len() ==> managed_of(#[trigger] r.endpoints@[k], ts[k])
    &&& if ts.len() > 0 {
        r.backend_ip@ == ts[0].address@ && r.backend_port == ts[0].target_port && r.backend_weight == ts[0].weight
    } else {
        r.backend_ip@ == Seq::<char>::empty() && r.backend_port == 0 && r.backend_weight == 0
    }
    &&& r.select == s.sel
    &&& r.mode == s.mode
    &&& r.bgp == s.bgp
    &&& r.monitor == s.monitor
    &&& r.inactive_timeout == (if s.inactive_timeout != 0 {
        Some(s.inactive_timeout)
    } else {
        None
    })
    &&& r.mark == (if s.block != 0 {
        Some(s.block)
    } else {
        None
    })
    &&& r.security == s.security
    &&& opt_text(r.host) == opt_text(s.host)
    &&& r.proxy_protocol_v2 == s.proxyprotocolv2
    &&& r.egress == s.egress
}

fn managed_target(x: &RuntimeRuleTarget) -> (r: ManagedTarget)
    ensures
        managed_of(r, *x),
{
    ManagedTarget {
        backend_ip: x.address.clone(),
        backend_port: x.target_port,
        weight: x.weight,
        probe_type: None,
        probe_port: None,
        probe_req: None,
        probe_resp: None,
        period_secs: None,
        retries: None,
    }
}

pub fn runtime_rule_entry_from_native(item: &RuntimeRuleStateEntry) -> (r: RuntimeRuleEntry)
    ensures
        reported(r, initial_merge(*item)),
{
    let mut endpoints: Vec<ManagedTarget> = Vec::new();
    let mut i: usize = 0;
    while i < item.targets.len()
        invariant
            i <= item.targets@.len(),
            endpoints@.len() == i,
            forall|k: int| 0 <= k < i ==> managed_of(#[trigger] endpoints@[k], item.targets@[k]),
        decreases item.targets@.len() - i,
    {
        endpoints.push(managed_target(&item.targets[i]));
        i = i + 1;
    }
    let (backend_ip, backend_port, backend_weight) = if item.targets.len() > 0 {
        (item.targets[0].address.clone(), item.targets[0].target_port, item.targets[0].weight)
    } else {
        (String::new(), 0u16, 0u32)
    };
    let s = &item.spec;
    RuntimeRuleEntry {
        name: clone_opt(&s.name),
        vip_ip: if s.vip_ips.len() > 0 {
            s.vip_ips[0].clone()
        } else {
            String::new()
        },
        protocol: s.protocol.clone(),
        vip_port: s.port,
        backend_port,
        backend_ip,
        backend_weight,
        endpoints,
        select: s.sel,
        mode: s.mode,
        bgp: s.bgp,
        monitor: s.monitor,
        inactive_timeout: if s.inactive_timeout != 0 {
            Some(s.inactive_timeout)
        } else {
            None
        },
        mark: if s.block != 0 {
            Some(s.block)
        } else {
            None
        },
        security: s.security,
        host: clone_opt(&s.host),
        proxy_protocol_v2: s.proxyprotocolv2,
        egress: s.egress,
    }
}

/// The merged stored listeners as the runtime API reports them.
pub fn get_runtime_rules(state: &NativeProxyState) -> (r: Vec<RuntimeRuleEntry>)
    ensures
        r@.len() == merged_listing(state.listeners@).len(),
        forall|k: int| 0 <= k < r@.len() ==> reported(#[trigger] r@[k], merged_listing(state.listeners@)[k]),
{
    let ghost ms = merged_listing(state.listeners@);
    let rules = runtime_rules_native(state);
    let mut out: Vec<RuntimeRuleEntry> = Vec::new();
    let mut i: usize = 0;
    while i < rules.rules.len()
        invariant
            i <= rules.rules@.len(),
            rules.rules@.len() == ms.len(),
            forall|k: int| 0 <= k < rules.rules@.len() ==> realizes(#[trigger] rules.rules@[k], ms[k]),
            out@.len() == i,
            forall|k: int| 0 <= k < i ==> reported(#[trigger] out@[k], ms[k]),
        decreases rules.rules@.len() - i,
    {
        let e = runtime_rule_entry_from_native(&rules.rules[i]);
        assert(realizes(rules.rules@[i as int], ms[i as int]));
        out.push(e);
        i = i + 1;
    }
    out
}

/// Why a listener could not be stored.
#[derive(Clone, Debug, PartialEq, Eq)]
pub enum StoreError {
    /// No target group has the listener's group name.
    TargetGroupNotFound(String),
    /// The listener forwards to port 0.
    TargetPortOutOfRange(String),
    /// The listener names no protocol.
    NoProtocol,
}

/// What a refusal to store a listener says.
pub open spec fn store_error_message(e: StoreError) -> Seq<char> {
    match e {
        StoreError::TargetGroupNotFound(g) => "target group "@ + g@ + " not found"@,
        StoreError::TargetPortOutOfRange(l) => "listener "@ + l@ + " target_port must be in range 1..=65535"@,
        StoreError::NoProtocol => "listener must select at least one protocol"@,
    }
}

impl StoreError {
    pub fn message(&self) -> (r: String)
        ensures
            r@ == store_error_message(*self),
    {
        match self {
            StoreError::TargetGroupNotFound(g) => {
                let mut cs = crate::text::chars_of("target group ");
                crate::text::extend_chars(&mut cs, &crate::text::chars_of(g.as_str()));
                crate::text::extend_chars(&mut cs, &crate::text::chars_of(" not found"));
                crate::text::string_of(&cs)
            },
            StoreError::TargetPortOutOfRange(l) => {
                let mut cs = crate::text::chars_of("listener ");
                crate::text::extend_chars(&mut cs, &crate::text::chars_of(l.as_str()));
                crate::text::extend_chars(&mut cs, &crate::text::chars_of(" target_port must be in range 1..=65535"));
                crate::text::string_of(&cs)
            },
            StoreError::NoProtocol => "listener must select at least one protocol".to_string(),
        }
    }
}

/// The probe settings a monitored target group gives its listeners.
pub open spec fn group_probe(g: TargetGroup) -> Option<HealthProbeConfig> {
    if g.monitor {
        Some(HealthProbeConfig {
            probe_type: g.probe_type,
            probe_port: g.probe_port,
            probe_req: g.probe_req,
            probe_resp: g.probe_resp,
            expected_status: g.probe_status,
            skip_tls_verify: g.probe_skip_tls_verify,
            probe_duration: g.period_secs,
            inactive_retries: g.retries,
        })
    } else {
        None
    }
}

pub fn target_group_probe(group: &TargetGroup) -> (r: Option<HealthProbeConfig>)
    ensures
        r == group_probe(*group),
{
    if group.monitor {
        Some(HealthProbeConfig {
            probe_type: clone_opt(&group.probe_type),
            probe_port: group.probe_port,
            probe_req: clone_opt(&group.probe_req),
            probe_resp: clone_opt(&group.probe_resp),
            expected_status: group.probe_status,
            skip_tls_verify: group.probe_skip_tls_verify,
            probe_duration: group.period_secs,
            inactive_retries: group.retries,
        })
    } else {
        None
    }
}

/// `e` is the stored form of listener `l` over group `g`, whose backends
/// resolved to `addrs`: one aggregate entry without addresses of its own,
/// the group's probe settings, every backend forwarding to the listener's
/// target port.
pub open spec fn listener_entry(e: RuntimeRuleStateEntry, l: Listener, g: TargetGroup, addrs: Seq<String>) -> bool {
    let s = e.spec;
    &&& s.vip_ips@.len() == 0
    &&& s.port == l.port
    &&& s.protocol@ == protocol_name(l.protocols@[0])
    &&& s.sel == select_code(l.select)
    &&& s.mode == mode_code(l.mode)
    &&& !s.bgp
    &&& s.monitor == g.monitor
    &&& s.probetype == g.probe_type
    &&& s.probeport == g.probe_port
    &&& s.probereq == g.probe_req
    &&& s.proberesp == g.probe_resp
    &&& s.probe_timeout == g.period_secs
    &&& s.probe_retries == g.retries
    &&& s.inactive_timeout == (match l.inactive_timeout {
        Some(t) => t,
        None => 240u32,
    })
    &&& s.block == 0
    &&& opt_text(s.name) == Some(l.name@)
    &&& s.security is None
    &&& s.host is None
    &&& !s.proxyprotocolv2
    &&& !s.egress
    &&& texts(e.protocols@) == l.protocols@.map_values(|p: crate::config::Protocol| protocol_name(p))
    &&& e.targets@.len() == g.targets@.len()
    &&& forall|k: int| 0 <= k < e.targets@.len() ==> {
        let t = #[trigger] e.targets@[k];
        &&& t.address@ == addrs[k]@
        &&& t.target_port == l.target_port
        &&& t.weight == g.targets@[k].weight
        &&& opt_text(t.state) == Some("active"@)
        &&& opt_text(t.counter) == Some("0:0"@)
    }
}

/// The stored form of a listener over its target group; `addrs` are the
/// resolved addresses of the group's backends.
pub fn listener_entries(listener: &Listener, group: &TargetGroup, addrs: &Vec<String>) -> (r: Result<Vec<RuntimeRuleStateEntry>, StoreError>)
    requires
        addrs@.len() == group.targets@.len(),
    ensures
        listener.target_port == 0 ==> r == Err::<Vec<RuntimeRuleStateEntry>, StoreError>(StoreError::TargetPortOutOfRange(listener.name)),
        listener.target_port != 0 && listener.protocols@.len() == 0 ==> r == Err::<Vec<RuntimeRuleStateEntry>, StoreError>(StoreError::NoProtocol),
        listener.target_port != 0 && listener.protocols@.len() > 0 ==> (r matches Ok(v) && v@.len() == 1 && listener_entry(v@[0], *listener, *group, addrs@)),
{
    if listener.target_port == 0 {
        return Err(StoreError::TargetPortOutOfRange(listener.name.clone()));
    }
    let mut targets: Vec<RuntimeRuleTarget> = Vec::new();
    let mut i: usize = 0;
    while i < group.targets.len()
        invariant
            i <= group.targets@.len(),
            addrs@.len() == group.targets@.len(),
            targets@.len() == i,
            forall|k: int| 0 <= k < i ==> {
                let t = #[trigger] targets@[k];
                &&& t.address@ == addrs@[k]@
                &&& t.target_port == listener.target_port
                &&& t.weight == group.targets@[k].weight
                &&& opt_text(t.state) == Some("active"@)
                &&& opt_text(t.counter) == Some("0:0"@)
            },
        decreases group.targets@.len() - i,
    {
        targets.push(RuntimeRuleTarget {
            address: addrs[i].clone(),
            target_port: listener.target_port,
            weight: group.targets[i].weight,
            state: Some("active".to_string()),
            counter: Some("0:0".to_string()),
        });
        i = i + 1;
    }
    if listener.protocols.len() == 0 {
        return Err(StoreError::NoProtocol);
    }
    let mut protocols: Vec<String> = Vec::new();
    let mut k: usize = 0;
    while k < listener.protocols.len()
        invariant
            k <= listener.protocols@.len(),
            texts(protocols@) == listener.protocols@.take(k as int).map_values(|p: crate::config::Protocol| protocol_name(p)),
        decreases listener.protocols@.len() - k,
    {
        let ghost before = protocols@;
        protocols.push(listener.protocols[k].as_str().to_string());
        assert(texts(protocols@) =~= texts(before).push(protocol_name(listener.protocols@[k as int])));
        assert(listener.protocols@.take(k + 1).map_values(|p: crate::config::Protocol| protocol_name(p)) =~= listener.protocols@.take(k as int).map_values(|p: crate::config::Protocol| protocol_name(p)).push(protocol_name(listener.protocols@[k as int])));
        k = k + 1;
    }
    assert(listener.protocols@.take(k as int) =~= listener.protocols@);
    let entry = RuntimeRuleStateEntry {
        spec: RuntimeRuleSpec {
            vip_ips: Vec::new(),
            port: listener.port,
            protocol: listener.protocols[0].as_str().to_string(),
            sel: listener.select.code(),
            mode: listener.mode.code(),
            bgp: false,
            monitor: group.monitor,
            probetype: clone_opt(&group.probe_type),
            probeport: group.probe_port,
            probereq: clone_opt(&group.probe_req),
            proberesp: clone_opt(&group.probe_resp),
            probe_timeout: group.period_secs,
            probe_retries: group.retries,
            inactive_timeout: match listener.inactive_timeout {
                Some(t) => t,
                None => 240,
            },
            block: 0,
            name: Some(listener.name.clone()),
            security: None,
            host: None,
            proxyprotocolv2: false,
            egress: false,
        },
        targets,
        protocols,
    };
    let mut out: Vec<RuntimeRuleStateEntry> = Vec::new();
    out.push(entry);
    Ok(out)
}

/// The first target group of a name.
pub open spec fn first_group(groups: Seq<TargetGroup>, name: Seq<char>, from: int) -> Option<int>
    decreases groups.len() - from,
{
    if from < 0 || from >= groups.len() {
        None
    } else if groups[from].name@ == name {
        Some(from)
    } else {
        first_group(groups, name, from + 1)
    }
}

fn find_group(groups: &Vec<TargetGroup>, name: &str) -> (r: Option<usize>)
    ensures
        r matches Some(i) ==> i < groups@.len() && first_group(groups@, name@, 0) == Some(i as int),
        r is None ==> first_group(groups@, name@, 0) is None,
{
    let mut i: usize = 0;
    while i < groups.len()
        invariant
            i <= groups@.len(),
            first_group(groups@, name@, 0) == first_group(groups@, name@, i as int),
        decreases groups@.len() - i,
    {
        if crate::registry::same_name(groups[i].name.as_str(), name) {
            return Some(i);
        }
        i = i + 1;
    }
    None
}

/// Store a listener over its target group as `create_runtime_rule_state`
/// stores it, with the group's probe settings. `resolved[i]` are the
/// resolved addresses of the backends of `groups[i]`. Fails, leaving the
/// state as it was, when no group has the listener's group name, when the
/// listener forwards to port 0 or names no protocol.
pub fn create_or_update_listener(
    state: &mut NativeProxyState,
    listener: &Listener,
    groups: &Vec<TargetGroup>,
    resolved: &Vec<Vec<String>>,
    default_ips: &Vec<String>,
) -> (r: Result<(), StoreError>)
    requires
        resolved@.len() == groups@.len(),
        forall|i: int| 0 <= i < groups@.len() ==> (#[trigger] resolved@[i])@.len() == groups@[i].targets@.len(),
    ensures
        ({
            match first_group(groups@, listener.target_group@, 0) {
                None => r == Err::<(), StoreError>(StoreError::TargetGroupNotFound(listener.target_group)) && *final(state) == *old(state),
                Some(gi) => {
                    let g = groups@[gi];
                    if listener.target_port == 0 {
                        r == Err::<(), StoreError>(StoreError::TargetPortOutOfRange(listener.name)) && *final(state) == *old(state)
                    } else if listener.protocols@.len() == 0 {
                        r == Err::<(), StoreError>(StoreError::NoProtocol) && *final(state) == *old(state)
                    } else {
                        &&& r is Ok
                        &&& exists|e: RuntimeRuleStateEntry| #[trigger] listener_entry(e, *listener, g, resolved@[gi]@)
                            && stored_listener(old(state).listeners@, old(state).target_health@, *final(state), e, group_probe(g), default_ips@)
                    }
                },
            }
        }),
{
    let gi = match find_group(groups, listener.target_group.as_str()) {
        None => return Err(StoreError::TargetGroupNotFound(listener.target_group.clone())),
        Some(i) => i,
    };
    let group = &groups[gi];
    let entries = match listener_entries(listener, group, &resolved[gi]) {
        Err(e) => return Err(e),
        Ok(v) => v,
    };
    let probe = target_group_probe(group);
    let e = &entries[0];
    create_runtime_rule_state(state, e, probe.as_ref(), default_ips);
    Ok(())
}

} // verus!
