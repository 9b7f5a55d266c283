//! Which targets the native probe worker probes, how, and under which
//! health identities; and how a round of probe verdicts updates the
//! observed health records.

use vstd::prelude::*;
use crate::config::{Listener, TargetGroup, Protocol};
use crate::health::{spec_probe_enabled, TargetHealthEntry, ProbeOutcome, DEFAULT_PERIOD_SECS, DEFAULT_RETRIES};
use crate::text::{trim, lower, decimal};
use crate::ipnet::ipv4_text;
use crate::route_msg::IpAddress;
use crate::registry::NameMap;

verus! {

pub open spec fn opt_text(o: Option<String>) -> Option<Seq<char>> {
    match o {
        Some(s) => Some(s@),
        None => None,
    }
}

/// The probe type of a group, trimmed and in lower case (blank when unset).
pub open spec fn probe_kind(g: TargetGroup) -> Seq<char> {
    match g.probe_type {
        Some(t) => lower(trim(t@)),
        None => seq![],
    }
}

/// The probe types the worker can run.
pub open spec fn executable_probe(k: Seq<char>) -> bool {
    k == "ping"@ || k == "tcp"@ || k == "udp"@ || k == "http"@ || k == "https"@
}

/// Some listener forwards to the group.
pub open spec fn group_bound(listeners: Seq<Listener>, name: Seq<char>) -> bool {
    exists|i: int| 0 <= i < listeners.len() && (#[trigger] listeners[i]).target_group@ == name
}

/// A group is probed when a listener uses it, monitoring is on, and its
/// probe type is set and not `none`.
pub open spec fn monitored(listeners: Seq<Listener>, g: TargetGroup) -> bool {
    group_bound(listeners, g.name@) && g.monitor && spec_probe_enabled(opt_text(g.probe_type))
}

/// Index of the first listener of the group.
pub open spec fn first_bound(listeners: Seq<Listener>, name: Seq<char>, from: int) -> Option<int>
    decreases listeners.len() - from,
{
    if from < 0 || from >= listeners.len() {
        None
    } else if listeners[from].target_group@ == name {
        Some(from)
    } else {
        first_bound(listeners, name, from + 1)
    }
}

/// The port a group is probed on: none for ping; else the group's probe
/// port, else the target port of the first listener of the group.
pub open spec fn probe_port_of(listeners: Seq<Listener>, g: TargetGroup) -> u16 {
    if probe_kind(g) == "ping"@ {
        0
    } else {
        match g.probe_port {
            Some(p) => p,
            None => match first_bound(listeners, g.name@, 0) {
                Some(i) => listeners[i].target_port,
                None => 0,
            },
        }
    }
}

/// A listener identity key: protocol (TCP before UDP), then target port.
pub open spec fn identity_key(p: Protocol, port: u16) -> u32 {
    ((match p {
        Protocol::Tcp => 0u32,
        Protocol::Udp => 1u32,
    }) * 65536 + port) as u32
}

/// The identity keys of the listeners of a group.
pub open spec fn has_identity(listeners: Seq<Listener>, name: Seq<char>, k: u32) -> bool {
    exists|i: int, j: int|
        0 <= i < listeners.len() && 0 <= j < listeners[i].protocols@.len() && (#[trigger] listeners[i]).target_group@ == name
            && k == identity_key(#[trigger] listeners[i].protocols@[j], listeners[i].target_port)
}

pub open spec fn strictly_increasing(s: Seq<u32>) -> bool {
    forall|a: int, b: int| 0 <= a < b < s.len() ==> s[a] < s[b]
}

/// The health identity of a target under a listener identity:
/// `address_protocol_port`.
pub open spec fn spec_identity(address: u32, protocol: Seq<char>, port: u16) -> Seq<char> {
    ipv4_text(address) + seq!['_'] + lower(trim(protocol)) + seq!['_'] + decimal(port as nat)
}

pub fn target_health_identity(address: u32, protocol: &str, service_port: u16) -> (r: String)
    ensures
        r@ == spec_identity(address, protocol@, service_port),
{
    let mut out = crate::text::chars_of(crate::ipnet::format_ipv4(address).as_str());
    out.push('_');
    let p = crate::text::trimmed(protocol);
    crate::text::extend_chars(&mut out, &crate::text::lower_chars(&p));
    out.push('_');
    crate::text::extend_chars(&mut out, &crate::text::decimal_chars(service_port as u64));
    crate::text::string_of(&out)
}

/// The name of an identity key.
pub open spec fn key_name(address: u32, k: u32) -> Seq<char> {
    spec_identity(address, if k / 65536 == 0 { "tcp"@ } else { "udp"@ }, (k % 65536) as u16)
}

/// A probe the worker runs: one target of a group, recorded under every
/// listener identity of the group.
#[derive(Clone, Debug, PartialEq, Eq)]
pub struct ProbeTarget {
    pub names: Vec<String>,
    pub address: u32,
    pub port: u16,
    pub probe_type: String,
    pub probe_req: Option<String>,
    pub probe_resp: Option<String>,
    pub expected_status: Option<u16>,
    pub skip_tls_verify: bool,
    pub timeout_ms: u64,
    pub period_secs: u64,
    pub retries: u32,
}

/// The probe period of a group in seconds: its own (default 5), at least 1.
pub open spec fn period_of(g: TargetGroup) -> u64 {
    let p = match g.period_secs {
        Some(p) => p as u64,
        None => DEFAULT_PERIOD_SECS,
    };
    if p < 1 {
        1
    } else {
        p
    }
}

/// What a scheduled probe of `address` in group `g` holds.
pub open spec fn probe_of(t: ProbeTarget, listeners: Seq<Listener>, g: TargetGroup, address: u32, keys: Seq<u32>) -> bool {
    &&& t.names@.len() == keys.len()
    &&& forall|i: int| 0 <= i < keys.len() ==> (#[trigger] t.names@[i])@ == key_name(address, keys[i])
    &&& t.address == address
    &&& t.port == probe_port_of(listeners, g)
    &&& t.probe_type@ == probe_kind(g)
    &&& opt_text(t.probe_req) == opt_text(g.probe_req)
    &&& opt_text(t.probe_resp) == opt_text(g.probe_resp)
    &&& t.expected_status == g.probe_status
    &&& t.skip_tls_verify == g.probe_skip_tls_verify
    &&& t.period_secs == period_of(g)
    &&& t.timeout_ms == (if period_of(g) < 3 { period_of(g) } else { 3 }) * 1000
    &&& t.retries == (match g.retries {
        Some(r) => if r < 1 { 1 } else { r },
        None => DEFAULT_RETRIES,
    })
}

/// A resolved address the worker can probe: IPv4, neither unspecified nor loopback.
pub open spec fn probeable(a: IpAddress) -> bool {
    match a {
        IpAddress::V4(v) => v != 0 && v / 16777216 != 127,
        IpAddress::V6(_) => false,
    }
}

/// The addresses of a group that get a probe, in target order.
pub open spec fn probed_addresses(addresses: Seq<IpAddress>) -> Seq<u32>
    decreases addresses.len(),
{
    if addresses.len() == 0 {
        seq![]
    } else {
        let rest = probed_addresses(addresses.drop_last());
        if probeable(addresses.last()) {
            rest.push(addresses.last()->V4_0)
        } else {
            rest
        }
    }
}

/// Whether a group gets probes at all.
pub open spec fn scheduled_group(listeners: Seq<Listener>, g: TargetGroup) -> bool {
    monitored(listeners, g) && executable_probe(probe_kind(g))
}

/// The identity keys of a group in increasing order, each once.
pub open spec fn identity_seq(listeners: Seq<Listener>, name: Seq<char>) -> Seq<u32> {
    choose|s: Seq<u32>| strictly_increasing(s) && forall|k: u32| s.contains(k) <==> has_identity(listeners, name, k)
}

proof fn lemma_increasing_unique(a: Seq<u32>, b: Seq<u32>)
    requires
        strictly_increasing(a),
        strictly_increasing(b),
        forall|k: u32| a.contains(k) <==> b.contains(k),
    ensures
        a == b,
    decreases a.len(),
{
    if a.len() == 0 {
        if b.len() > 0 {
            assert(b.contains(b[0]));
        }
        assert(a =~= b);
    } else if b.len() == 0 {
        assert(a.contains(a[0]));
    } else {
        // the least elements agree
        assert(a.contains(a[0]));
        assert(b.contains(b[0]));
        let ia = choose|i: int| 0 <= i < a.len() && a[i] == b[0];
        let ib = choose|i: int| 0 <= i < b.len() && b[i] == a[0];
        assert(a[0] <= a[ia]);
        assert(b[0] <= b[ib]);
        assert(a[0] == b[0]);
        let a2 = a.drop_first();
        let b2 = b.drop_first();
        assert forall|k: u32| a2.contains(k) <==> b2.contains(k) by {
            if a2.contains(k) {
                let i = choose|i: int| 0 <= i < a2.len() && a2[i] == k;
                assert(a[i + 1] == k);
                assert(b.contains(k));
                let j = choose|j: int| 0 <= j < b.len() && b[j] == k;
                assert(j != 0);
                assert(b2[j - 1] == k);
            }
            if b2.contains(k) {
                let j = choose|j: int| 0 <= j < b2.len() && b2[j] == k;
                assert(b[j + 1] == k);
                assert(a.contains(k));
                let i = choose|i: int| 0 <= i < a.len() && a[i] == k;
                assert(i != 0);
                assert(a2[i - 1] == k);
            }
        }
        lemma_increasing_unique(a2, b2);
        assert(a =~= seq![a[0]] + a2);
        assert(b =~= seq![b[0]] + b2);
    }
}

fn insert_sorted(v: &mut Vec<u32>, k: u32)
    requires
        strictly_increasing(old(v)@),
    ensures
        strictly_increasing(final(v)@),
        forall|x: u32| final(v)@.contains(x) <==> old(v)@.contains(x) || x == k,
{
    let mut p: usize = 0;
    while p < v.len() && v[p] < k
        invariant
            p <= v@.len(),
            v@ == old(v)@,
            forall|j: int| 0 <= j < p ==> v@[j] < k,
        decreases v@.len() - p,
    {
        p = p + 1;
    }
    if p < v.len() && v[p] == k {
        assert(v@[p as int] == k);
        return;
    }
    let ghost s = v@;
    assert(s == old(v)@);
    v.insert(p, k);
    assert forall|a: int, b: int| 0 <= a < b < v@.len() implies v@[a] < v@[b] by {
        if b < p {
        } else if b == p {
        } else if a < p {
            assert(v@[b] == s[b - 1]);
            assert(s[p as int] >= k);
        } else if a == p {
            assert(v@[b] == s[b - 1]);
            assert(s[p as int] > k);
            assert(s[p as int] <= s[b - 1]);
        } else {
            assert(v@[a] == s[a - 1] && v@[b] == s[b - 1]);
        }
    }
    assert forall|x: u32| v@.contains(x) <==> s.contains(x) || x == k by {
        if v@.contains(x) {
            let i = choose|i: int| 0 <= i < v@.len() && v@[i] == x;
            if i < p {
                assert(s[i] == x);
            } else if i > p {
                assert(s[i - 1] == x);
            }
        }
        if s.contains(x) {
            let i = choose|i: int| 0 <= i < s.len() && s[i] == x;
            if i < p {
                assert(v@[i] == x);
            } else {
                assert(v@[i + 1] == x);
            }
        }
        if x == k {
            assert(v@[p as int] == k);
        }
    }
}

/// The identity keys of the listeners of group `name`, in increasing order.
pub fn listener_identities(listeners: &Vec<Listener>, name: &str) -> (r: Vec<u32>)
    ensures
        r@ == identity_seq(listeners@, name@),
{
    let mut keys: Vec<u32> = Vec::new();
    let mut i: usize = 0;
    while i < listeners.len()
        invariant
            i <= listeners@.len(),
            strictly_increasing(keys@),
            forall|k: u32| keys@.contains(k) <==> exists|a: int, j: int|
                0 <= a < i && 0 <= j < listeners@[a].protocols@.len() && (#[trigger] listeners@[a]).target_group@ == name@
                    && k == identity_key(#[trigger] listeners@[a].protocols@[j], listeners@[a].target_port),
        decreases listeners@.len() - i,
    {
        let l = &listeners[i];
        if crate::registry::same_name(l.target_group.as_str(), name) {
            let mut j: usize = 0;
            while j < l.protocols.len()
                invariant
                    i < listeners@.len(),
                    *l == listeners@[i as int],
                    l.target_group@ == name@,
                    j <= l.protocols@.len(),
                    strictly_increasing(keys@),
                    forall|k: u32| keys@.contains(k) <==> (exists|a: int, t: int|
                        0 <= a < i && 0 <= t < listeners@[a].protocols@.len() && (#[trigger] listeners@[a]).target_group@ == name@
                            && k == identity_key(#[trigger] listeners@[a].protocols@[t], listeners@[a].target_port))
                        || (exists|t: int| 0 <= t < j && k == identity_key(#[trigger] l.protocols@[t], l.target_port)),
                decreases l.protocols@.len() - j,
            {
                let code: u32 = match l.protocols[j] {
                    Protocol::Tcp => 0,
                    Protocol::Udp => 1,
                };
                let k = code * 65536 + l.target_port as u32;
                assert(k == identity_key(l.protocols@[j as int], l.target_port));
                insert_sorted(&mut keys, k);
                j = j + 1;
            }
            assert forall|k: u32| keys@.contains(k) <==> exists|a: int, t: int|
                0 <= a < i + 1 && 0 <= t < listeners@[a].protocols@.len() && (#[trigger] listeners@[a]).target_group@ == name@
                    && k == identity_key(#[trigger] listeners@[a].protocols@[t], listeners@[a].target_port) by {
                if keys@.contains(k) {
                    if exists|t: int| 0 <= t < j && k == identity_key(#[trigger] l.protocols@[t], l.target_port) {
                        let t = choose|t: int| 0 <= t < j && k == identity_key(#[trigger] l.protocols@[t], l.target_port);
                        assert(listeners@[i as int].protocols@[t] == l.protocols@[t]);
                    }
                }
                if exists|a: int, t: int|
                    0 <= a < i + 1 && 0 <= t < listeners@[a].protocols@.len() && (#[trigger] listeners@[a]).target_group@ == name@
                        && k == identity_key(#[trigger] listeners@[a].protocols@[t], listeners@[a].target_port) {
                    let (a, t) = choose|a: int, t: int|
                        0 <= a < i + 1 && 0 <= t < listeners@[a].protocols@.len() && (#[trigger] listeners@[a]).target_group@ == name@
                            && k == identity_key(#[trigger] listeners@[a].protocols@[t], listeners@[a].target_port);
                    if a == i {
                        assert(l.protocols@[t] == listeners@[a].protocols@[t]);
                    }
                }
            }
        } else {
            assert forall|k: u32| keys@.contains(k) <==> exists|a: int, t: int|
                0 <= a < i + 1 && 0 <= t < listeners@[a].protocols@.len() && (#[trigger] listeners@[a]).target_group@ == name@
                    && k == identity_key(#[trigger] listeners@[a].protocols@[t], listeners@[a].target_port) by {
                if exists|a: int, t: int|
                    0 <= a < i + 1 && 0 <= t < listeners@[a].protocols@.len() && (#[trigger] listeners@[a]).target_group@ == name@
                        && k == identity_key(#[trigger] listeners@[a].protocols@[t], listeners@[a].target_port) {
                    let (a, t) = choose|a: int, t: int|
                        0 <= a < i + 1 && 0 <= t < listeners@[a].protocols@.len() && (#[trigger] listeners@[a]).target_group@ == name@
                            && k == identity_key(#[trigger] listeners@[a].protocols@[t], listeners@[a].target_port);
                    assert(a != i);
                }
            }
        }
        i = i + 1;
    }
    proof {
        let c = identity_seq(listeners@, name@);
        assert(strictly_increasing(keys@) && forall|k: u32| keys@.contains(k) <==> has_identity(listeners@, name@, k));
        lemma_increasing_unique(keys@, c);
    }
    keys
}

/// The probes of a round, as (group, address) pairs in group then target
/// order: each target of a probed group whose resolved address can be
/// probed, provided some listener identity names it.
pub open spec fn schedule(listeners: Seq<Listener>, groups: Seq<TargetGroup>, resolved: Seq<Seq<IpAddress>>) -> Seq<(TargetGroup, u32)>
    decreases groups.len(),
{
    if groups.len() == 0 {
        seq![]
    } else {
        let rest = schedule(listeners, groups.drop_last(), resolved.take(groups.len() - 1));
        let g = groups.last();
        if scheduled_group(listeners, g) && identity_seq(listeners, g.name@).len() > 0 {
            rest + probed_addresses(resolved[groups.len() - 1]).map_values(|a: u32| (g, a))
        } else {
            rest
        }
    }
}

fn is_text(cs: &Vec<char>, lit: &str) -> (r: bool)
    ensures
        r == (cs@ == lit@),
{
    crate::text::chars_eq(cs, &crate::text::chars_of(lit))
}

fn probe_kind_of(g: &TargetGroup) -> (r: Vec<char>)
    ensures
        r@ == probe_kind(*g),
{
    match &g.probe_type {
        Some(t) => {
            let tt = crate::text::trimmed(t.as_str());
            crate::text::lower_chars(&tt)
        },
        None => Vec::new(),
    }
}

fn is_monitored(listeners: &Vec<Listener>, g: &TargetGroup) -> (r: bool)
    ensures
        r == monitored(listeners@, *g),
{
    if !g.monitor {
        return false;
    }
    let enabled = match &g.probe_type {
        Some(t) => {
            let tt = crate::text::trimmed(t.as_str());
            let l = crate::text::lower_chars(&tt);
            proof {
                reveal_strlit("none");
            }
            tt.len() > 0 && !is_text(&l, "none")
        },
        None => false,
    };
    if !enabled {
        return false;
    }
    let mut i: usize = 0;
    while i < listeners.len()
        invariant
            i <= listeners@.len(),
            g.monitor,
            spec_probe_enabled(opt_text(g.probe_type)),
            forall|j: int| 0 <= j < i ==> (#[trigger] listeners@[j]).target_group@ != g.name@,
        decreases listeners@.len() - i,
    {
        if crate::registry::same_name(listeners[i].target_group.as_str(), g.name.as_str()) {
            return true;
        }
        i = i + 1;
    }
    false
}

fn probe_port_for(listeners: &Vec<Listener>, g: &TargetGroup, kind: &Vec<char>) -> (r: u16)
    requires
        kind@ == probe_kind(*g),
    ensures
        r == probe_port_of(listeners@, *g),
{
    proof {
        reveal_strlit("ping");
    }
    if is_text(kind, "ping") {
        return 0;
    }
    if let Some(p) = g.probe_port {
        return p;
    }
    let mut i: usize = 0;
    while i < listeners.len()
        invariant
            i <= listeners@.len(),
            probe_kind(*g) != "ping"@,
            g.probe_port is None,
            first_bound(listeners@, g.name@, 0) == first_bound(listeners@, g.name@, i as int),
        decreases listeners@.len() - i,
    {
        if crate::registry::same_name(listeners[i].target_group.as_str(), g.name.as_str()) {
            return listeners[i].target_port;
        }
        i = i + 1;
    }
    0
}

fn clone_opt(o: &Option<String>) -> (r: Option<String>)
    ensures
        opt_text(r) == opt_text(*o),
{
    match o {
        Some(s) => Some(s.clone()),
        None => None,
    }
}

fn identity_names(address: u32, keys: &Vec<u32>) -> (r: Vec<String>)
    ensures
        r@.len() == keys@.len(),
        forall|i: int| 0 <= i < keys@.len() ==> (#[trigger] r@[i])@ == key_name(address, keys@[i]),
{
    let mut out: Vec<String> = Vec::new();
    let mut i: usize = 0;
    while i < keys.len()
        invariant
            i <= keys@.len(),
            out@.len() == i,
            forall|j: int| 0 <= j < i ==> (#[trigger] out@[j])@ == key_name(address, keys@[j]),
        decreases keys@.len() - i,
    {
        let k = keys[i];
        let proto = if k / 65536 == 0 { "tcp" } else { "udp" };
        let name = target_health_identity(address, proto, (k % 65536) as u16);
        proof {
            reveal_strlit("tcp");
            reveal_strlit("udp");
            assert(trim("tcp"@) =~= "tcp"@) by {
                crate::text::lemma_trim_plain("tcp"@);
            }
            assert(trim("udp"@) =~= "udp"@) by {
                crate::text::lemma_trim_plain("udp"@);
            }
            assert(lower("tcp"@) =~= "tcp"@);
            assert(lower("udp"@) =~= "udp"@);
        }
        out.push(name);
        i = i + 1;
    }
    out
}

/// The probes of one round over the groups, with the resolved address of
/// each target of each group.
pub fn scheduled_targets(listeners: &Vec<Listener>, groups: &Vec<TargetGroup>, resolved: &Vec<Vec<IpAddress>>) -> (r: Vec<ProbeTarget>)
    requires
        resolved@.len() == groups@.len(),
    ensures
        ({
            let sched = schedule(listeners@, groups@, resolved@.map_values(|v: Vec<IpAddress>| v@));
            &&& r@.len() == sched.len()
            &&& forall|i: int| 0 <= i < sched.len() ==> probe_of(#[trigger] r@[i], listeners@, sched[i].0, sched[i].1, identity_seq(listeners@, sched[i].0.name@))
        }),
{
    let ghost rv = resolved@.map_values(|v: Vec<IpAddress>| v@);
    let mut out: Vec<ProbeTarget> = Vec::new();
    let mut gi: usize = 0;
    while gi < groups.len()
        invariant
            gi <= groups@.len(),
            resolved@.len() == groups@.len(),
            rv == resolved@.map_values(|v: Vec<IpAddress>| v@),
            out@.len() == schedule(listeners@, groups@.take(gi as int), rv.take(gi as int)).len(),
            forall|i: int| 0 <= i < out@.len() ==> probe_of(#[trigger] out@[i], listeners@,
                schedule(listeners@, groups@.take(gi as int), rv.take(gi as int))[i].0,
                schedule(listeners@, groups@.take(gi as int), rv.take(gi as int))[i].1,
                identity_seq(listeners@, schedule(listeners@, groups@.take(gi as int), rv.take(gi as int))[i].0.name@)),
        decreases groups@.len() - gi,
    {
        let g = &groups[gi];
        let ghost prev = schedule(listeners@, groups@.take(gi as int), rv.take(gi as int));
        let ghost gs1 = groups@.take(gi + 1);
        let ghost rv1 = rv.take(gi + 1);
        assert(gs1.drop_last() =~= groups@.take(gi as int));
        assert(rv1.take(gs1.len() - 1) =~= rv.take(gi as int));
        assert(gs1.last() == *g);
        assert(rv1[gs1.len() - 1] == resolved@[gi as int]@);
        let kind = probe_kind_of(g);
        proof {
            reveal_strlit("ping");
            reveal_strlit("tcp");
            reveal_strlit("udp");
            reveal_strlit("http");
            reveal_strlit("https");
        }
        let runnable = is_text(&kind, "ping") || is_text(&kind, "tcp") || is_text(&kind, "udp") || is_text(&kind, "http")
            || is_text(&kind, "https");
        if is_monitored(listeners, g) && runnable {
            let keys = listener_identities(listeners, g.name.as_str());
            if keys.len() > 0 {
                let port = probe_port_for(listeners, g, &kind);
                let period: u64 = match g.period_secs {
                    Some(p) => if p < 1 { 1 } else { p as u64 },
                    None => DEFAULT_PERIOD_SECS,
                };
                let timeout_ms: u64 = (if period < 3 { period } else { 3 }) * 1000;
                let retries: u32 = match g.retries {
                    Some(r) => if r < 1 { 1 } else { r },
                    None => DEFAULT_RETRIES,
                };
                let addrs = &resolved[gi];
                let ghost base = out@;
                let ghost adds = probed_addresses(addrs@);
                assert(forall|i: int| 0 <= i < base.len() ==> probe_of(#[trigger] base[i], listeners@, prev[i].0, prev[i].1, identity_seq(listeners@, prev[i].0.name@)));
                let mut t: usize = 0;
                while t < addrs.len()
                    invariant
                        t <= addrs@.len(),
                        out@.len() == base.len() + probed_addresses(addrs@.take(t as int)).len(),
                        forall|i: int| 0 <= i < base.len() ==> out@[i] == base[i],
                        forall|i: int| 0 <= i < probed_addresses(addrs@.take(t as int)).len() ==> probe_of(#[trigger] out@[base.len() + i], listeners@, *g,
                            probed_addresses(addrs@.take(t as int))[i], identity_seq(listeners@, g.name@)),
                        keys@ == identity_seq(listeners@, g.name@),
                        kind@ == probe_kind(*g),
                        port == probe_port_of(listeners@, *g),
                        period == period_of(*g),
                        timeout_ms == (if period_of(*g) < 3 { period_of(*g) } else { 3 }) * 1000,
                        retries == (match g.retries {
                            Some(r) => if r < 1 { 1 } else { r },
                            None => DEFAULT_RETRIES,
                        }),
                    decreases addrs@.len() - t,
                {
                    assert(addrs@.take(t + 1).drop_last() =~= addrs@.take(t as int));
                    let a = addrs[t];
                    let ok = match a {
                        IpAddress::V4(v) => v != 0 && v / 16777216 != 127,
                        IpAddress::V6(_) => false,
                    };
                    if ok {
                        let v = match a {
                            IpAddress::V4(v) => v,
                            IpAddress::V6(_) => 0,
                        };
                        let target = ProbeTarget {
                            names: identity_names(v, &keys),
                            address: v,
                            port,
                            probe_type: crate::text::string_of(&kind),
                            probe_req: clone_opt(&g.probe_req),
                            probe_resp: clone_opt(&g.probe_resp),
                            expected_status: g.probe_status,
                            skip_tls_verify: g.probe_skip_tls_verify,
                            timeout_ms,
                            period_secs: period,
                            retries,
                        };
                        out.push(target);
                    }
                    t = t + 1;
                }
                assert(addrs@.take(t as int) =~= addrs@);
                proof {
                    let next = schedule(listeners@, gs1, rv1);
                    assert(next == prev + adds.map_values(|a: u32| (*g, a)));
                    assert forall|i: int| 0 <= i < out@.len() implies probe_of(#[trigger] out@[i], listeners@, next[i].0, next[i].1, identity_seq(listeners@, next[i].0.name@)) by {
                        if i >= base.len() {
                            let k = i - base.len();
                            assert(out@[base.len() + k] == out@[i]);
                            assert(next[i] == (*g, adds[k]));
                        } else {
                            assert(out@[i] == base[i]);
                            assert(next[i] == prev[i]);
                        }
                    }
                }
            }
        }
        gi = gi + 1;
    }
    assert(groups@.take(gi as int) =~= groups@);
    assert(rv.take(gi as int) =~= rv);
    out
}

/// Consecutive failures once a probe result is in: zero after success, one
/// more after failure (held at the maximum).
pub open spec fn next_failures(before: Option<u32>, outcome: ProbeOutcome) -> u32 {
    match outcome {
        ProbeOutcome::Pass => 0,
        ProbeOutcome::Fail => {
            let f = match before {
                Some(f) => f,
                None => 0,
            };
            if f == u32::MAX {
                u32::MAX
            } else {
                (f + 1) as u32
            }
        },
    }
}

/// Record a verdict in the worker's failure counters (kept by probe key).
pub fn record_outcome(counters: &mut NameMap<u32>, key: &str, outcome: ProbeOutcome) -> (r: u32)
    requires
        old(counters).wf(),
    ensures
        final(counters).wf(),
        r == next_failures(if old(counters)@.contains_key(key@) { Some(old(counters)@[key@]) } else { None }, outcome),
        final(counters)@ == old(counters)@.insert(key@, r),
{
    let before = match counters.get(key) {
        Some(f) => Some(*f),
        None => None,
    };
    let r = match outcome {
        ProbeOutcome::Pass => 0,
        ProbeOutcome::Fail => match before {
            Some(f) => f.saturating_add(1),
            None => 1,
        },
    };
    counters.insert(key.to_string(), r);
    r
}

/// One observed-health update: the record name, the verdict (`ok` when
/// true), and the consecutive failures behind it.
#[derive(Clone, Debug, PartialEq, Eq)]
pub struct HealthUpdate {
    pub name: String,
    pub healthy: bool,
    pub failures: u32,
}

/// The counter key of a probe: its first name.
pub open spec fn names_key(names: Seq<String>) -> Seq<char> {
    if names.len() > 0 {
        names[0]@
    } else {
        seq![]
    }
}

pub open spec fn update_view(u: HealthUpdate) -> (Seq<char>, bool, u32) {
    (u.name@, u.healthy, u.failures)
}

pub open spec fn target_names(ts: Seq<ProbeTarget>) -> Seq<Seq<Seq<char>>> {
    ts.map_values(|t: ProbeTarget| t.names@.map_values(|n: String| n@))
}

/// The failures counted for each probe of a round in order, and the
/// counters after the round.
pub open spec fn round_failures(c: Map<Seq<char>, u32>, names: Seq<Seq<Seq<char>>>, outcomes: Seq<ProbeOutcome>) -> (Seq<u32>, Map<Seq<char>, u32>)
    decreases names.len(),
{
    if names.len() == 0 {
        (seq![], c)
    } else {
        let (fs, c2) = round_failures(c, names.drop_last(), outcomes.take(names.len() - 1));
        let key = if names.last().len() > 0 { names.last()[0] } else { seq![] };
        let f = next_failures(if c2.contains_key(key) { Some(c2[key]) } else { None }, outcomes[names.len() - 1]);
        (fs.push(f), c2.insert(key, f))
    }
}

/// The updates of a round: for each probe in order, one per name, with the
/// probe's verdict and its counted failures.
pub open spec fn round_updates(names: Seq<Seq<Seq<char>>>, outcomes: Seq<ProbeOutcome>, fs: Seq<u32>) -> Seq<(Seq<char>, bool, u32)>
    decreases names.len(),
{
    if names.len() == 0 {
        seq![]
    } else {
        let t = names.len() - 1;
        round_updates(names.drop_last(), outcomes.take(t), fs.take(t)) + names.last().map_values(
            |n: Seq<char>| (n, outcomes[t] == ProbeOutcome::Pass, fs[t]),
        )
    }
}

proof fn lemma_round_failures_len(c: Map<Seq<char>, u32>, names: Seq<Seq<Seq<char>>>, outcomes: Seq<ProbeOutcome>)
    ensures
        round_failures(c, names, outcomes).0.len() == names.len(),
    decreases names.len(),
{
    if names.len() > 0 {
        lemma_round_failures_len(c, names.drop_last(), outcomes.take(names.len() - 1));
    }
}

pub fn health_updates(targets: &Vec<ProbeTarget>, outcomes: &Vec<ProbeOutcome>, counters: &mut NameMap<u32>) -> (r: Vec<HealthUpdate>)
    requires
        old(counters).wf(),
        targets@.len() == outcomes@.len(),
    ensures
        final(counters).wf(),
        ({
            let (fs, c) = round_failures(old(counters)@, target_names(targets@), outcomes@);
            &&& final(counters)@ == c
            &&& r@.map_values(|u: HealthUpdate| update_view(u)) == round_updates(target_names(targets@), outcomes@, fs)
        }),
{
    let ghost c0 = counters@;
    let ghost tn = target_names(targets@);
    let ghost mut fs: Seq<u32> = seq![];
    let mut out: Vec<HealthUpdate> = Vec::new();
    let mut t: usize = 0;
    while t < targets.len()
        invariant
            t <= targets@.len(),
            targets@.len() == outcomes@.len(),
            tn == target_names(targets@),
            counters.wf(),
            (fs, counters@) == round_failures(c0, tn.take(t as int), outcomes@.take(t as int)),
            out@.map_values(|u: HealthUpdate| update_view(u)) == round_updates(tn.take(t as int), outcomes@.take(t as int), fs),
        decreases targets@.len() - t,
    {
        let target = &targets[t];
        let outcome = outcomes[t];
        assert(tn.take(t + 1).drop_last() =~= tn.take(t as int));
        assert(outcomes@.take(t + 1).take(t as int) =~= outcomes@.take(t as int));
        assert(tn.take(t + 1).last() == target.names@.map_values(|n: String| n@));
        let key = if target.names.len() > 0 {
            target.names[0].clone()
        } else {
            String::new()
        };
        let failures = record_outcome(counters, key.as_str(), outcome);
        let ghost fs_old = fs;
        proof {
            lemma_round_failures_len(c0, tn.take(t as int), outcomes@.take(t as int));
            fs = fs.push(failures);
            assert(fs.take(t as int) =~= fs_old);
        }
        let healthy = match outcome {
            ProbeOutcome::Pass => true,
            ProbeOutcome::Fail => false,
        };
        let ghost before = out@.map_values(|u: HealthUpdate| update_view(u));
        let ghost bl = out@.len();
        let mut j: usize = 0;
        while j < target.names.len()
            invariant
                t < targets@.len(),
                *target == targets@[t as int],
                healthy == (outcome == ProbeOutcome::Pass),
                j <= target.names@.len(),
                out@.len() == bl + j,
                out@.map_values(|u: HealthUpdate| update_view(u)) == before + target.names@.take(j as int).map_values(
                    |n: String| (n@, healthy, failures),
                ),
            decreases target.names@.len() - j,
        {
            let ghost prev = out@;
            out.push(HealthUpdate { name: target.names[j].clone(), healthy, failures });
            assert(out@.map_values(|u: HealthUpdate| update_view(u)) =~= prev.map_values(|u: HealthUpdate| update_view(u)).push(
                (target.names@[j as int]@, healthy, failures),
            ));
            assert(target.names@.take(j + 1).map_values(|n: String| (n@, healthy, failures)) =~= target.names@.take(j as int).map_values(
                |n: String| (n@, healthy, failures),
            ).push((target.names@[j as int]@, healthy, failures)));
            j = j + 1;
        }
        assert(target.names@.take(j as int) =~= target.names@);
        assert(target.names@.map_values(|n: String| (n@, healthy, failures)) =~= target.names@.map_values(|n: String| n@).map_values(
            |n: Seq<char>| (n, outcomes@.take(t + 1)[t as int] == ProbeOutcome::Pass, fs[t as int]),
        ));
        proof {
            let key_spec = if tn.take(t + 1).last().len() > 0 { tn.take(t + 1).last()[0] } else { seq![] };
            if target.names@.len() > 0 {
                assert(tn.take(t + 1).last()[0] == target.names@[0]@);
            } else {
                assert(key@ =~= seq![]);
            }
            assert(key@ == key_spec);
        }
        t = t + 1;
    }
    assert(tn.take(t as int) =~= tn);
    assert(outcomes@.take(t as int) =~= outcomes@);
    out
}

/// The observed state of each record after a round of updates, and how
/// many records changed: an update goes to the first record of its name;
/// one that repeats the current state does nothing; a failure verdict only
/// takes effect once the failures reach the record's retry threshold (at
/// least one; two by default); a success takes effect at once.
pub open spec fn applied_states(
    names: Seq<Seq<char>>,
    retries: Seq<Option<u32>>,
    states: Seq<Option<Seq<char>>>,
    ups: Seq<(Seq<char>, bool, u32)>,
) -> (Seq<Option<Seq<char>>>, nat)
    decreases ups.len(),
{
    if ups.len() == 0 {
        (states, 0)
    } else {
        let (st, n) = applied_states(names, retries, states, ups.drop_last());
        let u = ups.last();
        match first_named(names, u.0, 0) {
            None => (st, n),
            Some(i) => {
                let want = if u.1 { "ok"@ } else { "nok"@ };
                let threshold = match retries[i] {
                    Some(r) => if r < 1 { 1 } else { r },
                    None => DEFAULT_RETRIES,
                };
                if st[i] == Some(want) {
                    (st, n)
                } else if !u.1 && u.2 < threshold {
                    (st, n)
                } else {
                    (st.update(i, Some(want)), n + 1)
                }
            },
        }
    }
}

pub open spec fn first_named(names: Seq<Seq<char>>, name: Seq<char>, from: int) -> Option<int>
    decreases names.len() - from,
{
    if from < 0 || from >= names.len() {
        None
    } else if names[from] == name {
        Some(from)
    } else {
        first_named(names, name, from + 1)
    }
}

pub open spec fn entry_names(s: Seq<TargetHealthEntry>) -> Seq<Seq<char>> {
    s.map_values(|e: TargetHealthEntry| e.name@)
}

pub open spec fn entry_retries(s: Seq<TargetHealthEntry>) -> Seq<Option<u32>> {
    s.map_values(|e: TargetHealthEntry| e.inactive_retries)
}

pub open spec fn entry_states(s: Seq<TargetHealthEntry>) -> Seq<Option<Seq<char>>> {
    s.map_values(|e: TargetHealthEntry| opt_text(e.current_state))
}

fn with_state(e: &TargetHealthEntry, state: &str) -> (r: TargetHealthEntry)
    ensures
        r == (TargetHealthEntry { current_state: r.current_state, ..*e }),
        opt_text(r.current_state) == Some(state@),
{
    TargetHealthEntry {
        host_name: e.host_name.clone(),
        name: e.name.clone(),
        description: match &e.description {
            Some(s) => Some(s.clone()),
            None => None,
        },
        inactive_retries: e.inactive_retries,
        probe_type: match &e.probe_type {
            Some(s) => Some(s.clone()),
            None => None,
        },
        probe_req: match &e.probe_req {
            Some(s) => Some(s.clone()),
            None => None,
        },
        probe_resp: match &e.probe_resp {
            Some(s) => Some(s.clone()),
            None => None,
        },
        probe_duration: e.probe_duration,
        probe_port: e.probe_port,
        min_delay: match &e.min_delay {
            Some(s) => Some(s.clone()),
            None => None,
        },
        avg_delay: match &e.avg_delay {
            Some(s) => Some(s.clone()),
            None => None,
        },
        max_delay: match &e.max_delay {
            Some(s) => Some(s.clone()),
            None => None,
        },
        current_state: Some(state.to_string()),
        sync: e.sync,
    }
}

pub(crate) fn find_entry(entries: &Vec<TargetHealthEntry>, name: &str) -> (r: Option<usize>)
    ensures
        r matches Some(i) ==> first_named(entry_names(entries@), name@, 0) == Some(i as int) && i < entries@.len(),
        r is None ==> first_named(entry_names(entries@), name@, 0) is None,
{
    let mut i: usize = 0;
    while i < entries.len()
        invariant
            i <= entries@.len(),
            first_named(entry_names(entries@), name@, 0) == first_named(entry_names(entries@), name@, i as int),
        decreases entries@.len() - i,
    {
        assert(entry_names(entries@)[i as int] == entries@[i as int].name@);
        if crate::registry::same_name(entries[i].name.as_str(), name) {
            return Some(i);
        }
        i = i + 1;
    }
    None
}

/// Apply a round's updates to the observed health records; the number of
/// records whose state changed.
pub fn apply_health_updates(entries: &mut Vec<TargetHealthEntry>, updates: &Vec<HealthUpdate>) -> (r: usize)
    requires
        updates@.len() <= usize::MAX,
    ensures
        final(entries)@.len() == old(entries)@.len(),
        forall|i: int| 0 <= i < old(entries)@.len() ==> (#[trigger] final(entries)@[i]) == (TargetHealthEntry { current_state: final(entries)@[i].current_state, ..old(entries)@[i] }),
        ({
            let (st, n) = applied_states(entry_names(old(entries)@), entry_retries(old(entries)@), entry_states(old(entries)@), updates@.map_values(|u: HealthUpdate| update_view(u)));
            &&& entry_states(final(entries)@) == st
            &&& r == n
        }),
{
    let ghost e0 = entries@;
    let ghost ups = updates@.map_values(|u: HealthUpdate| update_view(u));
    let mut changed: usize = 0;
    let mut k: usize = 0;
    while k < updates.len()
        invariant
            k <= updates@.len(),
            ups == updates@.map_values(|u: HealthUpdate| update_view(u)),
            entries@.len() == e0.len(),
            forall|i: int| 0 <= i < e0.len() ==> (#[trigger] entries@[i]) == (TargetHealthEntry { current_state: entries@[i].current_state, ..e0[i] }),
            entry_names(entries@) == entry_names(e0),
            entry_retries(entries@) == entry_retries(e0),
            changed <= k,
            ({
                let (st, n) = applied_states(entry_names(e0), entry_retries(e0), entry_states(e0), ups.take(k as int));
                &&& entry_states(entries@) == st
                &&& changed == n
            }),
        decreases updates@.len() - k,
    {
        let u = &updates[k];
        assert(ups.take(k + 1).drop_last() =~= ups.take(k as int));
        assert(ups.take(k + 1).last() == update_view(*u));
        let ghost before = entries@;
        let ghost prev = applied_states(entry_names(e0), entry_retries(e0), entry_states(e0), ups.take(k as int));
        let ghost step = applied_states(entry_names(e0), entry_retries(e0), entry_states(e0), ups.take(k + 1));
        proof {
            reveal_strlit("ok");
            reveal_strlit("nok");
        }
        match find_entry(entries, u.name.as_str()) {
            None => {
                assert(step == prev);
            },
            Some(i) => {
                let want = if u.healthy { "ok" } else { "nok" };
                let same = match &entries[i].current_state {
                    Some(st) => crate::registry::same_name(st.as_str(), want),
                    None => false,
                };
                assert(entry_states(entries@)[i as int] == opt_text(entries@[i as int].current_state));
                assert(entry_retries(entries@)[i as int] == entries@[i as int].inactive_retries);
                if !same {
                    let threshold = match entries[i].inactive_retries {
                        Some(r) => if r < 1 { 1 } else { r },
                        None => DEFAULT_RETRIES,
                    };
                    if u.healthy || u.failures >= threshold {
                        let e = with_state(&entries[i], want);
                        entries.set(i, e);
                        changed = changed + 1;
                        assert(entry_states(entries@) =~= entry_states(before).update(i as int, Some(want@)));
                        assert(entry_names(entries@) =~= entry_names(before));
                        assert(entry_retries(entries@) =~= entry_retries(before));
                        assert forall|t: int| 0 <= t < e0.len() implies (#[trigger] entries@[t]) == (TargetHealthEntry { current_state: entries@[t].current_state, ..e0[t] }) by {
                            if t != i {
                                assert(entries@[t] == before[t]);
                            }
                        }
                        assert(step == (prev.0.update(i as int, Some(want@)), prev.1 + 1));
                    } else {
                        assert(step == prev);
                    }
                } else {
                    assert(step == prev);
                }
            },
        }
        k = k + 1;
    }
    assert(ups.take(k as int) =~= ups);
    changed
}

} // verus!
