//! Contents of the native DNAT datapath maps: one service entry per
//! listener key and one endpoint entry per backend, with backends that
//! health probing reports down kept out of selection.

use vstd::prelude::*;
use vstd::string::*;
use crate::text::{decimal, has_infix};
use crate::ipnet::{ipv4_text, split_on};
use crate::datapath::{
    NativeServiceKey, NativeServiceValue, NativeEndpointKey, NativeEndpointValue,
    DEFAULT_PERSIST_TIMEOUT_SECS, MAX_ENDPOINTS_PER_SERVICE, NATIVE_SELECT_PERSIST,
};
use crate::health::{TargetHealthEntry, TargetHealthList};
use crate::native_store::{NativeProtocol, NativeTargetState};
use crate::flow::{swap16, INGRESS_PREF_OFFSET};

verus! {

/// The datapath lookup key of a listener.
#[derive(Clone, Copy, Debug, PartialEq, Eq, Hash, Structural)]
pub struct NativeListenerKey {
    pub vip_ip: u32,
    pub vip_port: u16,
    pub protocol: NativeProtocol,
}

/// A backend of a datapath listener.
#[derive(Clone, Copy, Debug, PartialEq, Eq, Structural)]
pub struct NativeTarget {
    /// Backend target address.
    pub address: u32,
    /// Forwarding port owned by the listener configuration.
    pub port: u16,
    pub weight: u32,
    pub state: NativeTargetState,
}

/// A listener as the datapath installs it.
#[derive(Clone, Debug, PartialEq, Eq)]
pub struct NativeListener {
    pub name: String,
    pub key: NativeListenerKey,
    pub select: u32,
    pub inactive_timeout_secs: u32,
    pub dscp: u32,
    pub endpoints: Vec<NativeTarget>,
}

/// Why the datapath maps cannot be built.
#[derive(Clone, Copy, Debug, PartialEq, Eq, Structural)]
pub enum AttachError {
    /// No listener to install.
    NoListeners,
    /// More listeners than service ids.
    ServiceIdExhausted,
    /// A listener with more backends than the selector scans: its VIP port
    /// and backend count.
    TooManyEndpoints(u16, usize),
}

/// Entries of the service and endpoint maps.
#[derive(Clone, Debug, PartialEq, Eq)]
pub struct DatapathMaps {
    pub services: Vec<(NativeServiceKey, NativeServiceValue)>,
    pub endpoints: Vec<(NativeEndpointKey, NativeEndpointValue)>,
}

pub open spec fn proto_name(protocol: u8) -> Seq<char> {
    if protocol == 6 {
        "tcp"@
    } else {
        "udp"@
    }
}

/// Health identity of a backend: `address_protocol_port`.
pub open spec fn health_identity(address: u32, protocol: u8, port: u16) -> Seq<char> {
    ipv4_text(address) + "_"@ + proto_name(protocol) + "_"@ + decimal(port as nat)
}

/// A health state that takes a backend out of selection.
pub open spec fn is_down_state(s: Option<String>) -> bool {
    match s {
        Some(t) => t@ == "nok"@ || t@ == "inactive"@ || t@ == "down"@,
        None => false,
    }
}

/// A backend is active unless a health record of its identity reports it
/// down; without observations, or for other protocols, it is active.
pub open spec fn spec_observed_active(observed: Option<Seq<TargetHealthEntry>>, address: u32, protocol: u8, port: u16) -> bool {
    match observed {
        None => true,
        Some(entries) => if protocol != 6 && protocol != 17 {
            true
        } else {
            forall|i: int| 0 <= i < entries.len() && (#[trigger] entries[i]).name@ == health_identity(address, protocol, port)
                ==> !is_down_state(entries[i].current_state)
        },
    }
}

fn health_identity_text(address: u32, protocol: u8, port: u16) -> (r: Vec<char>)
    requires
        protocol == 6 || protocol == 17,
    ensures
        r@ == health_identity(address, protocol, port),
{
    let mut out = crate::text::chars_of(crate::ipnet::format_ipv4(address).as_str());
    out.push('_');
    let p = if protocol == 6 { "tcp" } else { "udp" };
    crate::text::extend_chars(&mut out, &crate::text::chars_of(p));
    out.push('_');
    crate::text::extend_chars(&mut out, &crate::text::decimal_chars(port as u64));
    assert(out@ =~= health_identity(address, protocol, port)) by {
        reveal_strlit("_");
    }
    out
}

fn is_down(s: &Option<String>) -> (r: bool)
    ensures
        r == is_down_state(*s),
{
    match s {
        Some(t) => {
            let c = crate::text::chars_of(t.as_str());
            crate::text::chars_eq(&c, &crate::text::chars_of("nok"))
                || crate::text::chars_eq(&c, &crate::text::chars_of("inactive"))
                || crate::text::chars_eq(&c, &crate::text::chars_of("down"))
        },
        None => false,
    }
}

pub fn observed_endpoint_is_active(observed: Option<&TargetHealthList>, address: u32, protocol: u8, port: u16) -> (r: bool)
    ensures
        r == spec_observed_active(
            match observed {
                Some(l) => Some(l.entries@),
                None => None,
            },
            address,
            protocol,
            port,
        ),
{
    let list = match observed {
        None => return true,
        Some(l) => l,
    };
    if protocol != 6 && protocol != 17 {
        return true;
    }
    let id = health_identity_text(address, protocol, port);
    let mut i: usize = 0;
    while i < list.entries.len()
        invariant
            0 <= i <= list.entries@.len(),
            observed matches Some(o) && o.entries@ == list.entries@,
            protocol == 6 || protocol == 17,
            id@ == health_identity(address, protocol, port),
            forall|j: int| 0 <= j < i && (#[trigger] list.entries@[j]).name@ == health_identity(address, protocol, port)
                ==> !is_down_state(list.entries@[j].current_state),
        decreases list.entries@.len() - i,
    {
        let e = &list.entries[i];
        if crate::text::chars_eq(&crate::text::chars_of(e.name.as_str()), &id) && is_down(&e.current_state) {
            proof {
                assert(list.entries@[i as int] == *e);
                assert((list.entries@[i as int]).name@ == health_identity(address, protocol, port));
                assert(is_down_state(list.entries@[i as int].current_state));
            }
            return false;
        }
        i = i + 1;
    }
    true
}

/// A backend takes new flows: configured active and not observed down.
pub open spec fn selectable(t: NativeTarget, observed: Option<Seq<TargetHealthEntry>>, protocol: u8) -> bool {
    t.state == NativeTargetState::Active && spec_observed_active(observed, t.address, protocol, t.port)
}

pub open spec fn ip_proto_of(p: NativeProtocol) -> u8 {
    match p {
        NativeProtocol::Tcp => 6u8,
        NativeProtocol::Udp => 17u8,
    }
}

/// Sum of the positive weights of the selectable backends of a listener.
pub open spec fn weight_total(ts: Seq<NativeTarget>, observed: Option<Seq<TargetHealthEntry>>, protocol: u8) -> int
    decreases ts.len(),
{
    if ts.len() == 0 {
        0
    } else {
        weight_total(ts.drop_last(), observed, protocol) + if selectable(ts.last(), observed, protocol) {
            ts.last().weight as int
        } else {
            0
        }
    }
}

/// The service entry of the listener at `index` (service id `index + 1`).
pub open spec fn service_entry(l: NativeListener, index: int, observed: Option<Seq<TargetHealthEntry>>) -> (NativeServiceKey, NativeServiceValue) {
    (
        NativeServiceKey { vip: l.key.vip_ip, port: swap16(l.key.vip_port), proto: ip_proto_of(l.key.protocol), _pad: 0 },
        NativeServiceValue {
            service_id: (index + 1) as u32,
            endpoint_base: 0,
            endpoint_count: l.endpoints@.len() as u32,
            weight_total: weight_total(l.endpoints@, observed, ip_proto_of(l.key.protocol)) as u32,
            select: l.select,
            flags: 1,
            timeout_secs: if l.select == NATIVE_SELECT_PERSIST { DEFAULT_PERSIST_TIMEOUT_SECS } else { l.inactive_timeout_secs },
            dscp: l.dscp,
        },
    )
}

/// The endpoint entry of backend `j` of the listener at `index`.
pub open spec fn endpoint_entry(l: NativeListener, index: int, j: int, observed: Option<Seq<TargetHealthEntry>>) -> (NativeEndpointKey, NativeEndpointValue) {
    let t = l.endpoints@[j];
    (
        NativeEndpointKey { service_id: (index + 1) as u32, endpoint_id: j as u32 },
        NativeEndpointValue {
            address: t.address,
            port: t.port,
            weight: if t.weight > 0xffff { 0xffffu16 } else { t.weight as u16 },
            flags: if selectable(t, observed, ip_proto_of(l.key.protocol)) { 1 } else { 0 },
        },
    )
}

/// Number of endpoint entries of the first `n` listeners.
pub open spec fn endpoints_before(ls: Seq<NativeListener>, n: int) -> nat
    decreases n,
{
    if n <= 0 {
        0
    } else {
        endpoints_before(ls, n - 1) + ls[n - 1].endpoints@.len()
    }
}

/// The first listener with more backends than the selector scans.
pub open spec fn too_many_at(ls: Seq<NativeListener>, i: int) -> bool {
    0 <= i < ls.len() && ls[i].endpoints@.len() > MAX_ENDPOINTS_PER_SERVICE
        && forall|j: int| 0 <= j < i ==> ls[j].endpoints@.len() <= MAX_ENDPOINTS_PER_SERVICE
}

/// The weights of a listener's selectable backends sum within `u32`.
pub open spec fn weights_fit(ls: Seq<NativeListener>, observed: Option<Seq<TargetHealthEntry>>) -> bool {
    forall|i: int| 0 <= i < ls.len() ==> weight_total(#[trigger] ls[i].endpoints@, observed, ip_proto_of(ls[i].key.protocol)) <= u32::MAX
}

fn listener_weight_total(l: &NativeListener, observed: Option<&TargetHealthList>) -> (r: u32)
    requires
        weight_total(l.endpoints@, match observed { Some(o) => Some(o.entries@), None => None }, ip_proto_of(l.key.protocol)) <= u32::MAX,
    ensures
        r == weight_total(l.endpoints@, match observed { Some(o) => Some(o.entries@), None => None }, ip_proto_of(l.key.protocol)),
{
    let ghost obs = match observed { Some(o) => Some(o.entries@), None => None };
    let proto = l.key.protocol.ip_proto();
    let mut total: u32 = 0;
    let mut j: usize = 0;
    while j < l.endpoints.len()
        invariant
            0 <= j <= l.endpoints@.len(),
            proto == ip_proto_of(l.key.protocol),
            obs == match observed { Some(o) => Some(o.entries@), None => None },
            weight_total(l.endpoints@, obs, proto) <= u32::MAX,
            total == weight_total(l.endpoints@.take(j as int), obs, proto),
        decreases l.endpoints@.len() - j,
    {
        let t = l.endpoints[j];
        assert(l.endpoints@.take(j + 1).drop_last() =~= l.endpoints@.take(j as int));
        proof {
            lemma_weight_total_prefix(l.endpoints@, obs, proto, j + 1);
        }
        if t.state == NativeTargetState::Active && observed_endpoint_is_active(observed, t.address, proto, t.port) {
            total = total + t.weight;
        }
        j = j + 1;
    }
    assert(l.endpoints@.take(l.endpoints@.len() as int) =~= l.endpoints@);
    total
}

proof fn lemma_weight_total_prefix(ts: Seq<NativeTarget>, observed: Option<Seq<TargetHealthEntry>>, protocol: u8, k: int)
    requires
        0 <= k <= ts.len(),
    ensures
        weight_total(ts.take(k), observed, protocol) <= weight_total(ts, observed, protocol),
    decreases ts.len() - k,
{
    if k < ts.len() {
        lemma_weight_total_prefix(ts, observed, protocol, k + 1);
        assert(ts.take(k + 1).drop_last() =~= ts.take(k));
    } else {
        assert(ts.take(k) =~= ts);
    }
}

/// The datapath map contents for the listeners: service ids are given in
/// listener order from 1, each listener's endpoints are numbered from 0.
/// Refused without listeners, when service ids run out, or when a listener
/// has more backends than the selector scans.
pub fn datapath_map_entries(listeners: &Vec<NativeListener>, observed: Option<&TargetHealthList>) -> (r: Result<DatapathMaps, AttachError>)
    requires
        weights_fit(listeners@, match observed { Some(o) => Some(o.entries@), None => None }),
    ensures
        ({
            let obs = match observed { Some(o) => Some(o.entries@), None => None };
            let ls = listeners@;
            if ls.len() == 0 {
                r == Err::<DatapathMaps, AttachError>(AttachError::NoListeners)
            } else if ls.len() >= u32::MAX {
                r == Err::<DatapathMaps, AttachError>(AttachError::ServiceIdExhausted)
            } else if exists|i: int| too_many_at(ls, i) {
                let i = choose|i: int| too_many_at(ls, i);
                r == Err::<DatapathMaps, AttachError>(AttachError::TooManyEndpoints(ls[i].key.vip_port, ls[i].endpoints@.len() as usize))
            } else {
                r matches Ok(m) && {
                    &&& m.services@.len() == ls.len()
                    &&& forall|i: int| 0 <= i < ls.len() ==> #[trigger] m.services@[i] == service_entry(ls[i], i, obs)
                    &&& m.endpoints@.len() == endpoints_before(ls, ls.len() as int)
                    &&& forall|i: int, j: int| 0 <= i < ls.len() && 0 <= j < ls[i].endpoints@.len()
                        ==> #[trigger] m.endpoints@[endpoints_before(ls, i) + j] == endpoint_entry(ls[i], i, j, obs)
                }
            }
        }),
{
    let ghost obs = match observed { Some(o) => Some(o.entries@), None => None };
    let n = listeners.len();
    if n == 0 {
        return Err(AttachError::NoListeners);
    }
    if n >= 0xffff_ffff {
        return Err(AttachError::ServiceIdExhausted);
    }
    let mut services: Vec<(NativeServiceKey, NativeServiceValue)> = Vec::new();
    let mut i: usize = 0;
    while i < n
        invariant
            0 <= i <= n,
            n == listeners@.len(),
            n < u32::MAX,
            obs == match observed { Some(o) => Some(o.entries@), None => None },
            weights_fit(listeners@, obs),
            services@.len() == i,
            forall|k: int| 0 <= k < i ==> #[trigger] services@[k] == service_entry(listeners@[k], k, obs),
        decreases n - i,
    {
        let l = &listeners[i];
        assert(weight_total(listeners@[i as int].endpoints@, obs, ip_proto_of(listeners@[i as int].key.protocol)) <= u32::MAX);
        let total = listener_weight_total(l, observed);
        let timeout = if l.select == NATIVE_SELECT_PERSIST { DEFAULT_PERSIST_TIMEOUT_SECS } else { l.inactive_timeout_secs };
        services.push((
            NativeServiceKey { vip: l.key.vip_ip, port: crate::flow::to_be16(l.key.vip_port), proto: l.key.protocol.ip_proto(), _pad: 0 },
            NativeServiceValue {
                service_id: (i + 1) as u32,
                endpoint_base: 0,
                endpoint_count: l.endpoints.len() as u32,
                weight_total: total,
                select: l.select,
                flags: 1,
                timeout_secs: timeout,
                dscp: l.dscp,
            },
        ));
        i = i + 1;
    }
    let mut endpoints: Vec<(NativeEndpointKey, NativeEndpointValue)> = Vec::new();
    let mut i: usize = 0;
    while i < n
        invariant
            0 <= i <= n,
            n == listeners@.len(),
            n < u32::MAX,
            obs == match observed { Some(o) => Some(o.entries@), None => None },
            forall|k: int| 0 <= k < i ==> listeners@[k].endpoints@.len() <= MAX_ENDPOINTS_PER_SERVICE,
            endpoints@.len() == endpoints_before(listeners@, i as int),
            endpoints_before(listeners@, i as int) <= i * 64,
            forall|k: int, j: int| 0 <= k < i && 0 <= j < listeners@[k].endpoints@.len()
                ==> #[trigger] endpoints@[endpoints_before(listeners@, k) + j] == endpoint_entry(listeners@[k], k, j, obs),
        decreases n - i,
    {
        let l = &listeners[i];
        if l.endpoints.len() > 64 {
            proof {
                assert(too_many_at(listeners@, i as int));
                let c = choose|c: int| too_many_at(listeners@, c);
                assert(too_many_at(listeners@, c));
                if c < i {
                } else if c > i {
                    assert(listeners@[i as int].endpoints@.len() <= MAX_ENDPOINTS_PER_SERVICE);
                }
                assert(c == i);
            }
            return Err(AttachError::TooManyEndpoints(l.key.vip_port, l.endpoints.len()));
        }
        let proto = l.key.protocol.ip_proto();
        let ghost base = endpoints@.len();
        let mut j: usize = 0;
        while j < l.endpoints.len()
            invariant
                0 <= j <= l.endpoints@.len(),
                l.endpoints@.len() <= 64,
                *l == listeners@[i as int],
                i < n,
                n == listeners@.len(),
                n < u32::MAX,
                proto == ip_proto_of(l.key.protocol),
                obs == match observed { Some(o) => Some(o.entries@), None => None },
                base == endpoints_before(listeners@, i as int),
                endpoints@.len() == base + j,
                forall|k: int, jj: int| 0 <= k < i && 0 <= jj < listeners@[k].endpoints@.len()
                    ==> #[trigger] endpoints@[endpoints_before(listeners@, k) + jj] == endpoint_entry(listeners@[k], k, jj, obs),
                forall|jj: int| 0 <= jj < j ==> #[trigger] endpoints@[base + jj] == endpoint_entry(listeners@[i as int], i as int, jj, obs),
            decreases l.endpoints@.len() - j,
        {
            let t = l.endpoints[j];
            let active = t.state == NativeTargetState::Active && observed_endpoint_is_active(observed, t.address, proto, t.port);
            let ghost before = endpoints@;
            let entry = (
                NativeEndpointKey { service_id: (i + 1) as u32, endpoint_id: j as u32 },
                NativeEndpointValue {
                    address: t.address,
                    port: t.port,
                    weight: if t.weight > 0xffff { 0xffffu16 } else { t.weight as u16 },
                    flags: if active { 1 } else { 0 },
                },
            );
            endpoints.push(entry);
            assert(endpoints@ == before.push(entry));
            proof {
                assert forall|k: int, jj: int| 0 <= k < i && 0 <= jj < listeners@[k].endpoints@.len()
                    implies #[trigger] endpoints@[endpoints_before(listeners@, k) + jj] == endpoint_entry(listeners@[k], k, jj, obs) by {
                    lemma_endpoints_before_mono(listeners@, k + 1, i as int);
                    assert(endpoints_before(listeners@, k + 1) == endpoints_before(listeners@, k) + listeners@[k].endpoints@.len());
                    assert(before.len() == base + j);
                    assert(endpoints_before(listeners@, k + 1) <= base);
                    assert(endpoints_before(listeners@, k) + jj < before.len());
                    assert(endpoints@.len() == before.len() + 1);
                    assert(endpoints@[endpoints_before(listeners@, k) + jj] == before[endpoints_before(listeners@, k) + jj]);
                }
            }
            j = j + 1;
        }
        proof {
            assert(endpoints_before(listeners@, i + 1) == base + listeners@[i as int].endpoints@.len());
            assert forall|k: int, jj: int| 0 <= k < i + 1 && 0 <= jj < listeners@[k].endpoints@.len()
                implies #[trigger] endpoints@[endpoints_before(listeners@, k) + jj] == endpoint_entry(listeners@[k], k, jj, obs) by {
                if k == i {
                    assert(endpoints@[base + jj] == endpoint_entry(listeners@[i as int], i as int, jj, obs));
                }
            }
        }
        i = i + 1;
    }
    proof {
        assert(!exists|c: int| too_many_at(listeners@, c));
    }
    Ok(DatapathMaps { services, endpoints })
}

proof fn lemma_endpoints_before_mono(ls: Seq<NativeListener>, a: int, b: int)
    requires
        0 <= a <= b <= ls.len(),
    ensures
        endpoints_before(ls, a) <= endpoints_before(ls, b),
    decreases b - a,
{
    if a < b {
        lemma_endpoints_before_mono(ls, a, b - 1);
    }
}

/// `tc` output shows the ingress program attached at the listener
/// preference: some line names both the preference and the program.
pub open spec fn spec_attached(tc_output: Seq<char>, pref: u16) -> bool {
    exists|i: int| 0 <= i < split_on(tc_output, '\n').len()
        && has_infix(#[trigger] split_on(tc_output, '\n')[i], "pref "@ + decimal((pref + INGRESS_PREF_OFFSET) as nat))
        && has_infix(split_on(tc_output, '\n')[i], "native_dnat_ingress"@)
}

/// Is the native datapath attached, judging by `tc filter show` output?
pub fn attached(tc_output: &str, pref: u16) -> (r: bool)
    requires
        pref + INGRESS_PREF_OFFSET <= u16::MAX,
    ensures
        r == spec_attached(tc_output@, pref),
{
    let lines = crate::ipnet::split_chars(&crate::text::chars_of(tc_output), '\n');
    let mut want = crate::text::chars_of("pref ");
    crate::text::extend_chars(&mut want, &crate::text::decimal_chars((pref + INGRESS_PREF_OFFSET) as u64));
    let prog = crate::text::chars_of(crate::datapath::native_dnat_ingress_program());
    let ghost parts = split_on(tc_output@, '\n');
    let mut i: usize = 0;
    while i < lines.len()
        invariant
            0 <= i <= lines@.len(),
            lines@.len() == parts.len(),
            parts == split_on(tc_output@, '\n'),
            forall|j: int| 0 <= j < lines@.len() ==> (#[trigger] lines@[j])@ == parts[j],
            want@ == "pref "@ + decimal((pref + INGRESS_PREF_OFFSET) as nat),
            prog@ == "native_dnat_ingress"@,
            forall|j: int| 0 <= j < i ==> !(has_infix(#[trigger] parts[j], want@) && has_infix(parts[j], prog@)),
        decreases lines@.len() - i,
    {
        if crate::text::contains_chars(&lines[i], &want) && crate::text::contains_chars(&lines[i], &prog) {
            return true;
        }
        i = i + 1;
    }
    false
}

/// What applying the datapath does.
#[derive(Clone, Copy, Debug, PartialEq, Eq, Structural)]
pub enum DatapathStep {
    /// No listeners: remove the datapath instead of failing.
    Cleanup,
    /// The attached datapath already serves these listeners: only refresh
    /// the observed target health in its maps.
    RefreshHealth,
    /// Load and attach a new datapath for these listeners.
    Reattach,
}

/// Applying keeps the attached programs and flow state when the listener
/// definition is the one attached (its signature, the text of the listener
/// list) and the programs are still attached; with no listeners it cleans
/// up; otherwise it attaches anew.
pub fn apply_step(listener_count: usize, current_signature: Option<&str>, signature: &str, still_attached: bool) -> (r: DatapathStep)
    ensures
        listener_count == 0 ==> r == DatapathStep::Cleanup,
        listener_count > 0 ==> r == (if (current_signature matches Some(c) && c@ == signature@) && still_attached {
            DatapathStep::RefreshHealth
        } else {
            DatapathStep::Reattach
        }),
{
    if listener_count == 0 {
        return DatapathStep::Cleanup;
    }
    let same = match current_signature {
        Some(c) => crate::text::chars_eq(&crate::text::chars_of(c), &crate::text::chars_of(signature)),
        None => false,
    };
    if same && still_attached {
        DatapathStep::RefreshHealth
    } else {
        DatapathStep::Reattach
    }
}

} // verus!
