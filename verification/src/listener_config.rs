//! Listener resources of the control-plane API: their conversion to the
//! configured listener (generated names, normalized protocols), the merge of
//! stored resources, and the checks a new listener must pass.

use vstd::prelude::*;
use crate::config::{Listener, Protocol, LbSelect, LbMode, protocol_name};
use crate::route_msg::IpAddress;
use crate::text::{trim, has_prefix, decimal};
use crate::native_model::{ModelError, effective_vip_ips, spec_merge_vips, spec_ipv4_addr, shared_of};

verus! {

/// A listener as the API stores it: it binds a target group; the
/// datapath's own fields are derived.
#[derive(Clone, Debug, PartialEq, Eq)]
pub struct ListenerConfigResource {
    pub name: String,
    pub vip_ips: Vec<IpAddress>,
    pub port: u16,
    pub target_port: u16,
    pub protocols: Vec<Protocol>,
    pub target_group: String,
    pub select: LbSelect,
    pub inactive_timeout: Option<u32>,
}

/// Each protocol once, in order of first appearance.
pub open spec fn dedup_protocols(s: Seq<Protocol>) -> Seq<Protocol>
    decreases s.len(),
{
    if s.len() == 0 {
        seq![]
    } else {
        let d = dedup_protocols(s.drop_last());
        if d.contains(s.last()) {
            d
        } else {
            d.push(s.last())
        }
    }
}

/// The protocols of a listener: TCP when none is given, each once.
pub open spec fn normalized_protocols(s: Seq<Protocol>) -> Seq<Protocol> {
    if s.len() == 0 {
        seq![Protocol::Tcp]
    } else {
        dedup_protocols(s)
    }
}

/// The protocol names joined by `-`.
pub open spec fn joined_protocols(s: Seq<Protocol>) -> Seq<char>
    decreases s.len(),
{
    if s.len() == 0 {
        seq![]
    } else if s.len() == 1 {
        protocol_name(s[0])
    } else {
        joined_protocols(s.drop_last()) + seq!['-'] + protocol_name(s.last())
    }
}

/// `protocols-port`, such as `tcp-udp-443`.
pub open spec fn spec_generated_name(protocols: Seq<Protocol>, port: u16) -> Seq<char> {
    joined_protocols(protocols) + seq!['-'] + decimal(port as nat)
}

/// The name a listener gets: always generated from its protocols and port,
/// keeping an `auto-` prefix that marks generated listeners.
pub open spec fn spec_listener_name(name: Seq<char>, protocols: Seq<Protocol>, port: u16) -> Seq<char> {
    if has_prefix(trim(name), "auto-"@) {
        "auto-"@ + spec_generated_name(protocols, port)
    } else {
        spec_generated_name(protocols, port)
    }
}

fn dedup_protocol_list(s: &Vec<Protocol>) -> (r: Vec<Protocol>)
    ensures
        r@ == dedup_protocols(s@),
{
    let mut out: Vec<Protocol> = Vec::new();
    let mut i: usize = 0;
    while i < s.len()
        invariant
            i <= s@.len(),
            out@ == dedup_protocols(s@.take(i as int)),
        decreases s@.len() - i,
    {
        assert(s@.take(i + 1).drop_last() =~= s@.take(i as int));
        let p = s[i];
        let mut seen = false;
        let mut j: usize = 0;
        while j < out.len()
            invariant
                j <= out@.len(),
                seen == (exists|k: int| 0 <= k < j && out@[k] == p),
            decreases out@.len() - j,
        {
            if out[j] == p {
                seen = true;
            }
            j = j + 1;
        }
        if !seen {
            out.push(p);
        }
        i = i + 1;
    }
    assert(s@.take(i as int) =~= s@);
    out
}

pub fn native_generated_listener_name(protocols: &Vec<Protocol>, port: u16) -> (r: String)
    ensures
        r@ == spec_generated_name(protocols@, port),
{
    let mut out: Vec<char> = Vec::new();
    let mut i: usize = 0;
    while i < protocols.len()
        invariant
            i <= protocols@.len(),
            out@ == joined_protocols(protocols@.take(i as int)),
        decreases protocols@.len() - i,
    {
        assert(protocols@.take(i + 1).drop_last() =~= protocols@.take(i as int));
        if i > 0 {
            out.push('-');
        }
        let name = crate::text::chars_of(protocols[i].as_str());
        crate::text::extend_chars(&mut out, &name);
        proof {
            if i == 0 {
                assert(protocols@.take(1)[0] == protocols@[0]);
                assert(out@ =~= protocol_name(protocols@[0]));
            }
        }
        i = i + 1;
    }
    assert(protocols@.take(i as int) =~= protocols@);
    out.push('-');
    crate::text::extend_chars(&mut out, &crate::text::decimal_chars(port as u64));
    crate::text::string_of(&out)
}

/// The configured listener of a resource.
pub open spec fn converted(r: ListenerConfigResource, l: Listener) -> bool {
    &&& l.protocols@ == normalized_protocols(r.protocols@)
    &&& l.name@ == spec_listener_name(r.name@, normalized_protocols(r.protocols@), r.port)
    &&& l.vip_ips@ == r.vip_ips@
    &&& l.port == r.port
    &&& l.target_port == r.target_port
    &&& l.target_group@ == r.target_group@
    &&& l.select == r.select
    &&& l.mode == LbMode::Default
    &&& l.inactive_timeout == r.inactive_timeout
}

impl ListenerConfigResource {
    /// The listener a stored resource configures.
    pub fn into_listener(self) -> (l: Listener)
        ensures
            converted(self, l),
    {
        let ghost orig = self;
        let protocols = if self.protocols.len() == 0 {
            let v: Vec<Protocol> = vec![Protocol::Tcp];
            assert(v@ =~= seq![Protocol::Tcp]);
            v
        } else {
            dedup_protocol_list(&self.protocols)
        };
        let generated = native_generated_listener_name(&protocols, self.port);
        let trimmed = crate::text::trimmed(self.name.as_str());
        let prefix = crate::text::chars_of("auto-");
        proof {
            reveal_strlit("auto-");
        }
        let name = if crate::text::starts_with(&trimmed, &prefix) {
            let mut cs = prefix;
            crate::text::extend_chars(&mut cs, &crate::text::chars_of(generated.as_str()));
            crate::text::string_of(&cs)
        } else {
            generated
        };
        Listener {
            name,
            port: self.port,
            target_port: self.target_port,
            target_group: self.target_group,
            vip_ips: self.vip_ips,
            protocols,
            select: self.select,
            mode: LbMode::Default,
            inactive_timeout: self.inactive_timeout,
        }
    }

    /// The stored resource of a configured listener.
    pub fn from_listener(l: &Listener) -> (r: Self)
        ensures
            r.name@ == l.name@,
            r.vip_ips@ == l.vip_ips@,
            r.port == l.port,
            r.target_port == l.target_port,
            r.protocols@ == l.protocols@,
            r.target_group@ == l.target_group@,
            r.select == l.select,
            r.inactive_timeout == l.inactive_timeout,
    {
        ListenerConfigResource {
            name: l.name.clone(),
            vip_ips: l.vip_ips.clone(),
            port: l.port,
            target_port: l.target_port,
            protocols: l.protocols.clone(),
            target_group: l.target_group.clone(),
            select: l.select,
            inactive_timeout: l.inactive_timeout,
        }
    }
}

/// What identifies a stored listener apart from its VIPs.
pub open spec fn same_listener(a: ListenerConfigResource, b: ListenerConfigResource) -> bool {
    &&& a.name@ == b.name@
    &&& a.port == b.port
    &&& a.target_port == b.target_port
    &&& a.protocols@ == b.protocols@
    &&& a.target_group@ == b.target_group@
    &&& a.select == b.select
    &&& a.inactive_timeout == b.inactive_timeout
}

/// The VIPs `vs` followed by those of `ws` not yet listed.
pub open spec fn add_vips(vs: Seq<IpAddress>, ws: Seq<IpAddress>) -> Seq<IpAddress>
    decreases ws.len(),
{
    if ws.len() == 0 {
        vs
    } else {
        let a = add_vips(vs, ws.drop_last());
        if a.contains(ws.last()) {
            a
        } else {
            a.push(ws.last())
        }
    }
}

/// The index of the first entry of `acc` that is the same listener as `r`.
pub open spec fn first_same(acc: Seq<ListenerConfigResource>, r: ListenerConfigResource, from: int) -> Option<int>
    decreases acc.len() - from,
{
    if from < 0 || from >= acc.len() {
        None
    } else if same_listener(acc[from], r) {
        Some(from)
    } else {
        first_same(acc, r, from + 1)
    }
}

/// Stored resources merged: a resource that is the same listener as an
/// earlier one adds its VIPs to it; others are kept, in order.
pub open spec fn coalesced(s: Seq<ListenerConfigResource>) -> Seq<(ListenerConfigResource, Seq<IpAddress>)>
    decreases s.len(),
{
    if s.len() == 0 {
        seq![]
    } else {
        let acc = coalesced(s.drop_last());
        let r = s.last();
        match first_same(acc.map_values(|e: (ListenerConfigResource, Seq<IpAddress>)| e.0), r, 0) {
            Some(i) => acc.update(i, (acc[i].0, add_vips(acc[i].1, r.vip_ips@))),
            None => acc.push((r, r.vip_ips@)),
        }
    }
}

fn clone_resource(r: &ListenerConfigResource) -> (c: ListenerConfigResource)
    ensures
        same_listener(c, *r),
        c.vip_ips@ == r.vip_ips@,
{
    ListenerConfigResource {
        name: r.name.clone(),
        vip_ips: r.vip_ips.clone(),
        port: r.port,
        target_port: r.target_port,
        protocols: r.protocols.clone(),
        target_group: r.target_group.clone(),
        select: r.select,
        inactive_timeout: r.inactive_timeout,
    }
}

fn same_protocols(a: &Vec<Protocol>, b: &Vec<Protocol>) -> (r: bool)
    ensures
        r == (a@ == b@),
{
    if a.len() != b.len() {
        return false;
    }
    let mut i: usize = 0;
    while i < a.len()
        invariant
            i <= a@.len(),
            a@.len() == b@.len(),
            forall|j: int| 0 <= j < i ==> a@[j] == b@[j],
        decreases a@.len() - i,
    {
        if a[i] != b[i] {
            return false;
        }
        i = i + 1;
    }
    assert(a@ =~= b@);
    true
}

fn is_same_listener(a: &ListenerConfigResource, b: &ListenerConfigResource) -> (r: bool)
    ensures
        r == same_listener(*a, *b),
{
    crate::registry::same_name(a.name.as_str(), b.name.as_str()) && a.port == b.port && a.target_port == b.target_port
        && same_protocols(&a.protocols, &b.protocols) && crate::registry::same_name(a.target_group.as_str(), b.target_group.as_str())
        && a.select == b.select && a.inactive_timeout == b.inactive_timeout
}

fn add_vip_list(vs: &mut Vec<IpAddress>, ws: &Vec<IpAddress>)
    ensures
        final(vs)@ == add_vips(old(vs)@, ws@),
{
    let mut i: usize = 0;
    while i < ws.len()
        invariant
            i <= ws@.len(),
            vs@ == add_vips(old(vs)@, ws@.take(i as int)),
        decreases ws@.len() - i,
    {
        assert(ws@.take(i + 1).drop_last() =~= ws@.take(i as int));
        let w = ws[i];
        if !crate::registry::contains_ip(vs, w) {
            vs.push(w);
        }
        i = i + 1;
    }
    assert(ws@.take(i as int) =~= ws@);
}

pub open spec fn resource_views(s: Seq<ListenerConfigResource>) -> Seq<(ListenerConfigResource, Seq<IpAddress>)> {
    s.map_values(|r: ListenerConfigResource| (r, r.vip_ips@))
}

pub open spec fn same_views(a: Seq<(ListenerConfigResource, Seq<IpAddress>)>, b: Seq<(ListenerConfigResource, Seq<IpAddress>)>) -> bool {
    a.len() == b.len() && forall|i: int| 0 <= i < a.len() ==> same_listener(#[trigger] a[i].0, b[i].0) && a[i].1 == b[i].1
}

fn find_same(out: &Vec<ListenerConfigResource>, r: &ListenerConfigResource) -> (found: Option<usize>)
    ensures
        found matches Some(k) ==> k < out@.len() && same_listener(out@[k as int], *r) && forall|j: int| 0 <= j < k ==> !same_listener(#[trigger] out@[j], *r),
        found is None ==> forall|j: int| 0 <= j < out@.len() ==> !same_listener(#[trigger] out@[j], *r),
{
    let mut j: usize = 0;
    while j < out.len()
        invariant
            j <= out@.len(),
            forall|t: int| 0 <= t < j ==> !same_listener(#[trigger] out@[t], *r),
        decreases out@.len() - j,
    {
        if is_same_listener(&out[j], r) {
            return Some(j);
        }
        j = j + 1;
    }
    None
}

proof fn lemma_first_same(keys: Seq<ListenerConfigResource>, r: ListenerConfigResource, from: int, k: int)
    requires
        0 <= from <= k < keys.len(),
        same_listener(keys[k], r),
        forall|j: int| 0 <= j < k ==> !same_listener(#[trigger] keys[j], r),
    ensures
        first_same(keys, r, from) == Some(k),
    decreases k - from,
{
    if from < k {
        lemma_first_same(keys, r, from + 1, k);
    }
}

proof fn lemma_first_same_none(keys: Seq<ListenerConfigResource>, r: ListenerConfigResource, from: int)
    requires
        0 <= from,
        forall|j: int| 0 <= j < keys.len() ==> !same_listener(#[trigger] keys[j], r),
    ensures
        first_same(keys, r, from) is None,
    decreases keys.len() - from,
{
    if from < keys.len() {
        lemma_first_same_none(keys, r, from + 1);
    }
}

/// Merge stored listener resources that differ only in their VIPs.
pub fn coalesce_listener_resources(resources: Vec<ListenerConfigResource>) -> (r: Vec<ListenerConfigResource>)
    ensures
        same_views(resource_views(r@), coalesced(resources@)),
{
    let mut out: Vec<ListenerConfigResource> = Vec::new();
    let mut i: usize = 0;
    while i < resources.len()
        invariant
            i <= resources@.len(),
            same_views(resource_views(out@), coalesced(resources@.take(i as int))),
        decreases resources@.len() - i,
    {
        let ghost acc = coalesced(resources@.take(i as int));
        assert(resources@.take(i + 1).drop_last() =~= resources@.take(i as int));
        assert(resources@.take(i + 1).last() == resources@[i as int]);
        let r = &resources[i];
        let ghost keys = acc.map_values(|e: (ListenerConfigResource, Seq<IpAddress>)| e.0);
        let found = find_same(&out, r);
        proof {
            assert forall|k: int| 0 <= k < keys.len() implies same_listener(#[trigger] keys[k], *r) == same_listener(out@[k], *r) by {
                assert(keys[k] == acc[k].0);
                assert(same_listener(resource_views(out@)[k].0, acc[k].0));
            }
            match found {
                Some(k) => lemma_first_same(keys, *r, 0, k as int),
                None => lemma_first_same_none(keys, *r, 0),
            }
        }
        let ghost before = out@;
        match found {
            Some(k) => {
                let mut merged = clone_resource(&out[k]);
                add_vip_list(&mut merged.vip_ips, &r.vip_ips);
                out.set(k, merged);
                proof {
                    let next = coalesced(resources@.take(i + 1));
                    assert(next == acc.update(k as int, (acc[k as int].0, add_vips(acc[k as int].1, r.vip_ips@))));
                    assert(same_listener(resource_views(before)[k as int].0, acc[k as int].0));
                    assert(resource_views(before)[k as int].1 == acc[k as int].1);
                    assert forall|t: int| 0 <= t < next.len() implies same_listener(#[trigger] resource_views(out@)[t].0, next[t].0) && resource_views(out@)[t].1 == next[t].1 by {
                        if t != k {
                            assert(resource_views(out@)[t] == resource_views(before)[t]);
                            assert(same_listener(resource_views(before)[t].0, acc[t].0));
                        }
                    }
                }
            },
            None => {
                out.push(clone_resource(r));
                proof {
                    let next = coalesced(resources@.take(i + 1));
                    assert(next == acc.push((*r, r.vip_ips@)));
                    assert forall|t: int| 0 <= t < next.len() implies same_listener(#[trigger] resource_views(out@)[t].0, next[t].0) && resource_views(out@)[t].1 == next[t].1 by {
                        if t < before.len() {
                            assert(resource_views(out@)[t] == resource_views(before)[t]);
                            assert(same_listener(resource_views(before)[t].0, acc[t].0));
                        }
                    }
                }
            },
        }
        i = i + 1;
    }
    assert(resources@.take(i as int) =~= resources@);
    out
}

/// The VIPs a resource answers on.
pub open spec fn spec_effective(gateway_ip: IpAddress, vips: Seq<IpAddress>, shared_vip: Option<IpAddress>) -> Result<Seq<u32>, ModelError> {
    match spec_ipv4_addr(gateway_ip) {
        Err(e) => Err(e),
        Ok(g) => spec_merge_vips(g, vips, shared_of(shared_vip)),
    }
}

pub open spec fn shares_protocol(a: Seq<Protocol>, b: Seq<Protocol>) -> bool {
    exists|i: int| 0 <= i < a.len() && b.contains(#[trigger] a[i])
}

pub open spec fn shares_vip(a: Seq<u32>, b: Seq<u32>) -> bool {
    exists|i: int| 0 <= i < a.len() && b.contains(#[trigger] a[i])
}

/// Two listeners conflict when they share a port, a protocol and a VIP.
/// Names do not matter: the socket does.
pub open spec fn spec_conflicts(existing: ListenerConfigResource, want: ListenerConfigResource, gateway_ip: IpAddress, shared_vip: Option<IpAddress>) -> Result<bool, ModelError> {
    if existing.port != want.port {
        Ok(false)
    } else if !shares_protocol(existing.protocols@, want.protocols@) {
        Ok(false)
    } else {
        match spec_effective(gateway_ip, existing.vip_ips@, shared_vip) {
            Err(e) => Err(e),
            Ok(a) => match spec_effective(gateway_ip, want.vip_ips@, shared_vip) {
                Err(e) => Err(e),
                Ok(b) => Ok(shares_vip(a, b)),
            },
        }
    }
}

fn any_shared_protocol(a: &Vec<Protocol>, b: &Vec<Protocol>) -> (r: bool)
    ensures
        r == shares_protocol(a@, b@),
{
    let mut i: usize = 0;
    while i < a.len()
        invariant
            i <= a@.len(),
            forall|t: int| 0 <= t < i ==> !b@.contains(#[trigger] a@[t]),
        decreases a@.len() - i,
    {
        let mut j: usize = 0;
        while j < b.len()
            invariant
                i < a@.len(),
                j <= b@.len(),
                forall|t: int| 0 <= t < j ==> b@[t] != a@[i as int],
            decreases b@.len() - j,
        {
            if b[j] == a[i] {
                assert(b@.contains(a@[i as int]));
                return true;
            }
            j = j + 1;
        }
        i = i + 1;
    }
    false
}

fn any_shared_vip(a: &Vec<u32>, b: &Vec<u32>) -> (r: bool)
    ensures
        r == shares_vip(a@, b@),
{
    let mut i: usize = 0;
    while i < a.len()
        invariant
            i <= a@.len(),
            forall|t: int| 0 <= t < i ==> !b@.contains(#[trigger] a@[t]),
        decreases a@.len() - i,
    {
        let mut j: usize = 0;
        while j < b.len()
            invariant
                i < a@.len(),
                j <= b@.len(),
                forall|t: int| 0 <= t < j ==> b@[t] != a@[i as int],
            decreases b@.len() - j,
        {
            if b[j] == a[i] {
                assert(b@.contains(a@[i as int]));
                return true;
            }
            j = j + 1;
        }
        i = i + 1;
    }
    false
}

pub fn listener_resource_conflicts(
    existing: &ListenerConfigResource,
    want: &ListenerConfigResource,
    gateway_ip: IpAddress,
    shared_vip: Option<IpAddress>,
) -> (r: Result<bool, ModelError>)
    ensures
        r == spec_conflicts(*existing, *want, gateway_ip, shared_vip),
{
    if existing.port != want.port {
        return Ok(false);
    }
    if !any_shared_protocol(&existing.protocols, &want.protocols) {
        return Ok(false);
    }
    let a = match effective_vip_ips(gateway_ip, &existing.vip_ips, shared_vip) {
        Ok(v) => v,
        Err(e) => {
            return Err(e);
        },
    };
    let b = match effective_vip_ips(gateway_ip, &want.vip_ips, shared_vip) {
        Ok(v) => v,
        Err(e) => {
            return Err(e);
        },
    };
    Ok(any_shared_vip(&a, &b))
}

/// Why a listener cannot be created.
#[derive(Clone, Debug, PartialEq, Eq)]
pub enum ListenerError {
    NameRequired,
    PortRequired,
    TargetPortRequired,
    ProtocolRequired,
    /// No target group of this name.
    TargetGroupNotFound,
    /// The listener would take the socket of the stored listener named here.
    Conflict(String),
    /// A VIP cannot be given to the native datapath.
    Vip(ModelError),
}

/// The first stored listener, from index `from` on and other than the one
/// being replaced, that conflicts with `want` (or the error met on the way).
pub open spec fn first_conflict(
    existing: Seq<ListenerConfigResource>,
    want: ListenerConfigResource,
    old_name: Option<Seq<char>>,
    gateway_ip: IpAddress,
    shared_vip: Option<IpAddress>,
    from: int,
) -> Option<Result<int, ModelError>>
    decreases existing.len() - from,
{
    if from < 0 || from >= existing.len() {
        None
    } else if old_name == Some(existing[from].name@) {
        first_conflict(existing, want, old_name, gateway_ip, shared_vip, from + 1)
    } else {
        match spec_conflicts(existing[from], want, gateway_ip, shared_vip) {
            Err(e) => Some(Err(e)),
            Ok(true) => Some(Ok(from)),
            Ok(false) => first_conflict(existing, want, old_name, gateway_ip, shared_vip, from + 1),
        }
    }
}

/// The checks a listener must pass, in order: a name, both ports, a
/// protocol, an existing target group (empty groups count), and no socket
/// conflict with another stored listener.
pub open spec fn spec_validate(
    listener: Listener,
    groups: Seq<Seq<char>>,
    existing: Seq<ListenerConfigResource>,
    old_name: Option<Seq<char>>,
    gateway_ip: IpAddress,
    shared_vip: Option<IpAddress>,
    want: ListenerConfigResource,
) -> Option<ListenerError> {
    if trim(listener.name@).len() == 0 {
        Some(ListenerError::NameRequired)
    } else if listener.port == 0 {
        Some(ListenerError::PortRequired)
    } else if listener.target_port == 0 {
        Some(ListenerError::TargetPortRequired)
    } else if listener.protocols@.len() == 0 {
        Some(ListenerError::ProtocolRequired)
    } else if !groups.contains(listener.target_group@) {
        Some(ListenerError::TargetGroupNotFound)
    } else {
        match first_conflict(existing, want, old_name, gateway_ip, shared_vip, 0) {
            None => None,
            Some(Err(e)) => Some(ListenerError::Vip(e)),
            Some(Ok(i)) => Some(ListenerError::Conflict(existing[i].name)),
        }
    }
}

pub open spec fn names(s: Seq<String>) -> Seq<Seq<char>> {
    s.map_values(|x: String| x@)
}

fn contains_name(v: &Vec<String>, s: &str) -> (r: bool)
    ensures
        r == names(v@).contains(s@),
{
    let mut i: usize = 0;
    while i < v.len()
        invariant
            i <= v@.len(),
            forall|j: int| 0 <= j < i ==> v@[j]@ != s@,
        decreases v@.len() - i,
    {
        if crate::registry::same_name(v[i].as_str(), s) {
            assert(names(v@)[i as int] == s@);
            return true;
        }
        i = i + 1;
    }
    assert forall|j: int| 0 <= j < names(v@).len() implies names(v@)[j] != s@ by {
        assert(names(v@)[j] == v@[j]@);
    }
    false
}

/// Check a listener against the target groups and the stored listeners;
/// `old_name` is the listener it replaces, if any.
pub fn validate_listener_config(
    listener: &Listener,
    target_groups: &Vec<String>,
    existing: &Vec<ListenerConfigResource>,
    old_name: Option<&str>,
    gateway_ip: IpAddress,
    shared_vip: Option<IpAddress>,
) -> (r: Result<(), ListenerError>)
    ensures
        ({
            let want = ListenerConfigResource::spec_from_listener(*listener);
            let old = match old_name {
                Some(n) => Some(n@),
                None => None,
            };
            match spec_validate(*listener, names(target_groups@), existing@, old, gateway_ip, shared_vip, want) {
                None => r is Ok,
                Some(ListenerError::Conflict(n)) => r matches Err(ListenerError::Conflict(m)) && m@ == n@,
                Some(e) => r == Err::<(), ListenerError>(e),
            }
        }),
{
    let name = crate::text::trimmed(listener.name.as_str());
    if name.len() == 0 {
        return Err(ListenerError::NameRequired);
    }
    if listener.port == 0 {
        return Err(ListenerError::PortRequired);
    }
    if listener.target_port == 0 {
        return Err(ListenerError::TargetPortRequired);
    }
    if listener.protocols.len() == 0 {
        return Err(ListenerError::ProtocolRequired);
    }
    if !contains_name(target_groups, listener.target_group.as_str()) {
        return Err(ListenerError::TargetGroupNotFound);
    }
    let want = ListenerConfigResource::from_listener(listener);
    let ghost old = match old_name {
        Some(n) => Some(n@),
        None => None,
    };
    let mut i: usize = 0;
    while i < existing.len()
        invariant
            i <= existing@.len(),
            trim(listener.name@).len() > 0,
            listener.port != 0,
            listener.target_port != 0,
            listener.protocols@.len() > 0,
            names(target_groups@).contains(listener.target_group@),
            same_listener(want, ListenerConfigResource::spec_from_listener(*listener)),
            want.vip_ips@ == listener.vip_ips@,
            old == (match old_name {
                Some(n) => Some(n@),
                None => None,
            }),
            first_conflict(existing@, want, old, gateway_ip, shared_vip, 0) == first_conflict(existing@, want, old, gateway_ip, shared_vip, i as int),
        decreases existing@.len() - i,
    {
        let item = &existing[i];
        let skip = match old_name {
            Some(n) => crate::registry::same_name(item.name.as_str(), n),
            None => false,
        };
        if !skip {
            match listener_resource_conflicts(item, &want, gateway_ip, shared_vip) {
                Err(e) => {
                    proof {
                        lemma_conflict_same(existing@, want, ListenerConfigResource::spec_from_listener(*listener), old, gateway_ip, shared_vip, 0);
                    }
                    return Err(ListenerError::Vip(e));
                },
                Ok(true) => {
                    proof {
                        lemma_conflict_same(existing@, want, ListenerConfigResource::spec_from_listener(*listener), old, gateway_ip, shared_vip, 0);
                    }
                    return Err(ListenerError::Conflict(item.name.clone()));
                },
                Ok(false) => {},
            }
        }
        i = i + 1;
    }
    proof {
        lemma_conflict_same(existing@, want, ListenerConfigResource::spec_from_listener(*listener), old, gateway_ip, shared_vip, 0);
    }
    Ok(())
}

/// Conflicts depend on the fields `same_listener` compares and the VIPs only.
proof fn lemma_conflict_same(
    existing: Seq<ListenerConfigResource>,
    a: ListenerConfigResource,
    b: ListenerConfigResource,
    old: Option<Seq<char>>,
    gateway_ip: IpAddress,
    shared_vip: Option<IpAddress>,
    from: int,
)
    requires
        same_listener(a, b),
        a.vip_ips@ == b.vip_ips@,
    ensures
        first_conflict(existing, a, old, gateway_ip, shared_vip, from) == first_conflict(existing, b, old, gateway_ip, shared_vip, from),
    decreases existing.len() - from,
{
    if 0 <= from < existing.len() {
        lemma_conflict_same(existing, a, b, old, gateway_ip, shared_vip, from + 1);
    }
}

impl ListenerConfigResource {
    /// The stored resource of a configured listener, as a value.
    pub open spec fn spec_from_listener(l: Listener) -> ListenerConfigResource {
        ListenerConfigResource {
            name: l.name,
            vip_ips: l.vip_ips,
            port: l.port,
            target_port: l.target_port,
            protocols: l.protocols,
            target_group: l.target_group,
            select: l.select,
            inactive_timeout: l.inactive_timeout,
        }
    }
}


/// Law: a socket conflict needs the same port and a protocol both listeners
/// use. Listeners on different ports, or with no protocol in common (a TCP
/// and a UDP listener on one port and address), never conflict, whatever
/// their addresses; a reported conflict always has the same port and a
/// common protocol.
pub proof fn conflict_needs_port_and_protocol(
    existing: ListenerConfigResource,
    want: ListenerConfigResource,
    gateway_ip: IpAddress,
    shared_vip: Option<IpAddress>,
)
    ensures
        existing.port != want.port ==> spec_conflicts(existing, want, gateway_ip, shared_vip) == Ok::<bool, ModelError>(false),
        (forall|i: int, j: int|
            0 <= i < existing.protocols@.len() && 0 <= j < want.protocols@.len()
                ==> #[trigger] existing.protocols@[i] != #[trigger] want.protocols@[j])
            ==> spec_conflicts(existing, want, gateway_ip, shared_vip) == Ok::<bool, ModelError>(false),
        spec_conflicts(existing, want, gateway_ip, shared_vip) == Ok::<bool, ModelError>(true) ==> {
            &&& existing.port == want.port
            &&& exists|i: int, j: int|
                0 <= i < existing.protocols@.len() && 0 <= j < want.protocols@.len()
                    && #[trigger] existing.protocols@[i] == #[trigger] want.protocols@[j]
        },
        ({
            &&& existing.port == want.port
            &&& exists|i: int, j: int|
                0 <= i < existing.protocols@.len() && 0 <= j < want.protocols@.len()
                    && #[trigger] existing.protocols@[i] == #[trigger] want.protocols@[j]
            &&& spec_effective(gateway_ip, existing.vip_ips@, shared_vip) matches Ok(a)
            &&& spec_effective(gateway_ip, want.vip_ips@, shared_vip) matches Ok(b)
            &&& exists|x: int, y: int| 0 <= x < a.len() && 0 <= y < b.len() && #[trigger] a[x] == #[trigger] b[y]
        }) ==> spec_conflicts(existing, want, gateway_ip, shared_vip) == Ok::<bool, ModelError>(true),
{
    let a = existing.protocols@;
    let b = want.protocols@;
    if shares_protocol(a, b) {
        let i = choose|i: int| 0 <= i < a.len() && b.contains(#[trigger] a[i]);
        let j = choose|j: int| 0 <= j < b.len() && b[j] == a[i];
        assert(a[i] == b[j]);
    } else {
        assert forall|i: int, j: int| 0 <= i < a.len() && 0 <= j < b.len() implies #[trigger] a[i] != #[trigger] b[j] by {
            if a[i] == b[j] {
                assert(b.contains(a[i]));
            }
        }
    }
    if let Ok(va) = spec_effective(gateway_ip, existing.vip_ips@, shared_vip) {
        if let Ok(vb) = spec_effective(gateway_ip, want.vip_ips@, shared_vip) {
            if exists|x: int, y: int| 0 <= x < va.len() && 0 <= y < vb.len() && #[trigger] va[x] == #[trigger] vb[y] {
                let (x, y) = choose|x: int, y: int| 0 <= x < va.len() && 0 <= y < vb.len() && #[trigger] va[x] == #[trigger] vb[y];
                assert(vb.contains(va[x]));
            }
        }
    }
}

} // verus!
