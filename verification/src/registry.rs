//! The gateway's registry of connected backends: one subscription per
//! backend stream and the backend node (with its overlay address) that the
//! subscription publishes. Both are kept by backend name, in name order.

use vstd::prelude::*;
use crate::pb::DiscoveryRequest;
use crate::route_msg::IpAddress;
use crate::overlay::{GatewayNode, OverlayInventory, spec_assign, gateway_overlays, backend_overlays, assign_overlay_ips};
use crate::text::trim;
use crate::flow_table::{keyed_map, keys_distinct, lemma_keyed_lookup, lemma_keyed_absent, lemma_keyed_update, lemma_keyed_remove, lemma_keyed_push};

verus! {

/// Code-point (equivalently, UTF-8 byte) lexicographic order of names, the
/// order in which `String`s compare.
pub open spec fn name_lt(a: Seq<char>, b: Seq<char>) -> bool
    decreases a.len(),
{
    if a.len() == 0 {
        b.len() > 0
    } else if b.len() == 0 {
        false
    } else if (a[0] as int) < (b[0] as int) {
        true
    } else if a[0] == b[0] {
        name_lt(a.drop_first(), b.drop_first())
    } else {
        false
    }
}

pub proof fn lemma_name_lt_irreflexive(a: Seq<char>)
    ensures
        !name_lt(a, a),
    decreases a.len(),
{
    if a.len() > 0 {
        lemma_name_lt_irreflexive(a.drop_first());
    }
}

pub proof fn lemma_name_lt_transitive(a: Seq<char>, b: Seq<char>, c: Seq<char>)
    requires
        name_lt(a, b),
        name_lt(b, c),
    ensures
        name_lt(a, c),
    decreases a.len(),
{
    if a.len() > 0 && b.len() > 0 && c.len() > 0 && a[0] == b[0] && b[0] == c[0] {
        lemma_name_lt_transitive(a.drop_first(), b.drop_first(), c.drop_first());
    }
}

pub proof fn lemma_name_lt_total(a: Seq<char>, b: Seq<char>)
    requires
        a != b,
    ensures
        name_lt(a, b) || name_lt(b, a),
    decreases a.len(),
{
    if a.len() > 0 && b.len() > 0 {
        if a[0] == b[0] {
            if a.drop_first() == b.drop_first() {
                assert(a =~= seq![a[0]] + a.drop_first());
                assert(b =~= seq![b[0]] + b.drop_first());
            }
            lemma_name_lt_total(a.drop_first(), b.drop_first());
        } else {
            assert((a[0] as int) != (b[0] as int));
        }
    } else if a.len() == 0 && b.len() == 0 {
        assert(a =~= b);
    }
}

pub proof fn lemma_name_lt_asymmetric(a: Seq<char>, b: Seq<char>)
    requires
        name_lt(a, b),
    ensures
        !name_lt(b, a),
{
    if name_lt(b, a) {
        lemma_name_lt_transitive(a, b, a);
        lemma_name_lt_irreflexive(a);
    }
}

fn char_code(c: char) -> (r: u32)
    ensures
        r as int == c as int,
{
    c as u32
}

fn chars_lt(a: &[char], b: &[char]) -> (r: bool)
    ensures
        r == name_lt(a@, b@),
{
    let mut i: usize = 0;
    assert(a@.skip(0) =~= a@);
    assert(b@.skip(0) =~= b@);
    while i < a.len() && i < b.len()
        invariant
            i <= a@.len(),
            i <= b@.len(),
            name_lt(a@, b@) == name_lt(a@.skip(i as int), b@.skip(i as int)),
        decreases a@.len() - i,
    {
        assert(a@.skip(i as int).len() > 0 && b@.skip(i as int).len() > 0);
        assert(a@.skip(i as int)[0] == a@[i as int]);
        assert(b@.skip(i as int)[0] == b@[i as int]);
        let x = a[i];
        let y = b[i];
        if char_code(x) < char_code(y) {
            assert(name_lt(a@.skip(i as int), b@.skip(i as int)));
            return true;
        }
        if x != y {
            assert(!name_lt(a@.skip(i as int), b@.skip(i as int)));
            return false;
        }
        assert(a@.skip(i as int).drop_first() =~= a@.skip(i + 1));
        assert(b@.skip(i as int).drop_first() =~= b@.skip(i + 1));
        i = i + 1;
    }
    i == a.len() && i < b.len()
}

/// Whether `a` sorts before `b`.
pub fn name_less(a: &str, b: &str) -> (r: bool)
    ensures
        r == name_lt(a@, b@),
{
    let ca = crate::text::chars_of(a);
    let cb = crate::text::chars_of(b);
    chars_lt(&ca, &cb)
}

/// Whether a text is empty.
pub fn text_empty(s: &str) -> (r: bool)
    ensures
        r == (s@.len() == 0),
{
    s.unicode_len() == 0
}

/// Whether two names are the same text.
pub fn same_name(a: &str, b: &str) -> (r: bool)
    ensures
        r == (a@ == b@),
{
    let ca = crate::text::chars_of(a);
    let cb = crate::text::chars_of(b);
    crate::text::chars_eq(&ca, &cb)
}

pub open spec fn entry_name<V>() -> spec_fn((String, V)) -> Seq<char> {
    |e: (String, V)| e.0@
}

pub open spec fn entry_value<V>() -> spec_fn((String, V)) -> V {
    |e: (String, V)| e.1
}

/// Entries strictly ordered by name.
pub open spec fn names_sorted<V>(s: Seq<(String, V)>) -> bool {
    forall|i: int, j: int| 0 <= i < j < s.len() ==> name_lt(#[trigger] s[i].0@, #[trigger] s[j].0@)
}

proof fn lemma_sorted_distinct<V>(s: Seq<(String, V)>)
    requires
        names_sorted(s),
    ensures
        keys_distinct(s, entry_name::<V>()),
{
    assert forall|i: int, j: int| 0 <= i < j < s.len() implies entry_name::<V>()(#[trigger] s[i]) != entry_name::<V>()(#[trigger] s[j]) by {
        assert(name_lt(s[i].0@, s[j].0@));
        lemma_name_lt_irreflexive(s[i].0@);
    }
}

/// A map from backend names to values that iterates in name order.
pub struct NameMap<V> {
    entries: Vec<(String, V)>,
}

impl<V> NameMap<V> {
    /// The entries in name order.
    pub closed spec fn seq(&self) -> Seq<(String, V)> {
        self.entries@
    }

    pub closed spec fn wf(&self) -> bool {
        names_sorted(self.entries@)
    }

    pub open spec fn view(&self) -> Map<Seq<char>, V> {
        keyed_map(self.seq(), entry_name::<V>(), entry_value::<V>())
    }

    pub proof fn lemma_wf(&self)
        requires
            self.wf(),
        ensures
            names_sorted(self.seq()),
            keys_distinct(self.seq(), entry_name::<V>()),
    {
        lemma_sorted_distinct(self.entries@);
    }

    pub fn new() -> (r: Self)
        ensures
            r.wf(),
            r.seq().len() == 0,
            r@ == Map::<Seq<char>, V>::empty(),
    {
        NameMap { entries: Vec::new() }
    }

    pub fn len(&self) -> (r: usize)
        ensures
            r == self.seq().len(),
    {
        self.entries.len()
    }

    pub fn entry(&self, i: usize) -> (r: &(String, V))
        requires
            i < self.seq().len(),
        ensures
            *r == self.seq()[i as int],
    {
        &self.entries[i]
    }

    /// Where `name` is, or `None` when it is absent.
    pub fn index_of(&self, name: &str) -> (r: Option<usize>)
        requires
            self.wf(),
        ensures
            r matches Some(i) ==> i < self.seq().len() && self.seq()[i as int].0@ == name@,
            r is None ==> !self@.contains_key(name@),
            self@.contains_key(name@) <==> r is Some,
            r matches Some(i) ==> self@[name@] == self.seq()[i as int].1,
    {
        proof {
            lemma_sorted_distinct(self.entries@);
        }
        let mut i: usize = 0;
        while i < self.entries.len()
            invariant
                i <= self.entries@.len(),
                keys_distinct(self.entries@, entry_name::<V>()),
                forall|j: int| 0 <= j < i ==> self.entries@[j].0@ != name@,
            decreases self.entries@.len() - i,
        {
            if same_name(self.entries[i].0.as_str(), name) {
                proof {
                    lemma_keyed_lookup(self.entries@, entry_name::<V>(), entry_value::<V>(), i as int);
                }
                return Some(i);
            }
            i = i + 1;
        }
        proof {
            lemma_keyed_absent(self.entries@, entry_name::<V>(), entry_value::<V>(), name@);
        }
        None
    }

    pub fn get(&self, name: &str) -> (r: Option<&V>)
        requires
            self.wf(),
        ensures
            r matches Some(v) ==> self@.contains_key(name@) && *v == self@[name@],
            r is None ==> !self@.contains_key(name@),
    {
        match self.index_of(name) {
            Some(i) => Some(&self.entries[i].1),
            None => None,
        }
    }

    /// Insert or replace the value of `name`, keeping name order.
    pub fn insert(&mut self, name: String, v: V)
        requires
            old(self).wf(),
        ensures
            final(self).wf(),
            final(self)@ == old(self)@.insert(name@, v),
    {
        proof {
            lemma_sorted_distinct(self.entries@);
        }
        let ghost s = self.entries@;
        let mut p: usize = 0;
        while p < self.entries.len() && name_less(self.entries[p].0.as_str(), name.as_str())
            invariant
                p <= self.entries@.len(),
                self.entries@ == s,
                forall|j: int| 0 <= j < p ==> name_lt(#[trigger] s[j].0@, name@),
            decreases self.entries@.len() - p,
        {
            p = p + 1;
        }
        if p < self.entries.len() && same_name(self.entries[p].0.as_str(), name.as_str()) {
            let ghost e = (name, v);
            proof {
                lemma_keyed_update(s, entry_name::<V>(), entry_value::<V>(), p as int, (name, v));
            }
            let ghost nm = name@;
            self.entries.set(p, (name, v));
            assert(names_sorted(self.entries@)) by {
                assert forall|i: int, j: int| 0 <= i < j < self.entries@.len() implies name_lt(#[trigger] self.entries@[i].0@, #[trigger] self.entries@[j].0@) by {
                    assert(self.entries@[i].0@ == s[i].0@);
                    assert(self.entries@[j].0@ == s[j].0@);
                }
            }
        } else {
            // every entry from p on sorts after `name`
            assert forall|j: int| p <= j < s.len() implies name_lt(name@, #[trigger] s[j].0@) by {
                if p < s.len() {
                    assert(!name_lt(s[p as int].0@, name@));
                    assert(s[p as int].0@ != name@);
                    lemma_name_lt_total(s[p as int].0@, name@);
                    if j > p {
                        lemma_name_lt_transitive(name@, s[p as int].0@, s[j].0@);
                    }
                }
            }
            assert forall|j: int| 0 <= j < s.len() implies (#[trigger] s[j]).0@ != name@ by {
                if j < p {
                    assert(name_lt(s[j].0@, name@));
                    lemma_name_lt_irreflexive(name@);
                } else {
                    assert(name_lt(name@, s[j].0@));
                    lemma_name_lt_irreflexive(name@);
                }
            }
            proof {
                lemma_keyed_insert_at(s, p as int, (name, v));
            }
            self.entries.insert(p, (name, v));
            let ghost t = self.entries@;
            assert(t == s.insert(p as int, (name, v)));
            assert forall|i: int, j: int| 0 <= i < j < t.len() implies name_lt(#[trigger] t[i].0@, #[trigger] t[j].0@) by {
                if j < p {
                    assert(t[i] == s[i] && t[j] == s[j]);
                } else if j == p {
                    assert(t[i] == s[i]);
                } else if i < p {
                    assert(t[i] == s[i] && t[j] == s[j - 1]);
                    assert(name_lt(s[i].0@, name@));
                    lemma_name_lt_transitive(s[i].0@, name@, s[j - 1].0@);
                } else if i == p {
                    assert(t[j] == s[j - 1]);
                } else {
                    assert(t[i] == s[i - 1] && t[j] == s[j - 1]);
                }
            }
        }
    }

    /// Replace the value at position `i`, keeping its name.
    pub fn set_value_at(&mut self, i: usize, v: V)
        requires
            old(self).wf(),
            i < old(self).seq().len(),
        ensures
            final(self).wf(),
            final(self).seq() == old(self).seq().update(i as int, (old(self).seq()[i as int].0, v)),
            final(self)@ == old(self)@.insert(old(self).seq()[i as int].0@, v),
    {
        let ghost s = self.entries@;
        let k = self.entries[i].0.clone();
        proof {
            lemma_sorted_distinct(s);
            lemma_keyed_update(s, entry_name::<V>(), entry_value::<V>(), i as int, (k, v));
        }
        self.entries.set(i, (k, v));
        assert forall|a: int, b: int| 0 <= a < b < self.entries@.len() implies name_lt(#[trigger] self.entries@[a].0@, #[trigger] self.entries@[b].0@) by {
            assert(self.entries@[a].0@ == s[a].0@);
            assert(self.entries@[b].0@ == s[b].0@);
        }
    }

    /// Remove `name`, returning its value.
    pub fn remove(&mut self, name: &str) -> (r: Option<V>)
        requires
            old(self).wf(),
        ensures
            final(self).wf(),
            final(self)@ == old(self)@.remove(name@),
            r matches Some(v) ==> old(self)@.contains_key(name@) && v == old(self)@[name@],
            r is None ==> !old(self)@.contains_key(name@),
    {
        match self.index_of(name) {
            None => {
                assert(self@.remove(name@) =~= self@);
                None
            },
            Some(i) => {
                let ghost s = self.entries@;
                proof {
                    lemma_sorted_distinct(s);
                    lemma_keyed_remove(s, entry_name::<V>(), entry_value::<V>(), i as int);
                }
                let (_, v) = self.entries.remove(i);
                let ghost t = self.entries@;
                assert forall|a: int, b: int| 0 <= a < b < t.len() implies name_lt(#[trigger] t[a].0@, #[trigger] t[b].0@) by {
                    let sa = if a < i { a } else { a + 1 };
                    let sb = if b < i { b } else { b + 1 };
                    assert(t[a] == s[sa] && t[b] == s[sb]);
                }
                Some(v)
            },
        }
    }
}

proof fn lemma_keyed_insert_at<V>(s: Seq<(String, V)>, p: int, e: (String, V))
    requires
        0 <= p <= s.len(),
        keys_distinct(s, entry_name::<V>()),
        forall|j: int| 0 <= j < s.len() ==> (#[trigger] s[j]).0@ != e.0@,
    ensures
        keyed_map(s.insert(p, e), entry_name::<V>(), entry_value::<V>()) == keyed_map(s, entry_name::<V>(), entry_value::<V>()).insert(e.0@, e.1),
    decreases s.len(),
{
    let key = entry_name::<V>();
    let val = entry_value::<V>();
    if p == s.len() {
        assert(s.insert(p, e) =~= s.push(e));
        lemma_keyed_push(s, key, val, e);
    } else {
        let t = s.drop_last();
        assert forall|a: int, b: int| 0 <= a < b < t.len() implies key(#[trigger] t[a]) != key(#[trigger] t[b]) by {
            assert(t[a] == s[a] && t[b] == s[b]);
        }
        assert forall|j: int| 0 <= j < t.len() implies (#[trigger] t[j]).0@ != e.0@ by {
            assert(t[j] == s[j]);
        }
        lemma_keyed_insert_at(t, p, e);
        let u = s.insert(p, e);
        assert(u.drop_last() =~= t.insert(p, e));
        assert(u.last() == s.last());
        assert(s.last().0@ != e.0@);
        assert(keyed_map(u, key, val) =~= keyed_map(s, key, val).insert(e.0@, e.1));
    }
}

/// The trimmed value, or the fallback when nothing is left.
pub open spec fn spec_non_empty_or(value: Seq<char>, fallback: Seq<char>) -> Seq<char> {
    if trim(value).len() == 0 {
        fallback
    } else {
        trim(value)
    }
}

pub fn non_empty_or(value: &str, fallback: &str) -> (r: String)
    ensures
        r@ == spec_non_empty_or(value@, fallback@),
{
    let t = crate::text::trimmed(value);
    if t.len() == 0 {
        let cs = crate::text::chars_of(fallback);
        crate::text::string_of(&cs)
    } else {
        crate::text::string_of(&t)
    }
}

/// A conflict a backend reported, as the registry shows it.
#[derive(Clone, Debug, PartialEq, Eq)]
pub struct NodeConflictStatus {
    pub severity: String,
    pub kind: String,
    pub subject: String,
    pub detail: String,
}

pub open spec fn status_view(c: NodeConflictStatus) -> (Seq<char>, Seq<char>, Seq<char>, Seq<char>) {
    (c.severity@, c.kind@, c.subject@, c.detail@)
}

/// The statuses of reported conflicts: a blank severity reads `warning`, a
/// blank kind `unknown`.
pub open spec fn spec_conflict_statuses(cs: Seq<crate::pb::NodeConflict>) -> Seq<(Seq<char>, Seq<char>, Seq<char>, Seq<char>)> {
    cs.map_values(
        |c: crate::pb::NodeConflict|
            (spec_non_empty_or(c.severity@, "warning"@), spec_non_empty_or(c.kind@, "unknown"@), c.subject@, c.detail@),
    )
}

pub fn conflict_statuses(req: &DiscoveryRequest) -> (r: Vec<NodeConflictStatus>)
    ensures
        r@.map_values(|c: NodeConflictStatus| status_view(c)) == spec_conflict_statuses(req.conflicts@),
{
    let mut out: Vec<NodeConflictStatus> = Vec::new();
    let mut i: usize = 0;
    while i < req.conflicts.len()
        invariant
            i <= req.conflicts@.len(),
            out@.map_values(|c: NodeConflictStatus| status_view(c)) == spec_conflict_statuses(req.conflicts@.take(i as int)),
        decreases req.conflicts@.len() - i,
    {
        let c = &req.conflicts[i];
        let st = NodeConflictStatus {
            severity: non_empty_or(c.severity.as_str(), "warning"),
            kind: non_empty_or(c.kind.as_str(), "unknown"),
            subject: c.subject.clone(),
            detail: c.detail.clone(),
        };
        let ghost prev = out@;
        proof {
            reveal_strlit("warning");
            reveal_strlit("unknown");
        }
        assert(status_view(st) == (spec_non_empty_or(c.severity@, "warning"@), spec_non_empty_or(c.kind@, "unknown"@), c.subject@, c.detail@));
        out.push(st);
        assert(req.conflicts@.take(i + 1) =~= req.conflicts@.take(i as int).push(*c));
        assert(out@.map_values(|c: NodeConflictStatus| status_view(c)) =~= prev.map_values(|c: NodeConflictStatus| status_view(c)).push(status_view(st)));
        assert(out@.map_values(|c: NodeConflictStatus| status_view(c)) =~= spec_conflict_statuses(req.conflicts@.take(i + 1)));
        i = i + 1;
    }
    assert(req.conflicts@.take(i as int) =~= req.conflicts@);
    out
}

/// An address as `IpAddr` reads it: dotted-quad IPv4, else IPv6.
pub open spec fn spec_parse_ip(text: Seq<char>) -> Option<IpAddress> {
    match crate::ipnet::parsed_ipv4(text) {
        Some(a) => Some(IpAddress::V4(a)),
        None => match crate::ipv6::parsed_ipv6(text) {
            Some(v) => Some(IpAddress::V6(v)),
            None => None,
        },
    }
}

/// Parse an IPv4 or IPv6 address.
pub fn parse_ip_address(text: &str) -> (r: Option<IpAddress>)
    ensures
        r == spec_parse_ip(text@),
{
    match crate::ipnet::parse_ipv4(text) {
        Some(a) => Some(IpAddress::V4(a)),
        None => match crate::ipv6::parse_ipv6(text) {
            Some(v) => Some(IpAddress::V6(v)),
            None => None,
        },
    }
}

pub open spec fn is_unspecified(ip: IpAddress) -> bool {
    ip == IpAddress::V4(0) || ip == IpAddress::V6(0)
}

/// One live backend configuration stream.
#[derive(Clone, Debug)]
pub struct ActiveBackendSubscription {
    pub public_ip: IpAddress,
    pub public_ip_mode: String,
    pub public_ip_source: String,
    pub underlay_ip: IpAddress,
    pub underlay_ip_mode: String,
    pub underlay_ip_source: String,
    pub peer: Option<String>,
    pub stream_id: String,
    pub connected_at: u64,
    pub last_seen: u64,
    pub last_version: String,
    pub conflicts: Vec<NodeConflictStatus>,
}

/// A backend host of the inventory and the overlay address it was given.
#[derive(Clone, Debug, PartialEq, Eq)]
pub struct BackendNode {
    pub name: String,
    pub public_ip: IpAddress,
    pub underlay_ip: IpAddress,
    pub overlay_ip: String,
}

pub open spec fn node_view(n: BackendNode) -> (Seq<char>, IpAddress, IpAddress, Seq<char>) {
    (n.name@, n.public_ip, n.underlay_ip, n.overlay_ip@)
}

/// What a subscription records of the request that opened it.
pub open spec fn registered_from(
    sub: ActiveBackendSubscription,
    req: DiscoveryRequest,
    underlay: IpAddress,
    peer: Option<String>,
    stream_id: Seq<char>,
    now: u64,
) -> bool {
    &&& sub.public_ip == (match spec_parse_ip(req.public_ip@) {
        Some(ip) => ip,
        None => IpAddress::V4(0),
    })
    &&& sub.underlay_ip == underlay
    &&& sub.public_ip_mode@ == spec_non_empty_or(req.public_ip_mode@, "unknown"@)
    &&& sub.public_ip_source@ == spec_non_empty_or(req.public_ip_source@, "unknown"@)
    &&& sub.underlay_ip_mode@ == spec_non_empty_or(req.underlay_ip_mode@, "unknown"@)
    &&& sub.underlay_ip_source@ == spec_non_empty_or(req.underlay_ip_source@, "unknown"@)
    &&& sub.peer == peer
    &&& sub.stream_id@ == stream_id
    &&& sub.connected_at == now
    &&& sub.last_seen == now
    &&& sub.last_version@ == req.version@
    &&& sub.conflicts@.map_values(|c: NodeConflictStatus| status_view(c)) == spec_conflict_statuses(req.conflicts@)
}

/// The registry of live backend subscriptions and the nodes they publish.
/// A node lives only as long as its subscription: every published node has
/// a subscription of the same name.
pub struct BackendRegistry {
    subscriptions: NameMap<ActiveBackendSubscription>,
    nodes: NameMap<BackendNode>,
}

impl BackendRegistry {
    pub closed spec fn subs(&self) -> Map<Seq<char>, ActiveBackendSubscription> {
        self.subscriptions@
    }

    pub closed spec fn node_map(&self) -> Map<Seq<char>, BackendNode> {
        self.nodes@
    }

    /// The subscriptions in name order.
    pub closed spec fn sub_seq(&self) -> Seq<(String, ActiveBackendSubscription)> {
        self.subscriptions.seq()
    }

    /// The published nodes in name order.
    pub closed spec fn node_seq(&self) -> Seq<(String, BackendNode)> {
        self.nodes.seq()
    }

    pub closed spec fn wf(&self) -> bool {
        &&& self.subscriptions.wf()
        &&& self.nodes.wf()
        &&& forall|k: Seq<char>| #[trigger] self.nodes@.contains_key(k) ==> self.subscriptions@.contains_key(k)
        &&& forall|k: Seq<char>| #[trigger] self.nodes@.contains_key(k) ==> self.nodes@[k].name@ == k
    }

    pub fn new() -> (r: Self)
        ensures
            r.wf(),
            r.subs() == Map::<Seq<char>, ActiveBackendSubscription>::empty(),
            r.node_map() == Map::<Seq<char>, BackendNode>::empty(),
    {
        BackendRegistry { subscriptions: NameMap::new(), nodes: NameMap::new() }
    }

    /// Register the stream `stream_id` of the backend named in `req`. A
    /// request whose underlay address does not parse is ignored. The node
    /// keeps the overlay address it was given before, else `auto`.
    pub fn upsert(&mut self, req: &DiscoveryRequest, peer: Option<String>, stream_id: &str, now: u64)
        requires
            old(self).wf(),
        ensures
            final(self).wf(),
            spec_parse_ip(req.underlay_ip@) is None ==> final(self).subs() == old(self).subs() && final(self).node_map() == old(self).node_map(),
            spec_parse_ip(req.underlay_ip@) matches Some(u) ==> {
                &&& final(self).subs().dom() == old(self).subs().dom().insert(req.node_name@)
                &&& forall|k: Seq<char>| k != req.node_name@ && #[trigger] old(self).subs().contains_key(k) ==> final(self).subs()[k] == old(self).subs()[k]
                &&& registered_from(final(self).subs()[req.node_name@], *req, u, peer, stream_id@, now)
                &&& final(self).node_map().dom() == old(self).node_map().dom().insert(req.node_name@)
                &&& forall|k: Seq<char>| k != req.node_name@ && #[trigger] old(self).node_map().contains_key(k) ==> final(self).node_map()[k] == old(self).node_map()[k]
                &&& node_view(final(self).node_map()[req.node_name@]) == (
                    req.node_name@,
                    final(self).subs()[req.node_name@].public_ip,
                    u,
                    if old(self).node_map().contains_key(req.node_name@) {
                        old(self).node_map()[req.node_name@].overlay_ip@
                    } else {
                        "auto"@
                    },
                )
            },
    {
        let underlay_ip = match parse_ip_address(req.underlay_ip.as_str()) {
            Some(ip) => ip,
            None => {
                return;
            },
        };
        let public_ip = match parse_ip_address(req.public_ip.as_str()) {
            Some(ip) => ip,
            None => IpAddress::V4(0),
        };
        proof {
            reveal_strlit("unknown");
            reveal_strlit("auto");
        }
        let sub = ActiveBackendSubscription {
            public_ip,
            public_ip_mode: non_empty_or(req.public_ip_mode.as_str(), "unknown"),
            public_ip_source: non_empty_or(req.public_ip_source.as_str(), "unknown"),
            underlay_ip,
            underlay_ip_mode: non_empty_or(req.underlay_ip_mode.as_str(), "unknown"),
            underlay_ip_source: non_empty_or(req.underlay_ip_source.as_str(), "unknown"),
            peer,
            stream_id: stream_id.to_string(),
            connected_at: now,
            last_seen: now,
            last_version: req.version.clone(),
            conflicts: conflict_statuses(req),
        };
        self.subscriptions.insert(req.node_name.clone(), sub);
        let overlay_ip = match self.nodes.get(req.node_name.as_str()) {
            Some(node) => node.overlay_ip.clone(),
            None => "auto".to_string(),
        };
        let node = BackendNode { name: req.node_name.clone(), public_ip, underlay_ip, overlay_ip };
        self.nodes.insert(req.node_name.clone(), node);
    }

    /// A heartbeat or acknowledgement on stream `stream_id`. Only the current
    /// stream of the backend counts: it refreshes the last-seen time, records
    /// a non-empty version, and replaces the conflicts on a full
    /// acknowledgement (ack with version and nonce) or when conflicts are
    /// reported. Anything else leaves the registry as it was.
    pub fn touch(&mut self, node_name: &str, stream_id: &str, req: &DiscoveryRequest, now: u64)
        requires
            old(self).wf(),
        ensures
            final(self).wf(),
            final(self).node_map() == old(self).node_map(),
            final(self).subs().dom() == old(self).subs().dom(),
            !(old(self).subs().contains_key(node_name@) && old(self).subs()[node_name@].stream_id@ == stream_id@)
                ==> final(self).subs() == old(self).subs(),
            old(self).subs().contains_key(node_name@) && old(self).subs()[node_name@].stream_id@ == stream_id@ ==> {
                let before = old(self).subs()[node_name@];
                let after = final(self).subs()[node_name@];
                &&& forall|k: Seq<char>| k != node_name@ && #[trigger] old(self).subs().contains_key(k) ==> final(self).subs()[k] == old(self).subs()[k]
                &&& after.last_seen == now
                &&& after.last_version@ == (if req.version@.len() == 0 { before.last_version@ } else { req.version@ })
                &&& after.conflicts@.map_values(|c: NodeConflictStatus| status_view(c)) == (
                    if (req.ack && req.version@.len() > 0 && req.response_nonce@.len() > 0) || req.conflicts@.len() > 0 {
                        spec_conflict_statuses(req.conflicts@)
                    } else {
                        before.conflicts@.map_values(|c: NodeConflictStatus| status_view(c))
                    })
                &&& after.stream_id == before.stream_id
                &&& after.public_ip == before.public_ip
                &&& after.underlay_ip == before.underlay_ip
                &&& after.connected_at == before.connected_at
            },
    {
        let current = match self.subscriptions.get(node_name) {
            Some(sub) => same_name(sub.stream_id.as_str(), stream_id),
            None => false,
        };
        if !current {
            return;
        }
        let ghost before = self.subscriptions@[node_name@];
        let mut sub = match self.subscriptions.remove(node_name) {
            Some(sub) => sub,
            None => {
                return;
            },
        };
        sub.last_seen = now;
        if !text_empty(req.version.as_str()) {
            sub.last_version = req.version.clone();
        }
        let full_ack = req.ack && !text_empty(req.version.as_str()) && !text_empty(req.response_nonce.as_str());
        if full_ack || req.conflicts.len() > 0 {
            sub.conflicts = conflict_statuses(req);
        }
        self.subscriptions.insert(node_name.to_string(), sub);
        assert(self.subscriptions@.dom() =~= old(self).subscriptions@.dom());
    }

    /// The stream `stream_id` of `node_name` went away. Only the current
    /// stream removes the subscription and its node; a late disconnect of an
    /// older stream leaves a reconnected backend in place.
    pub fn remove(&mut self, node_name: &str, stream_id: &str)
        requires
            old(self).wf(),
        ensures
            final(self).wf(),
            old(self).subs().contains_key(node_name@) && old(self).subs()[node_name@].stream_id@ == stream_id@ ==> {
                &&& final(self).subs() == old(self).subs().remove(node_name@)
                &&& final(self).node_map() == old(self).node_map().remove(node_name@)
            },
            !(old(self).subs().contains_key(node_name@) && old(self).subs()[node_name@].stream_id@ == stream_id@) ==> {
                &&& final(self).subs() == old(self).subs()
                &&& final(self).node_map() == old(self).node_map()
            },
    {
        let current = match self.subscriptions.get(node_name) {
            Some(sub) => same_name(sub.stream_id.as_str(), stream_id),
            None => false,
        };
        if current {
            self.subscriptions.remove(node_name);
            self.nodes.remove(node_name);
        }
    }

    /// Drop the subscriptions not seen within `ttl_secs` of `now`, with their
    /// nodes; the names dropped come back in name order.
    pub fn prune_expired(&mut self, now: u64, ttl_secs: u64) -> (r: Vec<String>)
        requires
            old(self).wf(),
        ensures
            final(self).wf(),
            forall|k: Seq<char>| #[trigger] final(self).subs().contains_key(k) <==> old(self).subs().contains_key(k) && alive(old(self).subs()[k], now, ttl_secs),
            forall|k: Seq<char>| #[trigger] final(self).subs().contains_key(k) ==> final(self).subs()[k] == old(self).subs()[k],
            forall|k: Seq<char>| #[trigger] final(self).node_map().contains_key(k) <==> old(self).node_map().contains_key(k) && alive(old(self).subs()[k], now, ttl_secs),
            forall|k: Seq<char>| #[trigger] final(self).node_map().contains_key(k) ==> final(self).node_map()[k] == old(self).node_map()[k],
            r@.map_values(|n: String| n@) == expired_names(old(self).sub_seq(), now, ttl_secs),
    {
        let ghost s = self.subscriptions.seq();
        let ghost m = self.subscriptions@;
        proof {
            self.subscriptions.lemma_wf();
        }
        let mut expired: Vec<String> = Vec::new();
        let mut i: usize = 0;
        let n = self.subscriptions.len();
        while i < n
            invariant
                i <= n,
                n == s.len(),
                self.subscriptions.seq() == s,
                self.subscriptions@ == m,
                keys_distinct(s, entry_name::<ActiveBackendSubscription>()),
                m == keyed_map(s, entry_name::<ActiveBackendSubscription>(), entry_value::<ActiveBackendSubscription>()),
                expired@.map_values(|n: String| n@) == expired_names(s.take(i as int), now, ttl_secs),
                forall|t: int| 0 <= t < expired@.len() ==> m.contains_key(#[trigger] expired@[t]@) && !alive(m[expired@[t]@], now, ttl_secs),
                forall|j: int| 0 <= j < i && !alive(#[trigger] s[j].1, now, ttl_secs) ==> exists|t: int| 0 <= t < expired@.len() && expired@[t]@ == s[j].0@,
            decreases n - i,
        {
            let e = self.subscriptions.entry(i);
            let gone = now.saturating_sub(e.1.last_seen) > ttl_secs;
            proof {
                lemma_keyed_lookup(s, entry_name::<ActiveBackendSubscription>(), entry_value::<ActiveBackendSubscription>(), i as int);
            }
            assert(s.take(i + 1).drop_last() =~= s.take(i as int));
            let ghost before = expired@;
            if gone {
                let name = e.0.clone();
                expired.push(name);
                assert(expired@.map_values(|n: String| n@) =~= before.map_values(|n: String| n@).push(s[i as int].0@));
                assert forall|j: int| 0 <= j < i + 1 && !alive(#[trigger] s[j].1, now, ttl_secs) implies exists|t: int| 0 <= t < expired@.len() && expired@[t]@ == s[j].0@ by {
                    if j == i {
                        assert(expired@[before.len() as int]@ == s[j].0@);
                    } else {
                        let t = choose|t: int| 0 <= t < before.len() && before[t]@ == s[j].0@;
                        assert(expired@[t] == before[t]);
                    }
                }
            } else {
                assert forall|j: int| 0 <= j < i + 1 && !alive(#[trigger] s[j].1, now, ttl_secs) implies exists|t: int| 0 <= t < expired@.len() && expired@[t]@ == s[j].0@ by {
                    assert(j != i);
                }
            }
            i = i + 1;
        }
        assert(s.take(n as int) =~= s);
        let ghost nm = self.nodes@;
        let mut j: usize = 0;
        while j < expired.len()
            invariant
                j <= expired@.len(),
                self.subscriptions.wf(),
                self.nodes.wf(),
                forall|k: Seq<char>| #[trigger] self.subscriptions@.contains_key(k) <==> m.contains_key(k) && !(exists|t: int| 0 <= t < j && expired@[t]@ == k),
                forall|k: Seq<char>| #[trigger] self.subscriptions@.contains_key(k) ==> self.subscriptions@[k] == m[k],
                forall|k: Seq<char>| #[trigger] self.nodes@.contains_key(k) <==> nm.contains_key(k) && !(exists|t: int| 0 <= t < j && expired@[t]@ == k),
                forall|k: Seq<char>| #[trigger] self.nodes@.contains_key(k) ==> self.nodes@[k] == nm[k],
                forall|k: Seq<char>| #[trigger] nm.contains_key(k) ==> m.contains_key(k),
                forall|k: Seq<char>| #[trigger] nm.contains_key(k) ==> nm[k].name@ == k,
            decreases expired@.len() - j,
        {
            let name = expired[j].as_str();
            self.subscriptions.remove(name);
            self.nodes.remove(name);
            j = j + 1;
        }
        proof {
            assert forall|k: Seq<char>| m.contains_key(k) && !alive(m[k], now, ttl_secs) implies exists|t: int| 0 <= t < expired@.len() && expired@[t]@ == k by {
                lemma_keyed_has_index(s, entry_name::<ActiveBackendSubscription>(), entry_value::<ActiveBackendSubscription>(), k);
                let i0 = choose|i0: int| 0 <= i0 < s.len() && entry_name::<ActiveBackendSubscription>()(s[i0]) == k;
                lemma_keyed_lookup(s, entry_name::<ActiveBackendSubscription>(), entry_value::<ActiveBackendSubscription>(), i0);
                assert(!alive(s[i0].1, now, ttl_secs));
            }
        }
        expired
    }

    /// The live backends that are not gateways, in name order, with the
    /// overlay address known for them: the configured node's (the last one of
    /// that name), else the published node's, else `auto`.
    pub fn active_backend_nodes(&self, configured: &Vec<BackendNode>, gateway_underlays: &Vec<IpAddress>) -> (r: Vec<BackendNode>)
        requires
            self.wf(),
        ensures
            r@.map_values(|n: BackendNode| node_view(n)) == spec_active_nodes(self.sub_seq(), configured@, self.node_map(), gateway_underlays@),
    {
        let ghost s = self.subscriptions.seq();
        let mut out: Vec<BackendNode> = Vec::new();
        let mut i: usize = 0;
        let n = self.subscriptions.len();
        while i < n
            invariant
                i <= n,
                n == s.len(),
                self.subscriptions.seq() == s,
                self.nodes.wf(),
                out@.map_values(|n: BackendNode| node_view(n)) == spec_active_nodes(s.take(i as int), configured@, self.nodes@, gateway_underlays@),
            decreases n - i,
        {
            let e = self.subscriptions.entry(i);
            assert(s.take(i + 1).drop_last() =~= s.take(i as int));
            let u = e.1.underlay_ip;
            if !(u == IpAddress::V4(0) || u == IpAddress::V6(0)) && !contains_ip(gateway_underlays, u) {
                let overlay_ip = match last_configured_overlay(configured, e.0.as_str()) {
                    Some(o) => o,
                    None => match self.nodes.get(e.0.as_str()) {
                        Some(node) => node.overlay_ip.clone(),
                        None => "auto".to_string(),
                    },
                };
                proof {
                    reveal_strlit("auto");
                }
                let ghost before = out@;
                let node = BackendNode { name: e.0.clone(), public_ip: e.1.public_ip, underlay_ip: u, overlay_ip };
                out.push(node);
                assert(out@.map_values(|n: BackendNode| node_view(n)) =~= before.map_values(|n: BackendNode| node_view(n)).push(node_view(node)));
            }
            i = i + 1;
        }
        assert(s.take(n as int) =~= s);
        out
    }
}

/// A subscription is alive while it was seen within `ttl` of `now`.
pub open spec fn alive(sub: ActiveBackendSubscription, now: u64, ttl: u64) -> bool {
    (if now >= sub.last_seen { now - sub.last_seen } else { 0 }) <= ttl
}

/// The names of the expired subscriptions, in order.
pub open spec fn expired_names(s: Seq<(String, ActiveBackendSubscription)>, now: u64, ttl: u64) -> Seq<Seq<char>>
    decreases s.len(),
{
    if s.len() == 0 {
        seq![]
    } else {
        let rest = expired_names(s.drop_last(), now, ttl);
        if alive(s.last().1, now, ttl) {
            rest
        } else {
            rest.push(s.last().0@)
        }
    }
}

/// The overlay address of the last configured node named `name`.
pub open spec fn spec_last_overlay(nodes: Seq<BackendNode>, name: Seq<char>) -> Option<Seq<char>>
    decreases nodes.len(),
{
    if nodes.len() == 0 {
        None
    } else if nodes.last().name@ == name {
        Some(nodes.last().overlay_ip@)
    } else {
        spec_last_overlay(nodes.drop_last(), name)
    }
}

fn last_configured_overlay(nodes: &Vec<BackendNode>, name: &str) -> (r: Option<String>)
    ensures
        r matches Some(o) ==> spec_last_overlay(nodes@, name@) == Some(o@),
        r is None ==> spec_last_overlay(nodes@, name@) is None,
{
    let mut i: usize = nodes.len();
    assert(nodes@.take(i as int) =~= nodes@);
    while i > 0
        invariant
            i <= nodes@.len(),
            spec_last_overlay(nodes@, name@) == spec_last_overlay(nodes@.take(i as int), name@),
        decreases i,
    {
        assert(nodes@.take(i as int).drop_last() =~= nodes@.take(i - 1));
        if same_name(nodes[i - 1].name.as_str(), name) {
            return Some(nodes[i - 1].overlay_ip.clone());
        }
        i = i - 1;
    }
    None
}

pub fn contains_ip(s: &Vec<IpAddress>, ip: IpAddress) -> (r: bool)
    ensures
        r == s@.contains(ip),
{
    let mut i: usize = 0;
    while i < s.len()
        invariant
            i <= s@.len(),
            forall|j: int| 0 <= j < i ==> s@[j] != ip,
        decreases s@.len() - i,
    {
        if s[i] == ip {
            assert(s@[i as int] == ip);
            return true;
        }
        i = i + 1;
    }
    false
}

/// The overlay a live backend is shown with.
pub open spec fn known_overlay(configured: Seq<BackendNode>, published: Map<Seq<char>, BackendNode>, name: Seq<char>) -> Seq<char> {
    match spec_last_overlay(configured, name) {
        Some(o) => o,
        None => if published.contains_key(name) {
            published[name].overlay_ip@
        } else {
            "auto"@
        },
    }
}

pub open spec fn spec_active_nodes(
    s: Seq<(String, ActiveBackendSubscription)>,
    configured: Seq<BackendNode>,
    published: Map<Seq<char>, BackendNode>,
    gateways: Seq<IpAddress>,
) -> Seq<(Seq<char>, IpAddress, IpAddress, Seq<char>)>
    decreases s.len(),
{
    if s.len() == 0 {
        seq![]
    } else {
        let rest = spec_active_nodes(s.drop_last(), configured, published, gateways);
        let (name, sub) = s.last();
        if !is_unspecified(sub.underlay_ip) && !gateways.contains(sub.underlay_ip) {
            rest.push((name@, sub.public_ip, sub.underlay_ip, known_overlay(configured, published, name@)))
        } else {
            rest
        }
    }
}

pub proof fn lemma_keyed_has_index<E, K, V>(s: Seq<E>, key: spec_fn(E) -> K, val: spec_fn(E) -> V, k: K)
    requires
        keyed_map(s, key, val).contains_key(k),
    ensures
        exists|i: int| 0 <= i < s.len() && key(s[i]) == k,
    decreases s.len(),
{
    if s.len() > 0 && key(s.last()) != k {
        lemma_keyed_has_index(s.drop_last(), key, val, k);
        let i = choose|i: int| 0 <= i < s.drop_last().len() && key(s.drop_last()[i]) == k;
        assert(s[i] == s.drop_last()[i]);
    } else if s.len() > 0 {
        assert(key(s[s.len() - 1]) == k);
    }
}

/// The underlay addresses of the gateways, leaving out unknown ones.
pub open spec fn spec_gateway_underlays(gws: Seq<GatewayNode>) -> Seq<IpAddress>
    decreases gws.len(),
{
    if gws.len() == 0 {
        seq![]
    } else {
        let rest = spec_gateway_underlays(gws.drop_last());
        if is_unspecified(gws.last().underlay_ip) {
            rest
        } else {
            rest.push(gws.last().underlay_ip)
        }
    }
}

pub fn gateway_underlays(gws: &Vec<GatewayNode>) -> (r: Vec<IpAddress>)
    ensures
        r@ == spec_gateway_underlays(gws@),
{
    let mut out: Vec<IpAddress> = Vec::new();
    let mut i: usize = 0;
    while i < gws.len()
        invariant
            i <= gws@.len(),
            out@ == spec_gateway_underlays(gws@.take(i as int)),
        decreases gws@.len() - i,
    {
        assert(gws@.take(i + 1).drop_last() =~= gws@.take(i as int));
        let u = gws[i].underlay_ip;
        if !(u == IpAddress::V4(0) || u == IpAddress::V6(0)) {
            out.push(u);
        }
        i = i + 1;
    }
    assert(gws@.take(i as int) =~= gws@);
    out
}

pub open spec fn node_views(s: Seq<BackendNode>) -> Seq<(Seq<char>, IpAddress, IpAddress, Seq<char>)> {
    s.map_values(|n: BackendNode| node_view(n))
}

/// The inventory the live nodes give: every node that is not a gateway, in
/// order, keeping the overlay address the current inventory has for its
/// name (the last entry of that name).
pub open spec fn spec_merged(current: Seq<BackendNode>, known: Seq<BackendNode>, gw: Seq<IpAddress>) -> Seq<(Seq<char>, IpAddress, IpAddress, Seq<char>)>
    decreases known.len(),
{
    if known.len() == 0 {
        seq![]
    } else {
        let rest = spec_merged(current, known.drop_last(), gw);
        let n = known.last();
        if gw.contains(n.underlay_ip) {
            rest
        } else {
            rest.push(
                (
                    n.name@,
                    n.public_ip,
                    n.underlay_ip,
                    match spec_last_overlay(current, n.name@) {
                        Some(o) => o,
                        None => n.overlay_ip@,
                    },
                ),
            )
        }
    }
}

pub fn clone_node(n: &BackendNode) -> (r: BackendNode)
    ensures
        r == *n,
{
    BackendNode { name: n.name.clone(), public_ip: n.public_ip, underlay_ip: n.underlay_ip, overlay_ip: n.overlay_ip.clone() }
}

/// Merge the live nodes (in name order) into the current inventory.
fn merge_backend_inventory(current: &Vec<BackendNode>, known: &Vec<BackendNode>, gw: &Vec<IpAddress>) -> (r: Vec<BackendNode>)
    ensures
        node_views(r@) == spec_merged(current@, known@, gw@),
{
    let mut out: Vec<BackendNode> = Vec::new();
    let mut i: usize = 0;
    while i < known.len()
        invariant
            i <= known@.len(),
            node_views(out@) == spec_merged(current@, known@.take(i as int), gw@),
        decreases known@.len() - i,
    {
        assert(known@.take(i + 1).drop_last() =~= known@.take(i as int));
        let n = &known[i];
        if !contains_ip(gw, n.underlay_ip) {
            let overlay_ip = match last_configured_overlay(current, n.name.as_str()) {
                Some(o) => o,
                None => n.overlay_ip.clone(),
            };
            let ghost before = out@;
            let node = BackendNode { name: n.name.clone(), public_ip: n.public_ip, underlay_ip: n.underlay_ip, overlay_ip };
            out.push(node);
            assert(node_views(out@) =~= node_views(before).push(node_view(node)));
        }
        i = i + 1;
    }
    assert(known@.take(i as int) =~= known@);
    out
}

/// Whether two inventories list the same nodes, field by field, in order.
pub fn same_backend_inventory(current: &Vec<BackendNode>, desired: &Vec<BackendNode>) -> (r: bool)
    ensures
        r == (node_views(current@) == node_views(desired@)),
{
    if current.len() != desired.len() {
        assert(node_views(current@).len() != node_views(desired@).len());
        return false;
    }
    let mut i: usize = 0;
    while i < current.len()
        invariant
            i <= current@.len(),
            current@.len() == desired@.len(),
            forall|j: int| 0 <= j < i ==> node_view(current@[j]) == node_view(desired@[j]),
        decreases current@.len() - i,
    {
        let a = &current[i];
        let b = &desired[i];
        if !(same_name(a.name.as_str(), b.name.as_str()) && a.public_ip == b.public_ip && a.underlay_ip == b.underlay_ip
            && same_name(a.overlay_ip.as_str(), b.overlay_ip.as_str())) {
            assert(node_views(current@)[i as int] != node_views(desired@)[i as int]);
            return false;
        }
        i = i + 1;
    }
    assert(node_views(current@) =~= node_views(desired@));
    true
}

/// A published node stays unless it is a gateway.
pub open spec fn keep_node(n: BackendNode, gw: Seq<IpAddress>) -> bool {
    is_unspecified(n.underlay_ip) || !gw.contains(n.underlay_ip)
}

/// The published nodes that stay, in name order.
pub open spec fn spec_known(s: Seq<(String, BackendNode)>, gw: Seq<IpAddress>) -> Seq<BackendNode>
    decreases s.len(),
{
    if s.len() == 0 {
        seq![]
    } else {
        let rest = spec_known(s.drop_last(), gw);
        if keep_node(s.last().1, gw) {
            rest.push(s.last().1)
        } else {
            rest
        }
    }
}

pub open spec fn with_overlays(m: Seq<(Seq<char>, IpAddress, IpAddress, Seq<char>)>, ovs: Seq<Seq<char>>) -> Seq<(Seq<char>, IpAddress, IpAddress, Seq<char>)> {
    Seq::new(m.len(), |i: int| (m[i].0, m[i].1, m[i].2, ovs[i]))
}

/// The outcome of merging the live backends of `old_reg` into the
/// inventory `old_file`: the registry and inventory after it, and whether
/// the configured backends changed.
pub open spec fn merge_outcome(old_reg: BackendRegistry, new_reg: BackendRegistry, old_file: OverlayInventory, new_file: OverlayInventory, changed: bool) -> bool {
    &&& new_reg.wf()
    &&& new_reg.subs() == old_reg.subs()
    &&& new_file.overlay_cidr == old_file.overlay_cidr
    &&& spec_gateway_underlays(new_file.gateway_nodes@) == spec_gateway_underlays(old_file.gateway_nodes@)
    &&& ({
            let gw = spec_gateway_underlays(old_file.gateway_nodes@);
            let known = spec_known(old_reg.node_seq(), gw);
            let cidr = old_file.overlay_cidr@;
            let gws = gateway_overlays(old_file.gateway_nodes@);
            let local = old_file.gateway_overlay_ip@;
            if known.len() == 0 {
                &&& new_reg.node_seq().len() == 0
                &&& changed == (old_file.backend_nodes@.len() > 0 || known.len() < old_reg.node_seq().len())
                &&& changed ==> {
                    let a = spec_assign(cidr, gws, local, seq![]);
                    &&& new_file.backend_nodes@.len() == 0
                    &&& gateway_overlays(new_file.gateway_nodes@) == a.0
                    &&& new_file.gateway_overlay_ip@ == a.1
                }
                &&& !changed ==> new_file.backend_nodes@ == old_file.backend_nodes@ && new_file.gateway_nodes@ == old_file.gateway_nodes@
                    && new_file.gateway_overlay_ip == old_file.gateway_overlay_ip
            } else {
                let merged = spec_merged(old_file.backend_nodes@, known, gw);
                let desired = with_overlays(merged, spec_assign(cidr, gws, local, merged.map_values(|v: (Seq<char>, IpAddress, IpAddress, Seq<char>)| v.3)).2);
                &&& node_views(new_reg.node_seq().map_values(|e: (String, BackendNode)| e.1)) == desired
                &&& changed == (node_views(old_file.backend_nodes@) != desired)
                &&& changed ==> {
                    let a = spec_assign(cidr, gws, local, desired.map_values(|v: (Seq<char>, IpAddress, IpAddress, Seq<char>)| v.3));
                    &&& node_views(new_file.backend_nodes@) == with_overlays(desired, a.2)
                    &&& gateway_overlays(new_file.gateway_nodes@) == a.0
                    &&& new_file.gateway_overlay_ip@ == a.1
                }
                &&& !changed ==> new_file.backend_nodes@ == old_file.backend_nodes@ && new_file.gateway_nodes@ == old_file.gateway_nodes@
                    && new_file.gateway_overlay_ip == old_file.gateway_overlay_ip
            }
        })
}

impl BackendRegistry {
    /// Unpublish the nodes that are gateways; whether any went.
    fn retain_non_gateways(&mut self, gw: &Vec<IpAddress>) -> (pruned: bool)
        requires
            old(self).wf(),
        ensures
            final(self).wf(),
            final(self).subs() == old(self).subs(),
            final(self).sub_seq() == old(self).sub_seq(),
            final(self).node_seq().map_values(|e: (String, BackendNode)| e.1) == spec_known(old(self).node_seq(), gw@),
            forall|i: int| 0 <= i < final(self).node_seq().len() ==> (#[trigger] final(self).node_seq()[i]).0@ == final(self).node_seq()[i].1.name@,
            pruned == (spec_known(old(self).node_seq(), gw@).len() < old(self).node_seq().len()),
    {
        let ghost s = self.nodes.entries@;
        let ghost m = self.nodes@;
        proof {
            lemma_sorted_distinct(s);
        }
        let mut kept: Vec<(String, BackendNode)> = Vec::new();
        let mut i: usize = 0;
        while i < self.nodes.entries.len()
            invariant
                i <= s.len(),
                self.nodes.entries@ == s,
                self.nodes@ == m,
                names_sorted(s),
                keys_distinct(s, entry_name::<BackendNode>()),
                m == keyed_map(s, entry_name::<BackendNode>(), entry_value::<BackendNode>()),
                forall|k: Seq<char>| #[trigger] m.contains_key(k) ==> m[k].name@ == k,
                kept@.map_values(|e: (String, BackendNode)| e.1) == spec_known(s.take(i as int), gw@),
                kept@.len() <= i,
                names_sorted(kept@),
                forall|t: int, j: int| 0 <= t < kept@.len() && i <= j < s.len() ==> name_lt(#[trigger] kept@[t].0@, #[trigger] s[j].0@),
                forall|t: int| 0 <= t < kept@.len() ==> exists|j: int| 0 <= j < i && #[trigger] kept@[t] == s[j],
            decreases s.len() - i,
        {
            let e = &self.nodes.entries[i];
            assert(s.take(i + 1).drop_last() =~= s.take(i as int));
            let u = e.1.underlay_ip;
            if (u == IpAddress::V4(0) || u == IpAddress::V6(0)) || !contains_ip(gw, u) {
                let ghost before = kept@;
                let entry = (e.0.clone(), clone_node(&e.1));
                kept.push(entry);
                assert(kept@.map_values(|e: (String, BackendNode)| e.1) =~= before.map_values(|e: (String, BackendNode)| e.1).push(s[i as int].1));
                assert forall|a: int, b: int| 0 <= a < b < kept@.len() implies name_lt(#[trigger] kept@[a].0@, #[trigger] kept@[b].0@) by {
                    if b == before.len() {
                        assert(kept@[b] == s[i as int]);
                        assert(kept@[a] == before[a]);
                    } else {
                        assert(kept@[a] == before[a] && kept@[b] == before[b]);
                    }
                }
                assert forall|t: int, j: int| 0 <= t < kept@.len() && i + 1 <= j < s.len() implies name_lt(#[trigger] kept@[t].0@, #[trigger] s[j].0@) by {
                    if t == before.len() {
                        assert(kept@[t] == s[i as int]);
                    } else {
                        assert(kept@[t] == before[t]);
                    }
                }
                assert forall|t: int| 0 <= t < kept@.len() implies exists|j: int| 0 <= j < i + 1 && #[trigger] kept@[t] == s[j] by {
                    if t == before.len() {
                        assert(kept@[t] == s[i as int]);
                    } else {
                        assert(kept@[t] == before[t]);
                        let j = choose|j: int| 0 <= j < i && before[t] == s[j];
                        assert(kept@[t] == s[j]);
                    }
                }
            }
            i = i + 1;
        }
        assert(s.take(i as int) =~= s);
        let pruned = kept.len() < self.nodes.entries.len();
        assert(kept@.len() == spec_known(s, gw@).len());
        self.nodes.entries = kept;
        let ghost k2 = self.nodes.entries@;
        proof {
            lemma_sorted_distinct(k2);
            assert forall|i: int| 0 <= i < k2.len() implies (#[trigger] k2[i]).0@ == k2[i].1.name@ by {
                let j = choose|j: int| 0 <= j < s.len() && k2[i] == s[j];
                lemma_keyed_lookup(s, entry_name::<BackendNode>(), entry_value::<BackendNode>(), j);
            }
            assert forall|k: Seq<char>| #[trigger] self.nodes@.contains_key(k) implies self.subscriptions@.contains_key(k) && self.nodes@[k].name@ == k by {
                lemma_keyed_has_index(k2, entry_name::<BackendNode>(), entry_value::<BackendNode>(), k);
                let i0 = choose|i0: int| 0 <= i0 < k2.len() && entry_name::<BackendNode>()(k2[i0]) == k;
                lemma_keyed_lookup(k2, entry_name::<BackendNode>(), entry_value::<BackendNode>(), i0);
                let j = choose|j: int| 0 <= j < s.len() && k2[i0] == s[j];
                lemma_keyed_lookup(s, entry_name::<BackendNode>(), entry_value::<BackendNode>(), j);
            }
        }
        pruned
    }

    /// The published nodes, in name order.
    fn known_nodes(&self) -> (r: Vec<BackendNode>)
        ensures
            r@ == self.node_seq().map_values(|e: (String, BackendNode)| e.1),
    {
        let mut out: Vec<BackendNode> = Vec::new();
        let mut i: usize = 0;
        while i < self.nodes.entries.len()
            invariant
                i <= self.nodes.entries@.len(),
                out@ == self.nodes.entries@.take(i as int).map_values(|e: (String, BackendNode)| e.1),
            decreases self.nodes.entries@.len() - i,
        {
            out.push(clone_node(&self.nodes.entries[i].1));
            assert(self.nodes.entries@.take(i + 1).map_values(|e: (String, BackendNode)| e.1) =~= self.nodes.entries@.take(
                i as int,
            ).map_values(|e: (String, BackendNode)| e.1).push(self.nodes.entries@[i as int].1));
            i = i + 1;
        }
        assert(self.nodes.entries@.take(i as int) =~= self.nodes.entries@);
        out
    }

    /// Publish nodes that replace the published ones of the same names, in order.
    fn publish(&mut self, nodes: &Vec<BackendNode>)
        requires
            old(self).wf(),
            nodes@.len() == old(self).node_seq().len(),
            forall|i: int| 0 <= i < nodes@.len() ==> (#[trigger] nodes@[i]).name@ == old(self).node_seq()[i].0@,
        ensures
            final(self).wf(),
            final(self).subs() == old(self).subs(),
            final(self).sub_seq() == old(self).sub_seq(),
            final(self).node_seq().map_values(|e: (String, BackendNode)| e.1) == nodes@,
    {
        let ghost s = self.nodes.entries@;
        let mut i: usize = 0;
        while i < nodes.len()
            invariant
                i <= nodes@.len(),
                nodes@.len() == s.len(),
                self.wf(),
                self.subscriptions@ == old(self).subscriptions@,
                self.subscriptions.seq() == old(self).subscriptions.seq(),
                self.nodes.entries@.len() == s.len(),
                forall|j: int| 0 <= j < s.len() ==> (#[trigger] self.nodes.entries@[j]).0 == s[j].0,
                forall|j: int| 0 <= j < nodes@.len() ==> (#[trigger] nodes@[j]).name@ == s[j].0@,
                forall|j: int| 0 <= j < i ==> (#[trigger] self.nodes.entries@[j]).1 == nodes@[j],
            decreases nodes@.len() - i,
        {
            let ghost before = self.nodes@;
            let ghost bs = self.nodes.entries@;
            proof {
                lemma_sorted_distinct(bs);
                lemma_keyed_lookup(bs, entry_name::<BackendNode>(), entry_value::<BackendNode>(), i as int);
            }
            self.nodes.set_value_at(i, clone_node(&nodes[i]));
            assert forall|k: Seq<char>| #[trigger] self.nodes@.contains_key(k) implies self.subscriptions@.contains_key(k) && self.nodes@[k].name@ == k by {
                assert(before.contains_key(k) || k == s[i as int].0@);
            }
            i = i + 1;
        }
        assert(self.nodes.entries@.map_values(|e: (String, BackendNode)| e.1) =~= nodes@);
    }

    /// Merge the live backends into a gateway's inventory: gateways are
    /// unpublished, the remaining nodes replace the configured backends
    /// (keeping their overlay addresses) and get overlay addresses, and the
    /// result is published back. Whether the configured backends changed;
    /// they are only rewritten then.
    pub fn merge_into(&mut self, file: &mut OverlayInventory) -> (changed: bool)
        requires
            old(self).wf(),
            old(self).node_seq().len() + old(file).gateway_nodes@.len() + 256 <= u32::MAX,
            old(file).backend_nodes@.len() + old(file).gateway_nodes@.len() + 256 <= u32::MAX,
        ensures
            merge_outcome(*old(self), *final(self), *old(file), *final(file), changed),
    {
        let gw = gateway_underlays(&file.gateway_nodes);
        let pruned = self.retain_non_gateways(&gw);
        let known = self.known_nodes();
        if known.len() == 0 {
            if file.backend_nodes.len() > 0 || pruned {
                file.backend_nodes = Vec::new();
                assert(backend_overlays(file.backend_nodes@) =~= seq![]);
                let ghost g0 = file.gateway_nodes@;
                assign_overlay_ips(file);
                proof {
                    lemma_gateway_underlays_same(g0, file.gateway_nodes@);
                }
                return true;
            }
            return false;
        }
        let merged = merge_backend_inventory(&file.backend_nodes, &known, &gw);
        let mut desired = OverlayInventory {
            overlay_cidr: file.overlay_cidr.clone(),
            gateway_overlay_ip: file.gateway_overlay_ip.clone(),
            gateway_nodes: clone_gateways(&file.gateway_nodes),
            backend_nodes: merged,
        };
        proof {
            lemma_merged_len(old(file).backend_nodes@, known@, gw@);
            lemma_known_props(old(self).node_seq(), gw@);
            lemma_gateway_underlays_known(old(file).gateway_nodes@);
        }
        let ghost merged_v = desired.backend_nodes@;
        assign_overlay_ips(&mut desired);
        proof {
            lemma_overlays_of_views(merged_v);
            lemma_views_after_assign(merged_v, desired.backend_nodes@);
        }
        let changed = !same_backend_inventory(&file.backend_nodes, &desired.backend_nodes);
        proof {
            lemma_known_names(self.node_seq(), known@, gw@, old(file).backend_nodes@);
            assert forall|i: int| 0 <= i < desired.backend_nodes@.len() implies (#[trigger] desired.backend_nodes@[i]).name@ == self.node_seq()[i].0@ by {
                assert(node_views(merged_v)[i] == node_view(merged_v[i]));
            }
        }
        self.publish(&desired.backend_nodes);
        if changed {
            let ghost d = desired.backend_nodes@;
            file.backend_nodes = desired.backend_nodes;
            let ghost g0 = file.gateway_nodes@;
            assign_overlay_ips(file);
            proof {
                lemma_gateway_underlays_same(g0, file.gateway_nodes@);
                lemma_overlays_of_views(d);
                lemma_views_after_assign(d, file.backend_nodes@);
            }
        }
        changed
    }
}

fn clone_gateways(gws: &Vec<GatewayNode>) -> (r: Vec<GatewayNode>)
    ensures
        r@ == gws@,
{
    let mut out: Vec<GatewayNode> = Vec::new();
    let mut i: usize = 0;
    while i < gws.len()
        invariant
            i <= gws@.len(),
            out@ == gws@.take(i as int),
        decreases gws@.len() - i,
    {
        let g = &gws[i];
        out.push(GatewayNode { name: g.name.clone(), public_ip: g.public_ip, underlay_ip: g.underlay_ip, overlay_ip: g.overlay_ip.clone() });
        assert(gws@.take(i + 1) =~= gws@.take(i as int).push(gws@[i as int]));
        i = i + 1;
    }
    assert(gws@.take(i as int) =~= gws@);
    out
}

proof fn lemma_known_props(s: Seq<(String, BackendNode)>, gw: Seq<IpAddress>)
    ensures
        spec_known(s, gw).len() <= s.len(),
        forall|i: int| 0 <= i < spec_known(s, gw).len() ==> keep_node(#[trigger] spec_known(s, gw)[i], gw),
    decreases s.len(),
{
    if s.len() > 0 {
        lemma_known_props(s.drop_last(), gw);
        let r = spec_known(s.drop_last(), gw);
        assert forall|i: int| 0 <= i < spec_known(s, gw).len() implies keep_node(#[trigger] spec_known(s, gw)[i], gw) by {
            if i < r.len() {
                assert(spec_known(s, gw)[i] == r[i]);
            }
        }
    }
}

proof fn lemma_gateway_underlays_same(a: Seq<GatewayNode>, b: Seq<GatewayNode>)
    requires
        a.len() == b.len(),
        forall|i: int| 0 <= i < a.len() ==> (#[trigger] b[i]).underlay_ip == a[i].underlay_ip,
    ensures
        spec_gateway_underlays(a) == spec_gateway_underlays(b),
    decreases a.len(),
{
    if a.len() > 0 {
        assert forall|i: int| 0 <= i < a.drop_last().len() implies (#[trigger] b.drop_last()[i]).underlay_ip == a.drop_last()[i].underlay_ip by {
            assert(b.drop_last()[i] == b[i] && a.drop_last()[i] == a[i]);
        }
        lemma_gateway_underlays_same(a.drop_last(), b.drop_last());
        assert(b.last().underlay_ip == a.last().underlay_ip);
    }
}

proof fn lemma_gateway_underlays_known(gws: Seq<GatewayNode>)
    ensures
        forall|i: int| 0 <= i < spec_gateway_underlays(gws).len() ==> !is_unspecified(#[trigger] spec_gateway_underlays(gws)[i]),
    decreases gws.len(),
{
    if gws.len() > 0 {
        lemma_gateway_underlays_known(gws.drop_last());
        let r = spec_gateway_underlays(gws.drop_last());
        assert forall|i: int| 0 <= i < spec_gateway_underlays(gws).len() implies !is_unspecified(#[trigger] spec_gateway_underlays(gws)[i]) by {
            if i < r.len() {
                assert(spec_gateway_underlays(gws)[i] == r[i]);
            }
        }
    }
}

proof fn lemma_overlays_of_views(s: Seq<BackendNode>)
    ensures
        backend_overlays(s) == node_views(s).map_values(|v: (Seq<char>, IpAddress, IpAddress, Seq<char>)| v.3),
{
    assert(backend_overlays(s) =~= node_views(s).map_values(|v: (Seq<char>, IpAddress, IpAddress, Seq<char>)| v.3));
}

proof fn lemma_views_after_assign(before: Seq<BackendNode>, after: Seq<BackendNode>)
    requires
        before.len() == after.len(),
        forall|i: int| 0 <= i < before.len() ==> {
            &&& (#[trigger] after[i]).name == before[i].name
            &&& after[i].public_ip == before[i].public_ip
            &&& after[i].underlay_ip == before[i].underlay_ip
        },
    ensures
        node_views(after) == with_overlays(node_views(before), backend_overlays(after)),
{
    assert(node_views(after) =~= with_overlays(node_views(before), backend_overlays(after)));
}

proof fn lemma_merged_len(current: Seq<BackendNode>, known: Seq<BackendNode>, gw: Seq<IpAddress>)
    ensures
        spec_merged(current, known, gw).len() <= known.len(),
    decreases known.len(),
{
    if known.len() > 0 {
        lemma_merged_len(current, known.drop_last(), gw);
    }
}

/// The retained nodes are none of them gateways, so merging keeps them all,
/// with their names, in order.
proof fn lemma_known_names(s: Seq<(String, BackendNode)>, known: Seq<BackendNode>, gw: Seq<IpAddress>, current: Seq<BackendNode>)
    requires
        known == s.map_values(|e: (String, BackendNode)| e.1),
        forall|i: int| 0 <= i < s.len() ==> (#[trigger] s[i]).0@ == s[i].1.name@,
        forall|i: int| 0 <= i < known.len() ==> keep_node(#[trigger] known[i], gw),
        forall|i: int| 0 <= i < gw.len() ==> !is_unspecified(#[trigger] gw[i]),
    ensures
        spec_merged(current, known, gw).len() == known.len(),
        forall|i: int| 0 <= i < known.len() ==> (#[trigger] spec_merged(current, known, gw)[i]).0 == s[i].0@,
    decreases known.len(),
{
    if known.len() > 0 {
        let s2 = s.drop_last();
        let k2 = known.drop_last();
        assert(k2 =~= s2.map_values(|e: (String, BackendNode)| e.1));
        assert forall|i: int| 0 <= i < k2.len() implies keep_node(#[trigger] k2[i], gw) by {
            assert(k2[i] == known[i]);
        }
        lemma_known_names(s2, k2, gw, current);
        let n = known.last();
        assert(keep_node(n, gw));
        if gw.contains(n.underlay_ip) {
            let j = choose|j: int| 0 <= j < gw.len() && gw[j] == n.underlay_ip;
            assert(!is_unspecified(gw[j]));
        }
    }
}

impl BackendRegistry {
    /// The subscription of `name`.
    pub fn subscription(&self, name: &str) -> (r: Option<&ActiveBackendSubscription>)
        requires
            self.wf(),
        ensures
            r matches Some(v) ==> self.subs().contains_key(name@) && *v == self.subs()[name@],
            r is None ==> !self.subs().contains_key(name@),
    {
        self.subscriptions.get(name)
    }

    /// The published node of `name`.
    pub fn node(&self, name: &str) -> (r: Option<&BackendNode>)
        requires
            self.wf(),
        ensures
            r matches Some(v) ==> self.node_map().contains_key(name@) && *v == self.node_map()[name@],
            r is None ==> !self.node_map().contains_key(name@),
    {
        self.nodes.get(name)
    }

    pub fn subscription_count(&self) -> (r: usize)
        ensures
            r == self.sub_seq().len(),
    {
        self.subscriptions.len()
    }

    pub fn node_count(&self) -> (r: usize)
        ensures
            r == self.node_seq().len(),
    {
        self.nodes.len()
    }
}

/// Law: a published node always belongs to a live subscription of the same
/// name, so a disconnected stream cannot leave its overlay address behind.
pub proof fn published_nodes_belong_to_subscriptions(reg: &BackendRegistry)
    requires
        reg.wf(),
    ensures
        forall|k: Seq<char>| #[trigger] reg.node_map().contains_key(k) ==> reg.subs().contains_key(k) && reg.node_map()[k].name@ == k,
{
}

/// Merge the live backend subscriptions into a gateway's inventory; whether
/// the configured backends changed.
pub fn merge_active_backend_subscriptions(registry: &mut BackendRegistry, inventory: &mut OverlayInventory) -> (changed: bool)
    requires
        old(registry).wf(),
        old(registry).node_seq().len() + old(inventory).gateway_nodes@.len() + 256 <= u32::MAX,
        old(inventory).backend_nodes@.len() + old(inventory).gateway_nodes@.len() + 256 <= u32::MAX,
    ensures
        merge_outcome(*old(registry), *final(registry), *old(inventory), *final(inventory), changed),
{
    registry.merge_into(inventory)
}

proof fn lemma_known_all(s: Seq<(String, BackendNode)>, gw: Seq<IpAddress>)
    requires
        forall|i: int| 0 <= i < s.len() ==> keep_node(#[trigger] s[i].1, gw),
    ensures
        spec_known(s, gw) == s.map_values(|e: (String, BackendNode)| e.1),
    decreases s.len(),
{
    if s.len() > 0 {
        assert forall|i: int| 0 <= i < s.drop_last().len() implies keep_node(#[trigger] s.drop_last()[i].1, gw) by {
            assert(s.drop_last()[i] == s[i]);
        }
        lemma_known_all(s.drop_last(), gw);
        assert(keep_node(s[s.len() - 1].1, gw));
        assert(s.map_values(|e: (String, BackendNode)| e.1) =~= s.drop_last().map_values(|e: (String, BackendNode)| e.1).push(s.last().1));
    }
}

proof fn lemma_merged_not_gw(cur: Seq<BackendNode>, known: Seq<BackendNode>, gw: Seq<IpAddress>)
    ensures
        forall|i: int| 0 <= i < spec_merged(cur, known, gw).len() ==> !gw.contains(#[trigger] spec_merged(cur, known, gw)[i].2),
    decreases known.len(),
{
    if known.len() > 0 {
        lemma_merged_not_gw(cur, known.drop_last(), gw);
        let r = spec_merged(cur, known.drop_last(), gw);
        assert forall|i: int| 0 <= i < spec_merged(cur, known, gw).len() implies !gw.contains(#[trigger] spec_merged(cur, known, gw)[i].2) by {
            if i < r.len() {
                assert(spec_merged(cur, known, gw)[i] == r[i]);
            }
        }
    }
}

proof fn lemma_last_overlay_unique(cur: Seq<BackendNode>, i: int)
    requires
        0 <= i < cur.len(),
        forall|j: int| 0 <= j < cur.len() && j != i ==> (#[trigger] cur[j]).name@ != cur[i].name@,
    ensures
        spec_last_overlay(cur, cur[i].name@) == Some(cur[i].overlay_ip@),
    decreases cur.len(),
{
    if i < cur.len() - 1 {
        let d = cur.drop_last();
        assert(cur.last().name@ != cur[i].name@);
        assert forall|j: int| 0 <= j < d.len() && j != i implies (#[trigger] d[j]).name@ != d[i].name@ by {
            assert(d[j] == cur[j] && d[i] == cur[i]);
        }
        lemma_last_overlay_unique(d, i);
        assert(d[i] == cur[i]);
    }
}

/// Merging the published nodes into an inventory that already holds them,
/// with the same views and distinct names, gives that inventory again.
proof fn lemma_merged_same(cur: Seq<BackendNode>, known: Seq<BackendNode>, gw: Seq<IpAddress>, k: int)
    requires
        0 <= k <= known.len(),
        forall|i: int| 0 <= i < known.len() ==> !gw.contains(#[trigger] known[i].underlay_ip),
        node_views(cur) == node_views(known),
        forall|i: int, j: int| 0 <= i < known.len() && 0 <= j < known.len() && i != j ==> (#[trigger] known[i]).name@ != (#[trigger] known[j]).name@,
    ensures
        spec_merged(cur, known.take(k), gw) == node_views(known).take(k),
    decreases k,
{
    if k == 0 {
        assert(node_views(known).take(0) =~= seq![]);
    } else {
        lemma_merged_same(cur, known, gw, k - 1);
        let t = known.take(k);
        assert(t.drop_last() =~= known.take(k - 1));
        let n = known[k - 1];
        assert(t.last() == n);
        assert(node_views(cur).len() == cur.len());
        assert(node_views(known).len() == known.len());
        assert(cur.len() == known.len());
        assert forall|j: int| 0 <= j < cur.len() implies #[trigger] node_view(cur[j]) == node_view(known[j]) by {
            assert(node_views(cur)[j] == node_views(known)[j]);
        }
        assert forall|j: int| 0 <= j < cur.len() && j != k - 1 implies (#[trigger] cur[j]).name@ != cur[k - 1].name@ by {
            assert(node_view(cur[j]) == node_view(known[j]));
            assert(node_view(cur[k - 1]) == node_view(known[k - 1]));
        }
        lemma_last_overlay_unique(cur, k - 1);
        assert(node_view(cur[k - 1]) == node_view(known[k - 1]));
        assert(node_views(known).take(k) =~= node_views(known).take(k - 1).push(node_view(n)));
    }
}

impl BackendRegistry {
    /// The published nodes are named by their keys, which are distinct.
    proof fn lemma_node_names(&self)
        requires
            self.wf(),
        ensures
            forall|i: int, j: int| 0 <= i < self.node_seq().len() && 0 <= j < self.node_seq().len() && i != j
                ==> (#[trigger] self.node_seq()[i]).1.name@ != (#[trigger] self.node_seq()[j]).1.name@,
    {
        self.nodes.lemma_wf();
        let s = self.nodes.seq();
        assert forall|i: int| 0 <= i < s.len() implies (#[trigger] s[i]).1.name@ == s[i].0@ by {
            lemma_keyed_lookup(s, entry_name::<BackendNode>(), entry_value::<BackendNode>(), i);
        }
        assert forall|i: int, j: int| 0 <= i < s.len() && 0 <= j < s.len() && i != j
            implies (#[trigger] s[i]).1.name@ != (#[trigger] s[j]).1.name@ by {
            if i < j {
                assert(entry_name::<BackendNode>()(s[i]) != entry_name::<BackendNode>()(s[j]));
            } else {
                assert(entry_name::<BackendNode>()(s[j]) != entry_name::<BackendNode>()(s[i]));
            }
        }
    }
}

/// The nodes a registry publishes.
pub open spec fn published(reg: BackendRegistry) -> Seq<BackendNode> {
    reg.node_seq().map_values(|e: (String, BackendNode)| e.1)
}

/// Law: merging the live backends a second time, with the registry as the
/// first merge left it, reports no change and leaves the inventory as it
/// was, while the registry keeps publishing the same nodes with the overlay
/// addresses assigned to them.
pub proof fn merging_again_changes_nothing(
    r0: BackendRegistry,
    r1: BackendRegistry,
    r2: BackendRegistry,
    f0: OverlayInventory,
    f1: OverlayInventory,
    f2: OverlayInventory,
    c1: bool,
    c2: bool,
)
    requires
        merge_outcome(r0, r1, f0, f1, c1),
        merge_outcome(r1, r2, f1, f2, c2),
    ensures
        !c2,
        f2.backend_nodes@ == f1.backend_nodes@,
        f2.gateway_nodes@ == f1.gateway_nodes@,
        f2.gateway_overlay_ip == f1.gateway_overlay_ip,
        node_views(published(r2)) == node_views(published(r1)),
{
    let gw = spec_gateway_underlays(f0.gateway_nodes@);
    let cidr = f0.overlay_cidr@;
    let gws0 = gateway_overlays(f0.gateway_nodes@);
    let local0 = f0.gateway_overlay_ip@;
    let known0 = spec_known(r0.node_seq(), gw);
    let vals1 = published(r1);
    let known1 = spec_known(r1.node_seq(), gw);
    lemma_known_props(r1.node_seq(), gw);
    if known0.len() == 0 {
        assert(known1.len() == 0);
        assert(published(r2).len() == 0 && vals1.len() == 0);
        assert(node_views(published(r2)) =~= node_views(vals1));
    } else {
        let merged0 = spec_merged(f0.backend_nodes@, known0, gw);
        let ovs0 = merged0.map_values(|v: (Seq<char>, IpAddress, IpAddress, Seq<char>)| v.3);
        let a = spec_assign(cidr, gws0, local0, ovs0);
        crate::overlay_laws::assignment_lengths(cidr, gws0, local0, ovs0);
        crate::overlay_laws::assignment_is_stable(cidr, gws0, local0, ovs0);
        let desired1 = with_overlays(merged0, a.2);
        let ovs1 = desired1.map_values(|v: (Seq<char>, IpAddress, IpAddress, Seq<char>)| v.3);
        assert(ovs1 =~= a.2);
        assert(with_overlays(desired1, a.2) =~= desired1);
        assert(node_views(vals1) == desired1);
        assert(node_views(f1.backend_nodes@) == desired1);
        // the published nodes are kept by a second merge
        lemma_merged_not_gw(f0.backend_nodes@, known0, gw);
        assert forall|i: int| 0 <= i < r1.node_seq().len() implies keep_node(#[trigger] r1.node_seq()[i].1, gw) by {
            assert(vals1[i] == r1.node_seq()[i].1);
            assert(node_views(vals1)[i] == desired1[i]);
            assert(desired1[i].2 == merged0[i].2);
        }
        lemma_known_all(r1.node_seq(), gw);
        assert(known1 == vals1);
        if known1.len() == 0 {
            assert(f1.backend_nodes@.len() == 0) by {
                assert(node_views(f1.backend_nodes@).len() == desired1.len());
            }
            assert(node_views(published(r2)) =~= node_views(vals1));
        } else {
            r1.lemma_node_names();
            assert forall|i: int, j: int| 0 <= i < known1.len() && 0 <= j < known1.len() && i != j
                implies (#[trigger] known1[i]).name@ != (#[trigger] known1[j]).name@ by {
                assert(known1[i] == r1.node_seq()[i].1 && known1[j] == r1.node_seq()[j].1);
            }
            assert forall|i: int| 0 <= i < known1.len() implies !gw.contains(#[trigger] known1[i].underlay_ip) by {
                assert(node_views(vals1)[i] == desired1[i]);
                assert(desired1[i].2 == merged0[i].2);
            }
            lemma_merged_same(f1.backend_nodes@, known1, gw, known1.len() as int);
            assert(known1.take(known1.len() as int) =~= known1);
            assert(node_views(known1).take(known1.len() as int) =~= node_views(known1));
            let merged1 = spec_merged(f1.backend_nodes@, known1, gw);
            assert(merged1 == desired1);
            assert(merged1.map_values(|v: (Seq<char>, IpAddress, IpAddress, Seq<char>)| v.3) =~= a.2);
        }
    }
}


/// Law: the live backend inventory lists no gateway and no node without an
/// underlay address: every listed node is a subscription's, with its name,
/// public and underlay addresses, and its underlay address is specified and
/// none of the gateways'; every such subscription is listed.
pub proof fn live_backends_exclude_gateways(
    s: Seq<(String, ActiveBackendSubscription)>,
    configured: Seq<BackendNode>,
    published: Map<Seq<char>, BackendNode>,
    gateways: Seq<IpAddress>,
)
    ensures
        forall|k: int| 0 <= k < spec_active_nodes(s, configured, published, gateways).len() ==> {
            let n = #[trigger] spec_active_nodes(s, configured, published, gateways)[k];
            &&& !gateways.contains(n.2)
            &&& n.2 != IpAddress::V4(0) && n.2 != IpAddress::V6(0)
            &&& exists|i: int| 0 <= i < s.len() && s[i].0@ == n.0 && s[i].1.public_ip == n.1 && #[trigger] s[i].1.underlay_ip == n.2
        },
        forall|i: int| 0 <= i < s.len() && !is_unspecified(#[trigger] s[i].1.underlay_ip) && !gateways.contains(s[i].1.underlay_ip)
            ==> exists|k: int| 0 <= k < spec_active_nodes(s, configured, published, gateways).len()
                && #[trigger] spec_active_nodes(s, configured, published, gateways)[k].0 == s[i].0@
                && spec_active_nodes(s, configured, published, gateways)[k].2 == s[i].1.underlay_ip,
    decreases s.len(),
{
    if s.len() > 0 {
        let d = s.drop_last();
        live_backends_exclude_gateways(d, configured, published, gateways);
        let rest = spec_active_nodes(d, configured, published, gateways);
        let all = spec_active_nodes(s, configured, published, gateways);
        assert forall|k: int| 0 <= k < all.len() implies {
            let n = #[trigger] all[k];
            &&& !gateways.contains(n.2)
            &&& n.2 != IpAddress::V4(0) && n.2 != IpAddress::V6(0)
            &&& exists|i: int| 0 <= i < s.len() && s[i].0@ == n.0 && s[i].1.public_ip == n.1 && #[trigger] s[i].1.underlay_ip == n.2
        } by {
            if k < rest.len() {
                assert(all[k] == rest[k]);
                let i = choose|i: int| 0 <= i < d.len() && d[i].0@ == rest[k].0 && d[i].1.public_ip == rest[k].1 && #[trigger] d[i].1.underlay_ip == rest[k].2;
                assert(s[i] == d[i]);
            } else {
                assert(s[s.len() - 1].1.underlay_ip == all[k].2);
            }
        }
        assert forall|i: int| 0 <= i < s.len() && !is_unspecified(#[trigger] s[i].1.underlay_ip) && !gateways.contains(s[i].1.underlay_ip)
            implies exists|k: int| 0 <= k < all.len() && #[trigger] all[k].0 == s[i].0@ && all[k].2 == s[i].1.underlay_ip by {
            if i < d.len() {
                assert(s[i] == d[i]);
                let k = choose|k: int| 0 <= k < rest.len() && #[trigger] rest[k].0 == d[i].0@ && rest[k].2 == d[i].1.underlay_ip;
                assert(all[k] == rest[k]);
            } else {
                assert(all[all.len() - 1].0 == s[i].0@);
            }
        }
    }
}

} // verus!
