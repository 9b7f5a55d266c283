//! Configuration snapshots a backend receives: the digest that versions
//! them, and the combination of the snapshots of several gateways into the
//! one a backend installs.

use vstd::prelude::*;
use vstd::utf8::encode_utf8;
use crate::pb::{ConfigSnapshot, DiscoveryResponse, GatewayNode, GatewayReturnPath, Network};
use crate::registry::{name_lt, name_less, same_name, lemma_name_lt_transitive, lemma_name_lt_total, lemma_name_lt_irreflexive, lemma_name_lt_asymmetric};
use crate::signer::{hex_encode, hex_lower};
use crate::route_msg::IpAddress;
use crate::registry::{parse_ip_address, spec_parse_ip};

verus! {

/// The SHA-256 digest of some bytes.
pub uninterp spec fn sha256_of(data: Seq<u8>) -> Seq<u8>;

/// `sha2::Sha256::digest`: the 32-byte SHA-256 digest of `data`.
#[verifier::external_body]
fn sha256_digest(data: &[u8]) -> (r: Vec<u8>)
    ensures
        r@ == sha256_of(data@),
        r@.len() == 32,
{
    <sha2::Sha256 as sha2::Digest>::digest(data).to_vec()
}

/// The version of an encoded snapshot: its SHA-256 digest in lower-case hex.
pub fn snapshot_version(encoded: &[u8]) -> (r: String)
    ensures
        r@ == hex_lower(sha256_of(encoded@)),
{
    let d = sha256_digest(encoded);
    hex_encode(d.as_slice())
}

/// Where a stable sort puts an element of key `k` into sorted `s`: before
/// the first element whose key sorts after `k`.
pub open spec fn insert_pos<T>(s: Seq<T>, key: spec_fn(T) -> Seq<char>, k: Seq<char>, from: int) -> int
    decreases s.len() - from,
{
    if from < 0 || from >= s.len() {
        s.len() as int
    } else if name_lt(k, key(s[from])) {
        from
    } else {
        insert_pos(s, key, k, from + 1)
    }
}

/// The stable sort of `s` by key: equal keys keep their order.
pub open spec fn stable_sorted<T>(s: Seq<T>, key: spec_fn(T) -> Seq<char>) -> Seq<T>
    decreases s.len(),
{
    if s.len() == 0 {
        seq![]
    } else {
        let t = stable_sorted(s.drop_last(), key);
        t.insert(insert_pos(t, key, key(s.last()), 0), s.last())
    }
}

proof fn lemma_insert_pos_range<T>(s: Seq<T>, key: spec_fn(T) -> Seq<char>, k: Seq<char>, from: int)
    requires
        0 <= from <= s.len(),
    ensures
        from <= insert_pos(s, key, k, from) <= s.len(),
    decreases s.len() - from,
{
    if from < s.len() {
        lemma_insert_pos_range(s, key, k, from + 1);
    }
}

pub open spec fn snapshot_key(r: DiscoveryResponse) -> Seq<char> {
    match r.snapshot {
        Some(s) => match s.network {
            Some(n) => n.gateway_ip@,
            None => seq![],
        },
        None => seq![],
    }
}

pub open spec fn key_of_response() -> spec_fn(DiscoveryResponse) -> Seq<char> {
    |r: DiscoveryResponse| snapshot_key(r)
}

pub open spec fn key_of_text() -> spec_fn(String) -> Seq<char> {
    |s: String| s@
}

/// The gateway address a snapshot was published for (blank when none).
pub fn snapshot_gateway_key(r: &DiscoveryResponse) -> (k: String)
    ensures
        k@ == snapshot_key(*r),
{
    match &r.snapshot {
        Some(s) => match &s.network {
            Some(n) => n.gateway_ip.clone(),
            None => String::new(),
        },
        None => String::new(),
    }
}

fn sort_responses(v: Vec<DiscoveryResponse>) -> (r: Vec<DiscoveryResponse>)
    ensures
        r@ == stable_sorted(v@, key_of_response()),
{
    let ghost orig = v@;
    let mut input = v;
    let mut out: Vec<DiscoveryResponse> = Vec::new();
    let mut i: usize = 0;
    let n = input.len();
    while input.len() > 0
        invariant
            i <= orig.len(),
            orig.len() == n,
            input@ == orig.skip(i as int),
            out@ == stable_sorted(orig.take(i as int), key_of_response()),
        decreases input@.len(),
    {
        let x = input.remove(0);
        assert(x == orig[i as int]);
        assert(orig.take(i + 1).drop_last() =~= orig.take(i as int));
        assert(input@ =~= orig.skip(i + 1));
        let kx = snapshot_gateway_key(&x);
        let mut p: usize = 0;
        while p < out.len() && !name_less(kx.as_str(), snapshot_gateway_key(&out[p]).as_str())
            invariant
                p <= out@.len(),
                insert_pos(out@, key_of_response(), kx@, 0) == insert_pos(out@, key_of_response(), kx@, p as int),
            decreases out@.len() - p,
        {
            p = p + 1;
        }
        proof {
            lemma_insert_pos_range(out@, key_of_response(), kx@, p as int);
        }
        out.insert(p, x);
        i = i + 1;
    }
    assert(orig.skip(i as int).len() == 0);
    assert(orig.take(i as int) =~= orig);
    out
}

fn sort_texts(v: Vec<String>) -> (r: Vec<String>)
    ensures
        r@ == stable_sorted(v@, key_of_text()),
{
    let ghost orig = v@;
    let mut input = v;
    let mut out: Vec<String> = Vec::new();
    let mut i: usize = 0;
    let n = input.len();
    while input.len() > 0
        invariant
            i <= orig.len(),
            orig.len() == n,
            input@ == orig.skip(i as int),
            out@ == stable_sorted(orig.take(i as int), key_of_text()),
        decreases input@.len(),
    {
        let x = input.remove(0);
        assert(x == orig[i as int]);
        assert(orig.take(i + 1).drop_last() =~= orig.take(i as int));
        assert(input@ =~= orig.skip(i + 1));
        let mut p: usize = 0;
        while p < out.len() && !name_less(x.as_str(), out[p].as_str())
            invariant
                p <= out@.len(),
                insert_pos(out@, key_of_text(), x@, 0) == insert_pos(out@, key_of_text(), x@, p as int),
            decreases out@.len() - p,
        {
            p = p + 1;
        }
        proof {
            lemma_insert_pos_range(out@, key_of_text(), x@, p as int);
        }
        out.insert(p, x);
        i = i + 1;
    }
    assert(orig.skip(i as int).len() == 0);
    assert(orig.take(i as int) =~= orig);
    out
}

/// Why gateway snapshots cannot be combined.
#[derive(Clone, Copy, Debug, PartialEq, Eq, Structural)]
pub enum SnapshotError {
    /// No gateway sent a snapshot.
    NoSnapshots,
}

pub open spec fn with_snapshot(s: Seq<DiscoveryResponse>) -> Seq<DiscoveryResponse>
    decreases s.len(),
{
    if s.len() == 0 {
        seq![]
    } else if s.last().snapshot is Some {
        with_snapshot(s.drop_last()).push(s.last())
    } else {
        with_snapshot(s.drop_last())
    }
}

pub open spec fn node_key(g: GatewayNode) -> (Seq<char>, Seq<char>) {
    (g.underlay_ip@, g.name@)
}

pub open spec fn node_keys(s: Seq<GatewayNode>) -> Seq<(Seq<char>, Seq<char>)> {
    s.map_values(|g: GatewayNode| node_key(g))
}

pub open spec fn path_keys(s: Seq<GatewayReturnPath>) -> Seq<(Seq<char>, Seq<char>, u32, u32, u32)> {
    s.map_values(|p: GatewayReturnPath| path_key(p))
}

pub open spec fn node_view(g: GatewayNode) -> (Seq<char>, Seq<char>, Seq<char>) {
    (g.name@, g.underlay_ip@, g.overlay_ip@)
}

pub open spec fn path_key(p: GatewayReturnPath) -> (Seq<char>, Seq<char>, u32, u32, u32) {
    (p.gateway_underlay_ip@, p.gateway_overlay_ip@, p.dscp, p.mark, p.route_table_id)
}

pub open spec fn path_view(p: GatewayReturnPath) -> (Seq<char>, Seq<char>, Seq<char>, Seq<char>, u32, u32, u32) {
    (p.gateway@, p.gateway_underlay_ip@, p.gateway_overlay_ip@, p.backend_overlay_ip@, p.dscp, p.mark, p.route_table_id)
}

pub open spec fn nodes_of(r: DiscoveryResponse) -> Seq<GatewayNode> {
    match r.snapshot {
        Some(s) => s.gateway_nodes@,
        None => seq![],
    }
}

pub open spec fn paths_of(r: DiscoveryResponse) -> Seq<GatewayReturnPath> {
    match r.snapshot {
        Some(s) => s.gateway_return_paths@,
        None => seq![],
    }
}

pub open spec fn all_nodes(rs: Seq<DiscoveryResponse>) -> Seq<GatewayNode>
    decreases rs.len(),
{
    if rs.len() == 0 {
        seq![]
    } else {
        all_nodes(rs.drop_last()) + nodes_of(rs.last())
    }
}

pub open spec fn all_paths(rs: Seq<DiscoveryResponse>) -> Seq<GatewayReturnPath>
    decreases rs.len(),
{
    if rs.len() == 0 {
        seq![]
    } else {
        all_paths(rs.drop_last()) + paths_of(rs.last())
    }
}

/// The gateways of a list, each (underlay, name) once, first seen first.
pub open spec fn distinct_nodes(s: Seq<GatewayNode>) -> Seq<GatewayNode>
    decreases s.len(),
{
    if s.len() == 0 {
        seq![]
    } else {
        let d = distinct_nodes(s.drop_last());
        if node_keys(d).contains(node_key(s.last())) {
            d
        } else {
            d.push(s.last())
        }
    }
}

/// The return paths of a list, each (underlay, overlay, DSCP, mark, table)
/// once, first seen first.
pub open spec fn distinct_paths(s: Seq<GatewayReturnPath>) -> Seq<GatewayReturnPath>
    decreases s.len(),
{
    if s.len() == 0 {
        seq![]
    } else {
        let d = distinct_paths(s.drop_last());
        if path_keys(d).contains(path_key(s.last())) {
            d
        } else {
            d.push(s.last())
        }
    }
}

/// The UTF-8 bytes of some texts, one after the other.
pub open spec fn joined_bytes(s: Seq<String>) -> Seq<u8>
    decreases s.len(),
{
    if s.len() == 0 {
        seq![]
    } else {
        joined_bytes(s.drop_last()) + encode_utf8(s.last()@)
    }
}

pub open spec fn versions_of(rs: Seq<DiscoveryResponse>) -> Seq<String> {
    rs.map_values(|r: DiscoveryResponse| r.version)
}

fn clone_network(n: &Network) -> (r: Network)
    ensures
        r == *n,
{
    Network {
        gateway_ip: n.gateway_ip.clone(),
        overlay_cidr: n.overlay_cidr.clone(),
        gateway_vxlan_dev: n.gateway_vxlan_dev.clone(),
        vni: n.vni,
        vxlan_port: n.vxlan_port,
        vxlan_mtu: n.vxlan_mtu,
        dscp: n.dscp,
    }
}

fn clone_gateway(g: &GatewayNode) -> (r: GatewayNode)
    ensures
        r == *g,
{
    GatewayNode { name: g.name.clone(), underlay_ip: g.underlay_ip.clone(), overlay_ip: g.overlay_ip.clone() }
}

fn clone_path(p: &GatewayReturnPath) -> (r: GatewayReturnPath)
    ensures
        r == *p,
{
    GatewayReturnPath {
        gateway: p.gateway.clone(),
        gateway_underlay_ip: p.gateway_underlay_ip.clone(),
        gateway_overlay_ip: p.gateway_overlay_ip.clone(),
        backend_overlay_ip: p.backend_overlay_ip.clone(),
        dscp: p.dscp,
        mark: p.mark,
        route_table_id: p.route_table_id,
    }
}

fn has_node_key(v: &Vec<GatewayNode>, g: &GatewayNode) -> (r: bool)
    ensures
        r == node_keys(v@).contains(node_key(*g)),
{
    let mut i: usize = 0;
    while i < v.len()
        invariant
            i <= v@.len(),
            forall|j: int| 0 <= j < i ==> node_key(#[trigger] v@[j]) != node_key(*g),
        decreases v@.len() - i,
    {
        if same_name(v[i].underlay_ip.as_str(), g.underlay_ip.as_str()) && same_name(v[i].name.as_str(), g.name.as_str()) {
            assert(node_keys(v@)[i as int] == node_key(*g));
            return true;
        }
        i = i + 1;
    }
    assert forall|j: int| 0 <= j < v@.len() implies #[trigger] node_keys(v@)[j] != node_key(*g) by {
        assert(node_keys(v@)[j] == node_key(v@[j]));
    }
    false
}

fn has_path_key(v: &Vec<GatewayReturnPath>, p: &GatewayReturnPath) -> (r: bool)
    ensures
        r == path_keys(v@).contains(path_key(*p)),
{
    let mut i: usize = 0;
    while i < v.len()
        invariant
            i <= v@.len(),
            forall|j: int| 0 <= j < i ==> path_key(#[trigger] v@[j]) != path_key(*p),
        decreases v@.len() - i,
    {
        let q = &v[i];
        if same_name(q.gateway_underlay_ip.as_str(), p.gateway_underlay_ip.as_str())
            && same_name(q.gateway_overlay_ip.as_str(), p.gateway_overlay_ip.as_str()) && q.dscp == p.dscp && q.mark == p.mark
            && q.route_table_id == p.route_table_id {
            assert(path_keys(v@)[i as int] == path_key(*p));
            return true;
        }
        i = i + 1;
    }
    assert forall|j: int| 0 <= j < v@.len() implies #[trigger] path_keys(v@)[j] != path_key(*p) by {
        assert(path_keys(v@)[j] == path_key(v@[j]));
    }
    false
}

/// The snapshot a backend installs from the snapshots of several gateways:
/// the network of the gateway whose address sorts first (responses without a
/// snapshot are left out; equal addresses keep their order), every gateway
/// and every return path of all of them once, and as version the digest of
/// their versions in sorted order. `nonce` tags this sending.
pub fn combine_gateway_responses(responses: Vec<DiscoveryResponse>, nonce: String) -> (r: Result<DiscoveryResponse, SnapshotError>)
    ensures
        with_snapshot(responses@).len() == 0 ==> r == Err::<DiscoveryResponse, SnapshotError>(SnapshotError::NoSnapshots),
        with_snapshot(responses@).len() > 0 ==> (r matches Ok(resp) && ({
            let sorted = stable_sorted(with_snapshot(responses@), key_of_response());
            &&& resp.nonce@ == nonce@
            &&& resp.version@ == hex_lower(sha256_of(joined_bytes(stable_sorted(versions_of(sorted), key_of_text()))))
            &&& (resp.snapshot matches Some(s) && {
                &&& s.network == sorted[0].snapshot->Some_0.network
                &&& s.gateway_nodes@ == distinct_nodes(all_nodes(sorted))
                &&& s.gateway_return_paths@ == distinct_paths(all_paths(sorted))
            })
        })),
{
    // keep the responses that carry a snapshot
    let ghost orig = responses@;
    let mut input = responses;
    let mut kept: Vec<DiscoveryResponse> = Vec::new();
    let mut i: usize = 0;
    let n = input.len();
    while input.len() > 0
        invariant
            i <= orig.len(),
            orig.len() == n,
            input@ == orig.skip(i as int),
            kept@ == with_snapshot(orig.take(i as int)),
        decreases input@.len(),
    {
        let x = input.remove(0);
        assert(x == orig[i as int]);
        assert(orig.take(i + 1).drop_last() =~= orig.take(i as int));
        assert(input@ =~= orig.skip(i + 1));
        if x.snapshot.is_some() {
            kept.push(x);
        }
        i = i + 1;
    }
    assert(orig.skip(i as int).len() == 0);
    assert(orig.take(i as int) =~= orig);
    if kept.len() == 0 {
        return Err(SnapshotError::NoSnapshots);
    }
    let sorted = sort_responses(kept);
    proof {
        lemma_sorted_len(with_snapshot(orig), key_of_response());
        lemma_with_snapshot_all(orig);
        lemma_sorted_has_snapshots(with_snapshot(orig));
    }
    let network = match &sorted[0].snapshot {
        Some(s) => match &s.network {
            Some(nw) => Some(clone_network(nw)),
            None => None,
        },
        None => None,
    };
    let mut nodes: Vec<GatewayNode> = Vec::new();
    let mut paths: Vec<GatewayReturnPath> = Vec::new();
    let mut versions: Vec<String> = Vec::new();
    let mut k: usize = 0;
    while k < sorted.len()
        invariant
            k <= sorted@.len(),
            nodes@ == distinct_nodes(all_nodes(sorted@.take(k as int))),
            paths@ == distinct_paths(all_paths(sorted@.take(k as int))),
            versions@ == versions_of(sorted@.take(k as int)),
        decreases sorted@.len() - k,
    {
        let resp = &sorted[k];
        assert(sorted@.take(k + 1).drop_last() =~= sorted@.take(k as int));
        assert(versions_of(sorted@.take(k + 1)) =~= versions_of(sorted@.take(k as int)).push(resp.version));
        versions.push(resp.version.clone());
        match &resp.snapshot {
            None => {
                assert(all_nodes(sorted@.take(k + 1)) =~= all_nodes(sorted@.take(k as int)));
                assert(all_paths(sorted@.take(k + 1)) =~= all_paths(sorted@.take(k as int)));
            },
            Some(snap) => {
                let ghost base_nodes = all_nodes(sorted@.take(k as int));
                let mut j: usize = 0;
                while j < snap.gateway_nodes.len()
                    invariant
                        j <= snap.gateway_nodes@.len(),
                        nodes@ == distinct_nodes(base_nodes + snap.gateway_nodes@.take(j as int)),
                    decreases snap.gateway_nodes@.len() - j,
                {
                    let g = &snap.gateway_nodes[j];
                    assert((base_nodes + snap.gateway_nodes@.take(j + 1)).drop_last() =~= base_nodes + snap.gateway_nodes@.take(j as int));
                    assert((base_nodes + snap.gateway_nodes@.take(j + 1)).last() == *g);
                    if !has_node_key(&nodes, g) {
                        nodes.push(clone_gateway(g));
                    }
                    j = j + 1;
                }
                assert(snap.gateway_nodes@.take(j as int) =~= snap.gateway_nodes@);
                assert(all_nodes(sorted@.take(k + 1)) =~= base_nodes + snap.gateway_nodes@);
                let ghost base_paths = all_paths(sorted@.take(k as int));
                let mut t: usize = 0;
                while t < snap.gateway_return_paths.len()
                    invariant
                        t <= snap.gateway_return_paths@.len(),
                        paths@ == distinct_paths(base_paths + snap.gateway_return_paths@.take(t as int)),
                    decreases snap.gateway_return_paths@.len() - t,
                {
                    let p = &snap.gateway_return_paths[t];
                    assert((base_paths + snap.gateway_return_paths@.take(t + 1)).drop_last() =~= base_paths + snap.gateway_return_paths@.take(t as int));
                    assert((base_paths + snap.gateway_return_paths@.take(t + 1)).last() == *p);
                    if !has_path_key(&paths, p) {
                        paths.push(clone_path(p));
                    }
                    t = t + 1;
                }
                assert(snap.gateway_return_paths@.take(t as int) =~= snap.gateway_return_paths@);
                assert(all_paths(sorted@.take(k + 1)) =~= base_paths + snap.gateway_return_paths@);
            },
        }
        k = k + 1;
    }
    assert(sorted@.take(k as int) =~= sorted@);
    let sorted_versions = sort_texts(versions);
    let mut bytes: Vec<u8> = Vec::new();
    let mut v: usize = 0;
    while v < sorted_versions.len()
        invariant
            v <= sorted_versions@.len(),
            bytes@ == joined_bytes(sorted_versions@.take(v as int)),
        decreases sorted_versions@.len() - v,
    {
        assert(sorted_versions@.take(v + 1).drop_last() =~= sorted_versions@.take(v as int));
        let b = sorted_versions[v].as_str().as_bytes();
        let mut q: usize = 0;
        let ghost before = bytes@;
        while q < b.len()
            invariant
                q <= b@.len(),
                bytes@ == before + b@.take(q as int),
            decreases b@.len() - q,
        {
            bytes.push(b[q]);
            assert(b@.take(q + 1) =~= b@.take(q as int).push(b@[q as int]));
            q = q + 1;
        }
        assert(b@.take(q as int) =~= b@);
        v = v + 1;
    }
    assert(sorted_versions@.take(v as int) =~= sorted_versions@);
    let version = hex_encode(sha256_digest(bytes.as_slice()).as_slice());
    Ok(DiscoveryResponse {
        nonce,
        version,
        snapshot: Some(ConfigSnapshot { network, gateway_nodes: nodes, gateway_return_paths: paths }),
    })
}

proof fn lemma_sorted_len<T>(s: Seq<T>, key: spec_fn(T) -> Seq<char>)
    ensures
        stable_sorted(s, key).len() == s.len(),
    decreases s.len(),
{
    if s.len() > 0 {
        lemma_sorted_len(s.drop_last(), key);
        let t = stable_sorted(s.drop_last(), key);
        lemma_insert_pos_range(t, key, key(s.last()), 0);
    }
}

/// Every element of the stable sort is an element of the input.
proof fn lemma_sorted_members<T>(s: Seq<T>, key: spec_fn(T) -> Seq<char>)
    ensures
        forall|i: int| 0 <= i < stable_sorted(s, key).len() ==> s.contains(#[trigger] stable_sorted(s, key)[i]),
    decreases s.len(),
{
    lemma_sorted_len(s, key);
    if s.len() > 0 {
        lemma_sorted_members(s.drop_last(), key);
        let t = stable_sorted(s.drop_last(), key);
        let p = insert_pos(t, key, key(s.last()), 0);
        lemma_insert_pos_range(t, key, key(s.last()), 0);
        assert forall|i: int| 0 <= i < stable_sorted(s, key).len() implies s.contains(#[trigger] stable_sorted(s, key)[i]) by {
            let u = stable_sorted(s, key);
            assert(u == t.insert(p, s.last()));
            if i < p {
                assert(u[i] == t[i]);
                let j = choose|j: int| 0 <= j < s.drop_last().len() && s.drop_last()[j] == t[i];
                assert(s[j] == t[i]);
            } else if i == p {
                assert(u[i] == s[s.len() - 1]);
            } else {
                assert(u[i] == t[i - 1]);
                let j = choose|j: int| 0 <= j < s.drop_last().len() && s.drop_last()[j] == t[i - 1];
                assert(s[j] == t[i - 1]);
            }
        }
    }
}

proof fn lemma_with_snapshot_all(s: Seq<DiscoveryResponse>)
    ensures
        forall|i: int| 0 <= i < with_snapshot(s).len() ==> (#[trigger] with_snapshot(s)[i]).snapshot is Some,
    decreases s.len(),
{
    if s.len() > 0 {
        lemma_with_snapshot_all(s.drop_last());
    }
}

proof fn lemma_sorted_has_snapshots(s: Seq<DiscoveryResponse>)
    requires
        forall|i: int| 0 <= i < s.len() ==> (#[trigger] s[i]).snapshot is Some,
    ensures
        forall|i: int| 0 <= i < stable_sorted(s, key_of_response()).len() ==> (#[trigger] stable_sorted(s, key_of_response())[i]).snapshot is Some,
{
    lemma_sorted_members(s, key_of_response());
}

proof fn lemma_insert_pos_props<T>(t: Seq<T>, key: spec_fn(T) -> Seq<char>, k: Seq<char>, from: int)
    requires
        0 <= from <= t.len(),
    ensures
        from <= insert_pos(t, key, k, from) <= t.len(),
        forall|i: int| from <= i < insert_pos(t, key, k, from) ==> !name_lt(k, key(#[trigger] t[i])),
        insert_pos(t, key, k, from) < t.len() ==> name_lt(k, key(t[insert_pos(t, key, k, from)])),
    decreases t.len() - from,
{
    if from < t.len() {
        lemma_insert_pos_props(t, key, k, from + 1);
    }
}

/// Keys never decrease along a stable sort.
pub proof fn lemma_stable_sorted_ordered<T>(s: Seq<T>, key: spec_fn(T) -> Seq<char>)
    ensures
        forall|i: int, j: int| 0 <= i < j < stable_sorted(s, key).len() ==> !name_lt(key(#[trigger] stable_sorted(s, key)[j]), key(#[trigger] stable_sorted(s, key)[i])),
    decreases s.len(),
{
    lemma_sorted_len(s, key);
    if s.len() > 0 {
        lemma_stable_sorted_ordered(s.drop_last(), key);
        let t = stable_sorted(s.drop_last(), key);
        let k = key(s.last());
        lemma_insert_pos_props(t, key, k, 0);
        let p = insert_pos(t, key, k, 0);
        let u = stable_sorted(s, key);
        assert(u == t.insert(p, s.last()));
        assert forall|i: int, j: int| 0 <= i < j < u.len() implies !name_lt(key(#[trigger] u[j]), key(#[trigger] u[i])) by {
            if j < p {
                assert(u[i] == t[i] && u[j] == t[j]);
            } else if j == p {
                assert(u[i] == t[i]);
                assert(!name_lt(k, key(t[i])));
            } else if i < p {
                assert(u[i] == t[i] && u[j] == t[j - 1]);
                // t[i] is not after k and k is before t[p] <= t[j - 1]
                if name_lt(key(t[j - 1]), key(t[i])) {
                    assert(!name_lt(k, key(t[i])));
                    if p < t.len() {
                        assert(name_lt(k, key(t[p])));
                        if j - 1 > p {
                            assert(!name_lt(key(t[j - 1]), key(t[p])));
                        }
                        if key(t[i]) != k {
                            lemma_name_lt_total(key(t[i]), k);
                            lemma_name_lt_transitive(key(t[j - 1]), key(t[i]), k);
                            lemma_name_lt_transitive(key(t[j - 1]), k, key(t[p]));
                            if j - 1 == p {
                                lemma_name_lt_irreflexive(key(t[p]));
                            }
                        } else {
                            lemma_name_lt_transitive(key(t[j - 1]), k, key(t[p]));
                            if j - 1 == p {
                                lemma_name_lt_irreflexive(key(t[p]));
                            }
                        }
                    }
                }
            } else if i == p {
                assert(u[j] == t[j - 1]);
                if p < t.len() {
                    assert(name_lt(k, key(t[p])));
                    if name_lt(key(t[j - 1]), k) {
                        lemma_name_lt_transitive(key(t[j - 1]), k, key(t[p]));
                        if j - 1 == p {
                            lemma_name_lt_irreflexive(key(t[p]));
                        }
                    }
                }
            } else {
                assert(u[i] == t[i - 1] && u[j] == t[j - 1]);
            }
        }
    }
}

/// Every input element is kept by the stable sort.
proof fn lemma_sorted_keeps<T>(s: Seq<T>, key: spec_fn(T) -> Seq<char>)
    ensures
        forall|i: int| 0 <= i < s.len() ==> stable_sorted(s, key).contains(#[trigger] s[i]),
    decreases s.len(),
{
    if s.len() > 0 {
        lemma_sorted_keeps(s.drop_last(), key);
        let t = stable_sorted(s.drop_last(), key);
        let p = insert_pos(t, key, key(s.last()), 0);
        lemma_insert_pos_range(t, key, key(s.last()), 0);
        let u = stable_sorted(s, key);
        assert forall|i: int| 0 <= i < s.len() implies u.contains(#[trigger] s[i]) by {
            if i == s.len() - 1 {
                assert(u[p] == s[i]);
            } else {
                assert(s.drop_last()[i] == s[i]);
                let j = choose|j: int| 0 <= j < t.len() && t[j] == s[i];
                if j < p {
                    assert(u[j] == s[i]);
                } else {
                    assert(u[j + 1] == s[i]);
                }
            }
        }
    }
}

/// Law: the combined snapshot is based on the network of the gateway whose
/// address sorts first; no snapshot taken part has a smaller address, so the
/// base does not depend on the order in which the gateways answered.
pub proof fn combined_base_is_least_gateway(responses: Seq<DiscoveryResponse>)
    requires
        with_snapshot(responses).len() > 0,
    ensures
        ({
            let kept = with_snapshot(responses);
            let sorted = stable_sorted(kept, key_of_response());
            &&& sorted.len() == kept.len()
            &&& forall|i: int| 0 <= i < kept.len() ==> !name_lt(snapshot_key(#[trigger] kept[i]), snapshot_key(sorted[0]))
        }),
{
    let kept = with_snapshot(responses);
    let sorted = stable_sorted(kept, key_of_response());
    lemma_sorted_len(kept, key_of_response());
    lemma_sorted_keeps(kept, key_of_response());
    lemma_stable_sorted_ordered(kept, key_of_response());
    assert forall|i: int| 0 <= i < kept.len() implies !name_lt(snapshot_key(#[trigger] kept[i]), snapshot_key(sorted[0])) by {
        let j = choose|j: int| 0 <= j < sorted.len() && sorted[j] == kept[i];
        if j > 0 {
            assert(!name_lt(key_of_response()(sorted[j]), key_of_response()(sorted[0])));
        } else {
            lemma_name_lt_irreflexive(snapshot_key(sorted[0]));
        }
    }
}

/// A return path as a backend configures it.
#[derive(Clone, Debug, PartialEq, Eq)]
pub struct ReturnPathConfig {
    pub gateway: Option<String>,
    pub gateway_underlay_ip: IpAddress,
    pub gateway_overlay_ip: IpAddress,
    pub backend_overlay_ip: Option<String>,
    pub dscp: u32,
    pub mark: u32,
    pub route_table_id: u32,
}

/// Why a snapshot's return path cannot be configured.
#[derive(Clone, Copy, Debug, PartialEq, Eq, Structural)]
pub enum ReturnPathError {
    BadGatewayUnderlay,
    BadGatewayOverlay,
}

/// The configured return path of a snapshot's path: blank texts are absent,
/// and a path without a backend overlay address uses the local backend's.
pub fn gateway_return_path_from_proto(path: &GatewayReturnPath, local_backend_overlay: String) -> (r: Result<ReturnPathConfig, ReturnPathError>)
    ensures
        spec_parse_ip(path.gateway_underlay_ip@) is None ==> r == Err::<ReturnPathConfig, ReturnPathError>(ReturnPathError::BadGatewayUnderlay),
        spec_parse_ip(path.gateway_underlay_ip@) is Some && spec_parse_ip(path.gateway_overlay_ip@) is None
            ==> r == Err::<ReturnPathConfig, ReturnPathError>(ReturnPathError::BadGatewayOverlay),
        spec_parse_ip(path.gateway_underlay_ip@) matches Some(u) ==> (spec_parse_ip(path.gateway_overlay_ip@) matches Some(o) ==> (r matches Ok(c) && {
            &&& c.gateway_underlay_ip == u
            &&& c.gateway_overlay_ip == o
            &&& (if path.gateway@.len() == 0 { c.gateway is None } else { c.gateway matches Some(g) && g@ == path.gateway@ })
            &&& (c.backend_overlay_ip matches Some(b) && b@ == (if path.backend_overlay_ip@.len() == 0 { local_backend_overlay@ } else { path.backend_overlay_ip@ }))
            &&& c.dscp == path.dscp && c.mark == path.mark && c.route_table_id == path.route_table_id
        })),
{
    let underlay = match parse_ip_address(path.gateway_underlay_ip.as_str()) {
        Some(ip) => ip,
        None => {
            return Err(ReturnPathError::BadGatewayUnderlay);
        },
    };
    let overlay = match parse_ip_address(path.gateway_overlay_ip.as_str()) {
        Some(ip) => ip,
        None => {
            return Err(ReturnPathError::BadGatewayOverlay);
        },
    };
    let gateway = if crate::registry::text_empty(path.gateway.as_str()) {
        None
    } else {
        Some(path.gateway.clone())
    };
    let backend_overlay_ip = if crate::registry::text_empty(path.backend_overlay_ip.as_str()) {
        Some(local_backend_overlay)
    } else {
        Some(path.backend_overlay_ip.clone())
    };
    Ok(ReturnPathConfig {
        gateway,
        gateway_underlay_ip: underlay,
        gateway_overlay_ip: overlay,
        backend_overlay_ip,
        dscp: path.dscp,
        mark: path.mark,
        route_table_id: path.route_table_id,
    })
}

/// The address of an overlay value: the text before its first `/`.
pub open spec fn spec_overlay_addr(value: Seq<char>) -> Option<IpAddress> {
    if exists|k: int| crate::text::first_index_of(value, '/', k) {
        spec_parse_ip(value.take(choose|k: int| crate::text::first_index_of(value, '/', k)))
    } else {
        spec_parse_ip(value)
    }
}

pub fn overlay_addr(value: &str) -> (r: Option<IpAddress>)
    ensures
        r == spec_overlay_addr(value@),
{
    let cs = crate::text::chars_of(value);
    match crate::text::find_char(&cs, '/') {
        None => parse_ip_address(value),
        Some(k) => {
            proof {
                let c = choose|k2: int| crate::text::first_index_of(value@, '/', k2);
                assert(c == k);
            }
            let left = crate::text::slice_chars(&cs, 0, k);
            let text = crate::text::string_of(&left);
            assert(text@ == value@.take(k as int));
            parse_ip_address(text.as_str())
        },
    }
}

} // verus!
