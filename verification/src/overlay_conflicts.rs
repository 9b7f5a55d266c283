//! Host-side preflight of a backend's overlay: the overlay networks and
//! addresses it plans, the host's IPv4 interface addresses, and the
//! conflicts between them and with the main routing table.

use vstd::prelude::*;
use crate::ipnet::{Ipv4Net, split_on, words, spec_parse_net, spec_route_destination, spec_route_destination_network, spec_is_edge_lb_overlay_device};
use crate::control::NodeConflict;
use crate::registry::{name_lt, name_less, same_name, lemma_name_lt_transitive, lemma_name_lt_total, lemma_name_lt_irreflexive};
use crate::ipnet::{parsed_ipv4, ipv4_text};
use crate::probe_schedule::opt_text;

verus! {

/// An IPv4 address of a host interface, as `ip -o addr show` prints it.
#[derive(Clone, Debug, PartialEq, Eq)]
pub struct InterfaceAddr {
    pub dev: String,
    pub network: Ipv4Net,
    pub raw: String,
}

/// `s` without the colons that end it.
pub open spec fn trim_colons(s: Seq<char>) -> Seq<char>
    decreases s.len(),
{
    if s.len() > 0 && s.last() == ':' {
        trim_colons(s.drop_last())
    } else {
        s
    }
}

/// Index of the first `inet` word.
pub open spec fn first_inet(ws: Seq<Seq<char>>, from: int) -> Option<int>
    decreases ws.len() - from,
{
    if from < 0 || from >= ws.len() {
        None
    } else if ws[from] == "inet"@ {
        Some(from)
    } else {
        first_inet(ws, from + 1)
    }
}

/// The interface address a line gives: the device is the second word
/// (without trailing colons), the address the word after the first `inet`.
pub open spec fn addr_of_line(ws: Seq<Seq<char>>) -> Option<(Seq<char>, Ipv4Net, Seq<char>)> {
    if ws.len() < 2 {
        None
    } else {
        match first_inet(ws, 0) {
            None => None,
            Some(p) => if p + 1 >= ws.len() {
                None
            } else {
                match spec_parse_net(ws[p + 1]) {
                    None => None,
                    Some(n) => Some((trim_colons(ws[1]), n, ws[p + 1])),
                }
            },
        }
    }
}

pub open spec fn addrs_of_lines(lines: Seq<Seq<char>>) -> Seq<(Seq<char>, Ipv4Net, Seq<char>)>
    decreases lines.len(),
{
    if lines.len() == 0 {
        seq![]
    } else {
        let rest = addrs_of_lines(lines.drop_last());
        match addr_of_line(words(lines.last())) {
            Some(a) => rest.push(a),
            None => rest,
        }
    }
}

pub open spec fn addr_view(a: InterfaceAddr) -> (Seq<char>, Ipv4Net, Seq<char>) {
    (a.dev@, a.network, a.raw@)
}

fn trim_colon_chars(s: &Vec<char>) -> (r: Vec<char>)
    ensures
        r@ == trim_colons(s@),
{
    let mut n = s.len();
    assert(s@.take(n as int) =~= s@);
    while n > 0 && s[n - 1] == ':'
        invariant
            n <= s@.len(),
            trim_colons(s@) == trim_colons(s@.take(n as int)),
        decreases n,
    {
        assert(s@.take(n as int).drop_last() =~= s@.take(n - 1));
        n = n - 1;
    }
    crate::text::slice_chars(s.as_slice(), 0, n)
}

fn find_inet(ws: &Vec<Vec<char>>) -> (r: Option<usize>)
    ensures
        r matches Some(p) ==> first_inet(ws@.map_values(|w: Vec<char>| w@), 0) == Some(p as int) && p < ws@.len(),
        r is None ==> first_inet(ws@.map_values(|w: Vec<char>| w@), 0) is None,
{
    let ghost v = ws@.map_values(|w: Vec<char>| w@);
    let inet = crate::text::chars_of("inet");
    let mut i: usize = 0;
    while i < ws.len()
        invariant
            i <= ws@.len(),
            v == ws@.map_values(|w: Vec<char>| w@),
            inet@ == "inet"@,
            first_inet(v, 0) == first_inet(v, i as int),
        decreases ws@.len() - i,
    {
        assert(v[i as int] == ws@[i as int]@);
        if crate::text::chars_eq(&ws[i], &inet) {
            return Some(i);
        }
        i = i + 1;
    }
    None
}

/// The IPv4 interface addresses in `ip -o addr show` output; lines without
/// a device, an `inet` word or a parsable address after it are skipped.
pub fn parse_ip_addr_show(output: &str) -> (r: Vec<InterfaceAddr>)
    ensures
        r@.map_values(|a: InterfaceAddr| addr_view(a)) == addrs_of_lines(split_on(output@, '\n')),
        forall|i: int| 0 <= i < r@.len() ==> (#[trigger] r@[i]).network.prefix <= 32,
{
    let cs = crate::text::chars_of(output);
    let lines = crate::ipnet::split_chars(&cs, '\n');
    let ghost lv = split_on(output@, '\n');
    let mut out: Vec<InterfaceAddr> = Vec::new();
    let mut i: usize = 0;
    while i < lines.len()
        invariant
            i <= lines@.len(),
            lines@.len() == lv.len(),
            forall|j: int| 0 <= j < lines@.len() ==> (#[trigger] lines@[j])@ == lv[j],
            out@.map_values(|a: InterfaceAddr| addr_view(a)) == addrs_of_lines(lv.take(i as int)),
            forall|j: int| 0 <= j < out@.len() ==> (#[trigger] out@[j]).network.prefix <= 32,
        decreases lines@.len() - i,
    {
        assert(lv.take(i + 1).drop_last() =~= lv.take(i as int));
        assert(lv.take(i + 1).last() == lines@[i as int]@);
        let ws = crate::ipnet::split_words(&lines[i]);
        let ghost wv = ws@.map_values(|w: Vec<char>| w@);
        assert(wv =~= words(lines@[i as int]@));
        if ws.len() >= 2 {
            match find_inet(&ws) {
                None => {},
                Some(p) => {
                    if p + 1 < ws.len() {
                        assert(wv[p + 1] == ws@[p + 1]@);
                        match Ipv4Net::parse_chars(&ws[p + 1]) {
                            None => {},
                            Some(network) => {
                                let dev = trim_colon_chars(&ws[1]);
                                assert(wv[1] == ws@[1]@);
                                let a = InterfaceAddr {
                                    dev: crate::text::string_of(&dev),
                                    network,
                                    raw: crate::text::string_of(&ws[p + 1]),
                                };
                                let ghost before = out@;
                                out.push(a);
                                assert(out@.map_values(|a: InterfaceAddr| addr_view(a)) =~= before.map_values(|a: InterfaceAddr| addr_view(a)).push(addr_view(a)));
                            },
                        }
                    }
                },
            }
        }
        i = i + 1;
    }
    assert(lv.take(i as int) =~= lv);
    out
}

/// Texts strictly in name order.
pub open spec fn names_increasing(s: Seq<Seq<char>>) -> bool {
    forall|a: int, b: int| 0 <= a < b < s.len() ==> name_lt(#[trigger] s[a], #[trigger] s[b])
}

proof fn lemma_names_sorted_unique(a: Seq<Seq<char>>, b: Seq<Seq<char>>)
    requires
        names_increasing(a),
        names_increasing(b),
        forall|k: Seq<char>| a.contains(k) <==> b.contains(k),
    ensures
        a == b,
    decreases a.len(),
{
    if a.len() == 0 {
        if b.len() > 0 {
            assert(b.contains(b[0]));
        }
        assert(a =~= b);
    } else if b.len() == 0 {
        assert(a.contains(a[0]));
    } else {
        assert(a.contains(a[0]));
        assert(b.contains(b[0]));
        let ia = choose|i: int| 0 <= i < a.len() && a[i] == b[0];
        let ib = choose|i: int| 0 <= i < b.len() && b[i] == a[0];
        if a[0] != b[0] {
            assert(ia > 0 && ib > 0);
            assert(name_lt(a[0], a[ia]));
            assert(name_lt(b[0], b[ib]));
            lemma_name_lt_transitive(a[0], b[0], a[0]);
            lemma_name_lt_irreflexive(a[0]);
        }
        let a2 = a.drop_first();
        let b2 = b.drop_first();
        assert forall|k: Seq<char>| a2.contains(k) <==> b2.contains(k) by {
            if a2.contains(k) {
                let i = choose|i: int| 0 <= i < a2.len() && a2[i] == k;
                assert(a[i + 1] == k);
                assert(name_lt(a[0], a[i + 1]));
                lemma_name_lt_irreflexive(k);
                assert(b.contains(k));
                let j = choose|j: int| 0 <= j < b.len() && b[j] == k;
                assert(j != 0);
                assert(b2[j - 1] == k);
            }
            if b2.contains(k) {
                let j = choose|j: int| 0 <= j < b2.len() && b2[j] == k;
                assert(b[j + 1] == k);
                assert(name_lt(b[0], b[j + 1]));
                lemma_name_lt_irreflexive(k);
                assert(a.contains(k));
                let i = choose|i: int| 0 <= i < a.len() && a[i] == k;
                assert(i != 0);
                assert(a2[i - 1] == k);
            }
        }
        lemma_names_sorted_unique(a2, b2);
        assert(a =~= seq![a[0]] + a2);
        assert(b =~= seq![b[0]] + b2);
    }
}

/// The texts of `s` in name order, each once.
pub open spec fn sorted_distinct(s: Seq<Seq<char>>) -> Seq<Seq<char>> {
    choose|t: Seq<Seq<char>>| names_increasing(t) && forall|k: Seq<char>| t.contains(k) <==> s.contains(k)
}

pub open spec fn texts(s: Seq<String>) -> Seq<Seq<char>> {
    s.map_values(|x: String| x@)
}

fn insert_text(v: &mut Vec<String>, x: String)
    requires
        names_increasing(texts(old(v)@)),
    ensures
        names_increasing(texts(final(v)@)),
        forall|k: Seq<char>| texts(final(v)@).contains(k) <==> texts(old(v)@).contains(k) || k == x@,
{
    let ghost s = texts(v@);
    let mut p: usize = 0;
    while p < v.len() && name_less(v[p].as_str(), x.as_str())
        invariant
            p <= v@.len(),
            texts(v@) == s,
            v@ == old(v)@,
            forall|j: int| 0 <= j < p ==> name_lt(#[trigger] s[j], x@),
        decreases v@.len() - p,
    {
        assert(s[p as int] == v@[p as int]@);
        p = p + 1;
    }
    if p < v.len() && same_name(v[p].as_str(), x.as_str()) {
        assert(s[p as int] == x@);
        return;
    }
    proof {
        if p < v@.len() {
            assert(s[p as int] == v@[p as int]@);
            assert(!name_lt(s[p as int], x@) && s[p as int] != x@);
            lemma_name_lt_total(s[p as int], x@);
        }
    }
    let ghost x_view = x@;
    v.insert(p, x);
    let ghost t = texts(v@);
    assert(t =~= s.insert(p as int, x_view));
    assert forall|a: int, b: int| 0 <= a < b < t.len() implies name_lt(#[trigger] t[a], #[trigger] t[b]) by {
        if b < p {
            assert(t[a] == s[a] && t[b] == s[b]);
        } else if b == p {
            assert(t[a] == s[a]);
        } else if a < p {
            assert(t[a] == s[a] && t[b] == s[b - 1]);
            lemma_name_lt_transitive(s[a], x_view, s[p as int]);
            if b - 1 > p {
                lemma_name_lt_transitive(s[a], s[p as int], s[b - 1]);
            }
        } else if a == p {
            assert(t[b] == s[b - 1]);
            if b - 1 > p {
                lemma_name_lt_transitive(x_view, s[p as int], s[b - 1]);
            }
        } else {
            assert(t[a] == s[a - 1] && t[b] == s[b - 1]);
        }
    }
    assert forall|k: Seq<char>| t.contains(k) <==> s.contains(k) || k == x_view by {
        if t.contains(k) {
            let i = choose|i: int| 0 <= i < t.len() && t[i] == k;
            if i < p {
                assert(s[i] == k);
            } else if i > p {
                assert(s[i - 1] == k);
            }
        }
        if s.contains(k) {
            let i = choose|i: int| 0 <= i < s.len() && s[i] == k;
            if i < p {
                assert(t[i] == k);
            } else {
                assert(t[i + 1] == k);
            }
        }
        if k == x_view {
            assert(t[p as int] == k);
        }
    }
}

/// The overlay addresses a backend plans: its own, then those of its return
/// paths, in name order, each once.
pub fn planned_overlay_addrs(local_overlay: Option<String>, return_path_overlays: &Vec<Option<String>>) -> (r: Vec<String>)
    ensures
        texts(r@) == sorted_distinct(planned_texts(
            match local_overlay {
                Some(o) => Some(o@),
                None => None,
            },
            return_path_overlays@,
        )),
{
    let ghost all = planned_texts(
        opt_text(local_overlay),
        return_path_overlays@,
    );
    let mut out: Vec<String> = Vec::new();
    let ghost mut seen: Seq<Seq<char>> = seq![];
    if let Some(o) = local_overlay {
        proof {
            lemma_push_contains(seen, o@);
            seen = seen.push(o@);
        }
        let ghost ov = o@;
        insert_text(&mut out, o);
        assert(forall|k: Seq<char>| texts(out@).contains(k) <==> k == ov);
        assert(forall|k: Seq<char>| seen.contains(k) <==> k == ov);
    } else {
        assert(texts(out@) =~= seq![]);
    }
    let mut i: usize = 0;
    while i < return_path_overlays.len()
        invariant
            i <= return_path_overlays@.len(),
            names_increasing(texts(out@)),
            all == planned_texts(
                opt_text(local_overlay),
                return_path_overlays@,
            ),
            seen == planned_texts(
                opt_text(local_overlay),
                return_path_overlays@.take(i as int),
            ),
            forall|k: Seq<char>| texts(out@).contains(k) <==> seen.contains(k),
        decreases return_path_overlays@.len() - i,
    {
        assert(return_path_overlays@.take(i + 1).drop_last() =~= return_path_overlays@.take(i as int));
        match &return_path_overlays[i] {
            Some(a) => {
                proof {
                    lemma_push_contains(seen, a@);
                    seen = seen.push(a@);
                }
                insert_text(&mut out, a.clone());
            },
            None => {},
        }
        i = i + 1;
    }
    assert(return_path_overlays@.take(i as int) =~= return_path_overlays@);
    proof {
        let c = sorted_distinct(all);
        assert(names_increasing(texts(out@)) && forall|k: Seq<char>| texts(out@).contains(k) <==> all.contains(k));
        lemma_names_sorted_unique(texts(out@), c);
    }
    out
}

pub proof fn lemma_push_contains<T>(s: Seq<T>, x: T)
    ensures
        forall|k: T| #[trigger] s.push(x).contains(k) <==> s.contains(k) || k == x,
{
    assert forall|k: T| s.push(x).contains(k) <==> s.contains(k) || k == x by {
        if s.push(x).contains(k) {
            let i = choose|i: int| 0 <= i < s.push(x).len() && s.push(x)[i] == k;
            if i < s.len() {
                assert(s[i] == k);
            }
        }
        if s.contains(k) {
            let i = choose|i: int| 0 <= i < s.len() && s[i] == k;
            assert(s.push(x)[i] == k);
        }
        if k == x {
            assert(s.push(x)[s.len() as int] == k);
        }
    }
}

/// The local overlay address (if any) followed by the return-path ones present.
pub open spec fn planned_texts(local: Option<Seq<char>>, paths: Seq<Option<String>>) -> Seq<Seq<char>>
    decreases paths.len(),
{
    if paths.len() == 0 {
        match local {
            Some(o) => seq![o],
            None => seq![],
        }
    } else {
        let rest = planned_texts(local, paths.drop_last());
        match paths.last() {
            Some(a) => rest.push(a@),
            None => rest,
        }
    }
}

/// Order of networks: by address, then prefix length.
pub open spec fn net_key(n: Ipv4Net) -> int {
    n.network * 256 + n.prefix
}

pub open spec fn nets_increasing(s: Seq<Ipv4Net>) -> bool {
    forall|a: int, b: int| 0 <= a < b < s.len() ==> net_key(#[trigger] s[a]) < net_key(#[trigger] s[b])
}

proof fn lemma_nets_unique(a: Seq<Ipv4Net>, b: Seq<Ipv4Net>)
    requires
        nets_increasing(a),
        nets_increasing(b),
        forall|k: Ipv4Net| a.contains(k) <==> b.contains(k),
    ensures
        a == b,
    decreases a.len(),
{
    if a.len() == 0 {
        if b.len() > 0 {
            assert(b.contains(b[0]));
        }
        assert(a =~= b);
    } else if b.len() == 0 {
        assert(a.contains(a[0]));
    } else {
        assert(a.contains(a[0]));
        assert(b.contains(b[0]));
        let ia = choose|i: int| 0 <= i < a.len() && a[i] == b[0];
        let ib = choose|i: int| 0 <= i < b.len() && b[i] == a[0];
        assert(net_key(a[0]) <= net_key(a[ia]));
        assert(net_key(b[0]) <= net_key(b[ib]));
        assert(a[0] == b[0]);
        let a2 = a.drop_first();
        let b2 = b.drop_first();
        assert forall|k: Ipv4Net| a2.contains(k) <==> b2.contains(k) by {
            if a2.contains(k) {
                let i = choose|i: int| 0 <= i < a2.len() && a2[i] == k;
                assert(a[i + 1] == k);
                assert(b.contains(k));
                let j = choose|j: int| 0 <= j < b.len() && b[j] == k;
                assert(j != 0);
                assert(b2[j - 1] == k);
            }
            if b2.contains(k) {
                let j = choose|j: int| 0 <= j < b2.len() && b2[j] == k;
                assert(b[j + 1] == k);
                assert(a.contains(k));
                let i = choose|i: int| 0 <= i < a.len() && a[i] == k;
                assert(i != 0);
                assert(a2[i - 1] == k);
            }
        }
        lemma_nets_unique(a2, b2);
        assert(a =~= seq![a[0]] + a2);
        assert(b =~= seq![b[0]] + b2);
    }
}

/// The networks of a list in order, each once.
pub open spec fn sorted_nets(s: Seq<Ipv4Net>) -> Seq<Ipv4Net> {
    choose|t: Seq<Ipv4Net>| nets_increasing(t) && forall|k: Ipv4Net| t.contains(k) <==> s.contains(k)
}

fn insert_net(v: &mut Vec<Ipv4Net>, x: Ipv4Net)
    requires
        nets_increasing(old(v)@),
    ensures
        nets_increasing(final(v)@),
        forall|k: Ipv4Net| #[trigger] final(v)@.contains(k) <==> old(v)@.contains(k) || k == x,
{
    let ghost s = v@;
    let mut p: usize = 0;
    while p < v.len() && (v[p].network < x.network || (v[p].network == x.network && v[p].prefix < x.prefix))
        invariant
            p <= v@.len(),
            v@ == s,
            s == old(v)@,
            forall|j: int| 0 <= j < p ==> net_key(#[trigger] s[j]) < net_key(x),
        decreases v@.len() - p,
    {
        p = p + 1;
    }
    if p < v.len() && v[p].network == x.network && v[p].prefix == x.prefix {
        assert(s[p as int] == x);
        return;
    }
    v.insert(p, x);
    let ghost t = v@;
    assert forall|a: int, b: int| 0 <= a < b < t.len() implies net_key(#[trigger] t[a]) < net_key(#[trigger] t[b]) by {
        if b < p {
            assert(t[a] == s[a] && t[b] == s[b]);
        } else if b == p {
            assert(t[a] == s[a]);
        } else if a < p {
            assert(t[a] == s[a] && t[b] == s[b - 1]);
        } else if a == p {
            assert(t[b] == s[b - 1]);
            assert(net_key(s[p as int]) > net_key(x));
        } else {
            assert(t[a] == s[a - 1] && t[b] == s[b - 1]);
        }
    }
    assert forall|k: Ipv4Net| #[trigger] t.contains(k) <==> s.contains(k) || k == x by {
        if t.contains(k) {
            let i = choose|i: int| 0 <= i < t.len() && t[i] == k;
            if i < p {
                assert(s[i] == k);
            } else if i > p {
                assert(s[i - 1] == k);
            }
        }
        if s.contains(k) {
            let i = choose|i: int| 0 <= i < s.len() && s[i] == k;
            if i < p {
                assert(t[i] == k);
            } else {
                assert(t[i + 1] == k);
            }
        }
        if k == x {
            assert(t[p as int] == k);
        }
    }
}

/// The networks the overlay network and the planned addresses parse to.
pub open spec fn planned_net_list(cidr: Seq<char>, addrs: Seq<Seq<char>>) -> Seq<Ipv4Net>
    decreases addrs.len(),
{
    if addrs.len() == 0 {
        match spec_parse_net(cidr) {
            Some(n) => seq![n],
            None => seq![],
        }
    } else {
        let rest = planned_net_list(cidr, addrs.drop_last());
        match spec_parse_net(addrs.last()) {
            Some(n) => rest.push(n),
            None => rest,
        }
    }
}

/// The planned overlay networks, in order, each once.
pub fn planned_overlay_networks(overlay_cidr: &str, addrs: &Vec<String>) -> (r: Vec<Ipv4Net>)
    ensures
        r@ == sorted_nets(planned_net_list(overlay_cidr@, texts(addrs@))),
        forall|i: int| 0 <= i < r@.len() ==> (#[trigger] r@[i]).prefix <= 32,
{
    let ghost all = planned_net_list(overlay_cidr@, texts(addrs@));
    let mut out: Vec<Ipv4Net> = Vec::new();
    let ghost mut seen: Seq<Ipv4Net> = seq![];
    match Ipv4Net::parse(overlay_cidr) {
        Some(n) => {
            proof {
                lemma_push_contains(seen, n);
                seen = seen.push(n);
            }
            insert_net(&mut out, n);
        },
        None => {},
    }
    let mut i: usize = 0;
    while i < addrs.len()
        invariant
            i <= addrs@.len(),
            nets_increasing(out@),
            all == planned_net_list(overlay_cidr@, texts(addrs@)),
            seen == planned_net_list(overlay_cidr@, texts(addrs@).take(i as int)),
            forall|k: Ipv4Net| out@.contains(k) <==> seen.contains(k),
            forall|k: Ipv4Net| #[trigger] out@.contains(k) ==> k.prefix <= 32,
        decreases addrs@.len() - i,
    {
        assert(texts(addrs@).take(i + 1).drop_last() =~= texts(addrs@).take(i as int));
        assert(texts(addrs@).take(i + 1).last() == addrs@[i as int]@);
        match Ipv4Net::parse(addrs[i].as_str()) {
            Some(n) => {
                proof {
                    lemma_push_contains(seen, n);
                    seen = seen.push(n);
                }
                insert_net(&mut out, n);
            },
            None => {},
        }
        i = i + 1;
    }
    assert(texts(addrs@).take(i as int) =~= texts(addrs@));
    proof {
        let c = sorted_nets(all);
        assert(nets_increasing(out@) && forall|k: Ipv4Net| out@.contains(k) <==> all.contains(k));
        lemma_nets_unique(out@, c);
        assert forall|i: int| 0 <= i < out@.len() implies (#[trigger] out@[i]).prefix <= 32 by {
            assert(out@.contains(out@[i]));
        }
    }
    out
}

/// The text before the first `/` (all of it when there is none).
pub open spec fn before_slash(s: Seq<char>) -> Seq<char> {
    if exists|k: int| crate::text::first_index_of(s, '/', k) {
        s.take(choose|k: int| crate::text::first_index_of(s, '/', k))
    } else {
        s
    }
}

pub(crate) fn before_slash_text(s: &str) -> (r: String)
    ensures
        r@ == before_slash(s@),
{
    let cs = crate::text::chars_of(s);
    match crate::text::find_char(&cs, '/') {
        None => crate::text::string_of(&cs),
        Some(k) => {
            proof {
                let c = choose|k2: int| crate::text::first_index_of(s@, '/', k2);
                assert(c == k);
            }
            let left = crate::text::slice_chars(&cs, 0, k);
            crate::text::string_of(&left)
        },
    }
}

/// The planned overlay IPs: each planned address without its prefix length.
pub fn planned_overlay_ips(addrs: &Vec<String>) -> (r: Vec<String>)
    ensures
        texts(r@) == texts(addrs@).map_values(|a: Seq<char>| before_slash(a)),
{
    let mut out: Vec<String> = Vec::new();
    let mut i: usize = 0;
    while i < addrs.len()
        invariant
            i <= addrs@.len(),
            texts(out@) == texts(addrs@.take(i as int)).map_values(|a: Seq<char>| before_slash(a)),
        decreases addrs@.len() - i,
    {
        let ghost before = out@;
        out.push(before_slash_text(addrs[i].as_str()));
        assert(texts(out@) =~= texts(before).push(before_slash(addrs@[i as int]@)));
        assert(texts(addrs@.take(i + 1)).map_values(|a: Seq<char>| before_slash(a)) =~= texts(addrs@.take(i as int)).map_values(
            |a: Seq<char>| before_slash(a),
        ).push(before_slash(addrs@[i as int]@)));
        i = i + 1;
    }
    assert(addrs@.take(i as int) =~= addrs@);
    out
}

pub open spec fn conflict_view(c: NodeConflict) -> (Seq<char>, Seq<char>, Seq<char>, Seq<char>) {
    (c.severity@, c.kind@, c.subject@, c.detail@)
}

pub open spec fn conflict_views(s: Seq<NodeConflict>) -> Seq<(Seq<char>, Seq<char>, Seq<char>, Seq<char>)> {
    s.map_values(|c: NodeConflict| conflict_view(c))
}

pub open spec fn warning_view(kind: Seq<char>, subject: Seq<char>, detail: Seq<char>) -> (Seq<char>, Seq<char>, Seq<char>, Seq<char>) {
    ("warning"@, kind, subject, detail)
}

/// The planned networks one interface address overlaps.
pub open spec fn iface_net_conflicts(a: InterfaceAddr, planned: Seq<Ipv4Net>) -> Seq<(Seq<char>, Seq<char>, Seq<char>, Seq<char>)>
    decreases planned.len(),
{
    if planned.len() == 0 {
        seq![]
    } else {
        let rest = iface_net_conflicts(a, planned.drop_last());
        if a.network.spec_overlaps(planned.last()) {
            rest.push(warning_view("overlay_cidr"@, a.raw@,
                "planned overlay network overlaps interface "@ + a.dev@ + " address "@ + a.raw@))
        } else {
            rest
        }
    }
}

/// Interface addresses (other than on the VXLAN device) that overlap a planned network.
pub open spec fn cidr_conflicts(ifaces: Seq<InterfaceAddr>, planned: Seq<Ipv4Net>, vxlan_dev: Seq<char>) -> Seq<(Seq<char>, Seq<char>, Seq<char>, Seq<char>)>
    decreases ifaces.len(),
{
    if ifaces.len() == 0 {
        seq![]
    } else {
        let rest = cidr_conflicts(ifaces.drop_last(), planned, vxlan_dev);
        if ifaces.last().dev@ == vxlan_dev {
            rest
        } else {
            rest + iface_net_conflicts(ifaces.last(), planned)
        }
    }
}

/// The interfaces (other than the VXLAN device) whose network holds a planned IP.
pub open spec fn ip_iface_conflicts(addr: Seq<char>, ip: u32, ifaces: Seq<InterfaceAddr>, vxlan_dev: Seq<char>) -> Seq<(Seq<char>, Seq<char>, Seq<char>, Seq<char>)>
    decreases ifaces.len(),
{
    if ifaces.len() == 0 {
        seq![]
    } else {
        let rest = ip_iface_conflicts(addr, ip, ifaces.drop_last(), vxlan_dev);
        let a = ifaces.last();
        if a.dev@ != vxlan_dev && a.network.spec_contains_ip(ip) {
            rest.push(warning_view("overlay_ip"@, addr,
                "planned overlay IP belongs to interface "@ + a.dev@ + " address "@ + a.raw@))
        } else {
            rest
        }
    }
}

pub open spec fn ip_conflicts(ips: Seq<Seq<char>>, ifaces: Seq<InterfaceAddr>, vxlan_dev: Seq<char>) -> Seq<(Seq<char>, Seq<char>, Seq<char>, Seq<char>)>
    decreases ips.len(),
{
    if ips.len() == 0 {
        seq![]
    } else {
        let rest = ip_conflicts(ips.drop_last(), ifaces, vxlan_dev);
        match parsed_ipv4(ips.last()) {
            Some(ip) => rest + ip_iface_conflicts(ips.last(), ip, ifaces, vxlan_dev),
            None => rest,
        }
    }
}

fn text3(a: &str, b: &str, c: &str, d: &str) -> (r: String)
    ensures
        r@ == a@ + b@ + c@ + d@,
{
    let mut out = crate::text::chars_of(a);
    crate::text::extend_chars(&mut out, &crate::text::chars_of(b));
    crate::text::extend_chars(&mut out, &crate::text::chars_of(c));
    crate::text::extend_chars(&mut out, &crate::text::chars_of(d));
    crate::text::string_of(&out)
}

/// Conflicts of the planned overlay with the host's interface addresses:
/// overlapping networks first, then planned IPs that an interface holds;
/// addresses on the VXLAN device itself are edge-lb's own. With no planned
/// network there is nothing to check.
pub fn overlay_address_conflicts(vxlan_dev: &str, planned: &Vec<Ipv4Net>, planned_ips: &Vec<String>, existing: &Vec<InterfaceAddr>) -> (r: Vec<NodeConflict>)
    requires
        forall|i: int| 0 <= i < planned@.len() ==> (#[trigger] planned@[i]).prefix <= 32,
        forall|i: int| 0 <= i < existing@.len() ==> (#[trigger] existing@[i]).network.prefix <= 32,
    ensures
        planned@.len() == 0 ==> r@.len() == 0,
        planned@.len() > 0 ==> conflict_views(r@) == cidr_conflicts(existing@, planned@, vxlan_dev@) + ip_conflicts(texts(planned_ips@), existing@, vxlan_dev@),
{
    let mut out: Vec<NodeConflict> = Vec::new();
    if planned.len() == 0 {
        return out;
    }
    let mut i: usize = 0;
    proof {
        reveal_strlit("warning");
    }
    while i < existing.len()
        invariant
            i <= existing@.len(),
            conflict_views(out@) == cidr_conflicts(existing@.take(i as int), planned@, vxlan_dev@),
            forall|i: int| 0 <= i < planned@.len() ==> (#[trigger] planned@[i]).prefix <= 32,
            forall|i: int| 0 <= i < existing@.len() ==> (#[trigger] existing@[i]).network.prefix <= 32,
        decreases existing@.len() - i,
    {
        let a = &existing[i];
        assert(existing@.take(i + 1).drop_last() =~= existing@.take(i as int));
        if !same_name(a.dev.as_str(), vxlan_dev) {
            let ghost base = conflict_views(out@);
            let mut j: usize = 0;
            while j < planned.len()
                invariant
                    j <= planned@.len(),
                    *a == existing@[i as int],
                    conflict_views(out@) == base + iface_net_conflicts(*a, planned@.take(j as int)),
                    forall|i: int| 0 <= i < planned@.len() ==> (#[trigger] planned@[i]).prefix <= 32,
                    a.network.prefix <= 32,
                decreases planned@.len() - j,
            {
                assert(planned@.take(j + 1).drop_last() =~= planned@.take(j as int));
                if a.network.overlaps(&planned[j]) {
                    let ghost prev = out@;
                    let detail = text3("planned overlay network overlaps interface ", a.dev.as_str(), " address ", a.raw.as_str());
                    let c = NodeConflict::warning("overlay_cidr".to_string(), a.raw.clone(), detail);
                    out.push(c);
                    proof {
                        reveal_strlit("warning");
                    }
                    assert(conflict_views(out@) =~= conflict_views(prev).push(conflict_view(c)));
                }
                j = j + 1;
            }
            assert(planned@.take(j as int) =~= planned@);
        }
        i = i + 1;
    }
    assert(existing@.take(i as int) =~= existing@);
    let ghost part1 = conflict_views(out@);
    let mut k: usize = 0;
    while k < planned_ips.len()
        invariant
            k <= planned_ips@.len(),
            conflict_views(out@) == part1 + ip_conflicts(texts(planned_ips@.take(k as int)), existing@, vxlan_dev@),
            forall|i: int| 0 <= i < existing@.len() ==> (#[trigger] existing@[i]).network.prefix <= 32,
        decreases planned_ips@.len() - k,
    {
        let addr = &planned_ips[k];
        assert(texts(planned_ips@.take(k + 1)).drop_last() =~= texts(planned_ips@.take(k as int)));
        assert(texts(planned_ips@.take(k + 1)).last() == addr@);
        match crate::ipnet::parse_ipv4(addr.as_str()) {
            None => {},
            Some(ip) => {
                let ghost base = conflict_views(out@);
                let mut t: usize = 0;
                while t < existing.len()
                    invariant
                        t <= existing@.len(),
                        conflict_views(out@) == base + ip_iface_conflicts(addr@, ip, existing@.take(t as int), vxlan_dev@),
                        forall|i: int| 0 <= i < existing@.len() ==> (#[trigger] existing@[i]).network.prefix <= 32,
                    decreases existing@.len() - t,
                {
                    let a = &existing[t];
                    assert(existing@.take(t + 1).drop_last() =~= existing@.take(t as int));
                    if !same_name(a.dev.as_str(), vxlan_dev) && a.network.contains_ip(ip) {
                        let ghost prev = out@;
                        let detail = text3("planned overlay IP belongs to interface ", a.dev.as_str(), " address ", a.raw.as_str());
                        let c = NodeConflict::warning("overlay_ip".to_string(), addr.clone(), detail);
                        out.push(c);
                        proof {
                            reveal_strlit("warning");
                        }
                        assert(conflict_views(out@) =~= conflict_views(prev).push(conflict_view(c)));
                    }
                    t = t + 1;
                }
                assert(existing@.take(t as int) =~= existing@);
            },
        }
        k = k + 1;
    }
    assert(planned_ips@.take(k as int) =~= planned_ips@);
    out
}

/// Main-table routes that overlap a planned network, leaving out the
/// routes of edge-lb's own overlay devices and default routes.
pub open spec fn route_conflicts(routes: Seq<String>, planned: Seq<Ipv4Net>, vxlan_dev: Seq<char>, return_dev: Option<Seq<char>>) -> Seq<(Seq<char>, Seq<char>, Seq<char>, Seq<char>)>
    decreases routes.len(),
{
    if routes.len() == 0 {
        seq![]
    } else {
        let rest = route_conflicts(routes.drop_last(), planned, vxlan_dev, return_dev);
        let line = routes.last()@;
        if spec_is_edge_lb_overlay_device(vxlan_dev, return_dev, line) {
            rest
        } else {
            match spec_route_destination_network(line) {
                None => rest,
                Some(route) => if exists|i: int| 0 <= i < planned.len() && (#[trigger] planned[i]).spec_overlaps(route) {
                    rest.push(warning_view("overlay_route"@,
                        match spec_route_destination(line) {
                            Some(d) => d,
                            None => seq![],
                        },
                        "main route overlaps planned overlay network: "@ + line))
                } else {
                    rest
                },
            }
        }
    }
}

fn any_overlap(planned: &Vec<Ipv4Net>, route: &Ipv4Net) -> (r: bool)
    requires
        forall|i: int| 0 <= i < planned@.len() ==> (#[trigger] planned@[i]).prefix <= 32,
        route.prefix <= 32,
    ensures
        r == exists|i: int| 0 <= i < planned@.len() && (#[trigger] planned@[i]).spec_overlaps(*route),
{
    let mut i: usize = 0;
    while i < planned.len()
        invariant
            i <= planned@.len(),
            forall|j: int| 0 <= j < i ==> !(#[trigger] planned@[j]).spec_overlaps(*route),
            forall|i: int| 0 <= i < planned@.len() ==> (#[trigger] planned@[i]).prefix <= 32,
            route.prefix <= 32,
        decreases planned@.len() - i,
    {
        if planned[i].overlaps(route) {
            return true;
        }
        i = i + 1;
    }
    false
}

pub fn overlay_route_conflicts(routes: &Vec<String>, planned: &Vec<Ipv4Net>, vxlan_dev: &str, return_dev: Option<&str>) -> (r: Vec<NodeConflict>)
    requires
        forall|i: int| 0 <= i < planned@.len() ==> (#[trigger] planned@[i]).prefix <= 32,
    ensures
        conflict_views(r@) == route_conflicts(routes@, planned@, vxlan_dev@, match return_dev {
            Some(d) => Some(d@),
            None => None,
        }),
{
    let ghost rd = match return_dev {
        Some(d) => Some(d@),
        None => None,
    };
    let mut out: Vec<NodeConflict> = Vec::new();
    if planned.len() == 0 {
        proof {
            lemma_route_conflicts_none(routes@, planned@, vxlan_dev@, rd);
        }
        return out;
    }
    let mut i: usize = 0;
    while i < routes.len()
        invariant
            i <= routes@.len(),
            rd == (match return_dev {
                Some(d) => Some(d@),
                None => None,
            }),
            conflict_views(out@) == route_conflicts(routes@.take(i as int), planned@, vxlan_dev@, rd),
            forall|i: int| 0 <= i < planned@.len() ==> (#[trigger] planned@[i]).prefix <= 32,
        decreases routes@.len() - i,
    {
        let line = routes[i].as_str();
        assert(routes@.take(i + 1).drop_last() =~= routes@.take(i as int));
        if !crate::ipnet::is_edge_lb_overlay_device(vxlan_dev, return_dev, line) {
            match crate::ipnet::route_destination_network(line) {
                None => {},
                Some(route) => {
                    if any_overlap(planned, &route) {
                        let subject = match crate::ipnet::route_destination(line) {
                            Some(d) => d,
                            None => String::new(),
                        };
                        let mut cs = crate::text::chars_of("main route overlaps planned overlay network: ");
                        crate::text::extend_chars(&mut cs, &crate::text::chars_of(line));
                        let c = NodeConflict::warning("overlay_route".to_string(), subject, crate::text::string_of(&cs));
                        let ghost prev = out@;
                        out.push(c);
                        proof {
                            reveal_strlit("warning");
                        }
                        assert(conflict_views(out@) =~= conflict_views(prev).push(conflict_view(c)));
                    }
                },
            }
        }
        i = i + 1;
    }
    assert(routes@.take(i as int) =~= routes@);
    out
}

proof fn lemma_route_conflicts_none(routes: Seq<String>, planned: Seq<Ipv4Net>, vxlan_dev: Seq<char>, rd: Option<Seq<char>>)
    requires
        planned.len() == 0,
    ensures
        route_conflicts(routes, planned, vxlan_dev, rd) == Seq::<(Seq<char>, Seq<char>, Seq<char>, Seq<char>)>::empty(),
    decreases routes.len(),
{
    if routes.len() > 0 {
        lemma_route_conflicts_none(routes.drop_last(), planned, vxlan_dev, rd);
    }
}

/// The conflicts a backend reports of its host: those of the planned
/// overlay addresses with the interface addresses and with the main-table
/// routes, then the route ownership conflicts, or a warning that ownership
/// could not be checked. `existing` and `routes` are what the host holds;
/// `ownership` is the result of the ownership check.
pub fn inspect_backend(
    vxlan_dev: &str,
    return_dev: Option<&str>,
    overlay_cidr: &str,
    local_overlay: Option<String>,
    return_path_overlays: &Vec<Option<String>>,
    existing: &Vec<InterfaceAddr>,
    routes: &Vec<String>,
    ownership: Result<Vec<NodeConflict>, String>,
) -> (r: Vec<NodeConflict>)
    requires
        forall|i: int| 0 <= i < existing@.len() ==> (#[trigger] existing@[i]).network.prefix <= 32,
    ensures
        ({
            let addrs = sorted_distinct(planned_texts(opt_text(local_overlay), return_path_overlays@));
            let planned = sorted_nets(planned_net_list(overlay_cidr@, addrs));
            let rd = match return_dev {
                Some(d) => Some(d@),
                None => None,
            };
            let address_part = if planned.len() == 0 {
                Seq::empty()
            } else {
                cidr_conflicts(existing@, planned, vxlan_dev@) + ip_conflicts(addrs.map_values(|a: Seq<char>| before_slash(a)), existing@, vxlan_dev@)
            };
            let head = address_part + route_conflicts(routes@, planned, vxlan_dev@, rd);
            match ownership {
                Ok(c) => conflict_views(r@) == head + conflict_views(c@),
                Err(e) => conflict_views(r@) == head.push(warning_view("route_ownership"@, "inspection"@, "cannot verify route ownership: "@ + e@)),
            }
        }),
{
    let addrs = planned_overlay_addrs(local_overlay, return_path_overlays);
    let planned = planned_overlay_networks(overlay_cidr, &addrs);
    let ips = planned_overlay_ips(&addrs);
    let mut out = overlay_address_conflicts(vxlan_dev, &planned, &ips, existing);
    let mut more = overlay_route_conflicts(routes, &planned, vxlan_dev, return_dev);
    let ghost a = conflict_views(out@);
    let ghost m = conflict_views(more@);
    out.append(&mut more);
    assert(conflict_views(out@) =~= a + m);
    match ownership {
        Ok(mut c) => {
            let ghost b = conflict_views(out@);
            let ghost c_before = c@;
            out.append(&mut c);
            assert(conflict_views(out@) =~= b + conflict_views(c_before));
        },
        Err(e) => {
            let mut cs = crate::text::chars_of("cannot verify route ownership: ");
            crate::text::extend_chars(&mut cs, &crate::text::chars_of(e.as_str()));
            let w = NodeConflict::warning("route_ownership".to_string(), "inspection".to_string(), crate::text::string_of(&cs));
            let ghost b = conflict_views(out@);
            out.push(w);
            proof {
                reveal_strlit("warning");
            }
            assert(conflict_views(out@) =~= b.push(conflict_view(w)));
        },
    }
    out
}

} // verus!
