//! The backend's nftables ruleset: return-path steering by the DSCP of
//! VXLAN ingress packets, UDP reply repair learned from those packets, and
//! the marks that route replies.

use vstd::prelude::*;
use crate::text::decimal;
use crate::ipnet::{parsed_ipv4, ipv4_text};
use crate::overlay_conflicts::before_slash;
use crate::probe_schedule::opt_text;
use crate::snapshot::ReturnPathConfig;

verus! {

/// How long a learned UDP client tuple is kept, in seconds.
pub const UDP_REPLY_TIMEOUT_SECS: u32 = 30;

/// One lower-case hexadecimal digit.
pub open spec fn hex_digit_char(d: nat) -> char {
    if d < 10 {
        (('0' as u32) + (d as u32)) as char
    } else {
        (('a' as u32) + ((d - 10) as u32)) as char
    }
}

/// Lower-case hexadecimal digits of a number, most significant first.
pub open spec fn hex(n: nat) -> Seq<char>
    decreases n,
{
    if n < 16 {
        seq![hex_digit_char(n)]
    } else {
        hex(n / 16).push(hex_digit_char(n % 16))
    }
}

fn hex_digit(d: u32) -> (c: char)
    requires
        d < 16,
    ensures
        c == hex_digit_char(d as nat),
{
    if d < 10 {
        (('0' as u32) + d) as u8 as char
    } else {
        (('a' as u32) + (d - 10)) as u8 as char
    }
}

pub fn hex_chars(n: u32) -> (r: Vec<char>)
    ensures
        r@ == hex(n as nat),
    decreases n,
{
    if n < 16 {
        let mut v: Vec<char> = Vec::new();
        v.push(hex_digit(n));
        assert(v@ =~= hex(n as nat));
        v
    } else {
        let mut v = hex_chars(n / 16);
        v.push(hex_digit(n % 16));
        assert(v@ =~= hex(n as nat));
        v
    }
}

/// A mark as nft prints it with `{:#x}`: `0x` and its hex digits.
pub open spec fn mark_text(m: u32) -> Seq<char> {
    "0x"@ + hex(m as nat)
}

/// The IPv4 overlay address of the backend on a return path, when it has
/// one: the address part of its overlay text.
pub open spec fn overlay_v4(p: ReturnPathConfig) -> Option<u32> {
    match opt_text(p.backend_overlay_ip) {
        Some(v) => parsed_ipv4(before_slash(v)),
        None => None,
    }
}

/// Name of the set of UDP client tuples learned for a mark.
pub open spec fn set_name(mark: u32) -> Seq<char> {
    "udp_reply_"@ + hex(mark as nat)
}

pub open spec fn forward_rule(vx: Seq<char>, p: ReturnPathConfig) -> Seq<char> {
    "        iifname \""@ + vx + "\" ip dscp "@ + decimal(p.dscp as nat) + " counter ct mark set "@ + mark_text(p.mark) + "\n"@
}

pub open spec fn udp_set(p: ReturnPathConfig) -> Seq<char> {
    "    set "@ + set_name(p.mark) + " {\ntype ipv4_addr . inet_service\nflags dynamic,timeout\ntimeout 30s\n}\n"@
}

pub open spec fn learn_rule(vx: Seq<char>, p: ReturnPathConfig) -> Seq<char> {
    "        iifname \""@ + vx + "\" ip dscp "@ + decimal(p.dscp as nat) + " meta l4proto udp update @"@ + set_name(p.mark)
        + " { ip saddr . udp sport timeout 30s }\n"@
}

pub open spec fn repair_rule(p: ReturnPathConfig, overlay: u32) -> Seq<char> {
    "        meta l4proto udp ip daddr . udp dport @"@ + set_name(p.mark) + " counter ip saddr set "@ + ipv4_text(overlay)
        + " meta mark set "@ + mark_text(p.mark) + "\n"@
}

pub open spec fn reply_rule(m: u32) -> Seq<char> {
    "        ct mark "@ + mark_text(m) + " ct direction reply counter meta mark set "@ + mark_text(m) + "\n"@
}

/// The per-path parts of the ruleset: UDP sets, DSCP steering rules, UDP
/// learn rules and UDP repair rules; paths without an IPv4 backend overlay
/// address get steering only.
pub open spec fn path_sections(vx: Seq<char>, paths: Seq<ReturnPathConfig>) -> (Seq<char>, Seq<char>, Seq<char>, Seq<char>)
    decreases paths.len(),
{
    if paths.len() == 0 {
        (seq![], seq![], seq![], seq![])
    } else {
        sections_step(path_sections(vx, paths.drop_last()), vx, paths.last())
    }
}

/// The parts after one more path.
pub open spec fn sections_step(prev: (Seq<char>, Seq<char>, Seq<char>, Seq<char>), vx: Seq<char>, p: ReturnPathConfig) -> (Seq<char>, Seq<char>, Seq<char>, Seq<char>) {
    let fwd = prev.1 + forward_rule(vx, p);
    match overlay_v4(p) {
        Some(o) => (prev.0 + udp_set(p), fwd, prev.2 + learn_rule(vx, p), prev.3 + repair_rule(p, o)),
        None => (prev.0, fwd, prev.2, prev.3),
    }
}

pub open spec fn reply_rules(marks: Seq<u32>) -> Seq<char>
    decreases marks.len(),
{
    if marks.len() == 0 {
        seq![]
    } else {
        reply_rules(marks.drop_last()) + reply_rule(marks.last())
    }
}

pub open spec fn increasing(s: Seq<u32>) -> bool {
    forall|i: int, j: int| 0 <= i < j < s.len() ==> s[i] < s[j]
}

pub open spec fn is_mark_of(paths: Seq<ReturnPathConfig>, m: u32) -> bool {
    exists|i: int| 0 <= i < paths.len() && (#[trigger] paths[i]).mark == m
}

/// The marks of the paths, in increasing order, each once.
pub open spec fn sorted_marks(paths: Seq<ReturnPathConfig>) -> Seq<u32> {
    choose|s: Seq<u32>| increasing(s) && forall|m: u32| #[trigger] s.contains(m) <==> is_mark_of(paths, m)
}

proof fn lemma_increasing_unique(a: Seq<u32>, b: Seq<u32>)
    requires
        increasing(a),
        increasing(b),
        forall|m: u32| #[trigger] a.contains(m) <==> b.contains(m),
    ensures
        a == b,
    decreases a.len() + b.len(),
{
    if a.len() == 0 || b.len() == 0 {
        if a.len() > 0 {
            assert(a.contains(a[0]));
            assert(b.contains(a[0]));
        }
        if b.len() > 0 {
            assert(b.contains(b[0]));
            assert(a.contains(b[0]));
        }
        assert(a =~= b);
    } else {
        let x = a.last();
        let y = b.last();
        assert(a.contains(x));
        assert(b.contains(x));
        assert(b.contains(y));
        assert(a.contains(y));
        let i = choose|i: int| 0 <= i < b.len() && b[i] == x;
        let j = choose|j: int| 0 <= j < a.len() && a[j] == y;
        assert(x <= y) by {
            if i < b.len() - 1 {
                assert(b[i] < b[b.len() - 1]);
            }
        }
        assert(y <= x) by {
            if j < a.len() - 1 {
                assert(a[j] < a[a.len() - 1]);
            }
        }
        let a2 = a.drop_last();
        let b2 = b.drop_last();
        assert forall|m: u32| #[trigger] a2.contains(m) <==> b2.contains(m) by {
            if a2.contains(m) {
                let k = choose|k: int| 0 <= k < a2.len() && a2[k] == m;
                assert(a[k] < x);
                assert(a.contains(m));
                assert(b.contains(m));
                let l = choose|l: int| 0 <= l < b.len() && b[l] == m;
                assert(l != b.len() - 1);
                assert(b2[l] == m);
            }
            if b2.contains(m) {
                let k = choose|k: int| 0 <= k < b2.len() && b2[k] == m;
                assert(b[k] < y);
                assert(b.contains(m));
                assert(a.contains(m));
                let l = choose|l: int| 0 <= l < a.len() && a[l] == m;
                assert(l != a.len() - 1);
                assert(a2[l] == m);
            }
        }
        lemma_increasing_unique(a2, b2);
        assert(a =~= a2.push(x));
        assert(b =~= b2.push(y));
    }
}

/// The marks of the paths, in increasing order, each once.
pub fn return_marks(paths: &Vec<ReturnPathConfig>) -> (r: Vec<u32>)
    ensures
        r@ == sorted_marks(paths@),
{
    let mut out: Vec<u32> = Vec::new();
    let mut i: usize = 0;
    while i < paths.len()
        invariant
            i <= paths@.len(),
            increasing(out@),
            forall|m: u32| #[trigger] out@.contains(m) <==> is_mark_of(paths@.take(i as int), m),
        decreases paths@.len() - i,
    {
        let m = paths[i].mark;
        let ghost before = out@;
        let mut p: usize = 0;
        while p < out.len() && out[p] < m
            invariant
                p <= out@.len(),
                out@ == before,
                forall|k: int| 0 <= k < p ==> out@[k] < m,
            decreases out@.len() - p,
        {
            p = p + 1;
        }
        if p < out.len() && out[p] == m {
        } else {
            out.insert(p, m);
            assert forall|a: int, b: int| 0 <= a < b < out@.len() implies out@[a] < out@[b] by {
                if b < p {
                } else if a < p && b == p {
                } else if a < p {
                    assert(out@[b] == before[b - 1]);
                    assert(before[b - 1] >= before[p as int] || b - 1 == p);
                } else if a == p {
                    assert(out@[b] == before[b - 1]);
                    assert(before[p as int] <= before[b - 1]);
                    assert(before[p as int] > m);
                } else {
                    assert(out@[a] == before[a - 1]);
                    assert(out@[b] == before[b - 1]);
                }
            }
        }
        assert forall|x: u32| #[trigger] out@.contains(x) <==> is_mark_of(paths@.take(i + 1), x) by {
            let t = paths@.take(i + 1);
            if out@.contains(x) {
                let k = choose|k: int| 0 <= k < out@.len() && out@[k] == x;
                if x == m {
                    assert(t[i as int].mark == m);
                } else {
                    if p < before.len() && before[p as int] == m {
                        assert(before.contains(x));
                    } else {
                        if k < p {
                            assert(before[k] == x);
                        } else {
                            assert(k > p);
                            assert(before[k - 1] == x);
                        }
                        assert(before.contains(x));
                    }
                    let w = choose|w: int| 0 <= w < i && (#[trigger] paths@.take(i as int)[w]).mark == x;
                    assert(t[w] == paths@.take(i as int)[w]);
                }
            }
            if is_mark_of(t, x) {
                let w = choose|w: int| 0 <= w < t.len() && (#[trigger] t[w]).mark == x;
                if w == i {
                    if p < before.len() && before[p as int] == m {
                        assert(out@[p as int] == x);
                    } else {
                        assert(out@[p as int] == x);
                    }
                } else {
                    assert(paths@.take(i as int)[w] == t[w]);
                    assert(before.contains(x));
                    let k = choose|k: int| 0 <= k < before.len() && before[k] == x;
                    if p < before.len() && before[p as int] == m {
                        assert(out@[k] == x);
                    } else if k < p {
                        assert(out@[k] == x);
                    } else {
                        assert(out@[k + 1] == x);
                    }
                }
            }
        }
        i = i + 1;
    }
    assert(paths@.take(i as int) =~= paths@);
    proof {
        let s = sorted_marks(paths@);
        assert(increasing(out@) && forall|m: u32| #[trigger] out@.contains(m) <==> is_mark_of(paths@, m));
        lemma_increasing_unique(out@, s);
    }
    out
}

fn push_str(out: &mut Vec<char>, s: &str)
    ensures
        final(out)@ == old(out)@ + s@,
{
    crate::text::extend_chars(out, &crate::text::chars_of(s));
}

fn push_chars(out: &mut Vec<char>, s: &Vec<char>)
    ensures
        final(out)@ == old(out)@ + s@,
{
    crate::text::extend_chars(out, s);
}

fn mark_chars(m: u32) -> (r: Vec<char>)
    ensures
        r@ == mark_text(m),
{
    let mut out = crate::text::chars_of("0x");
    push_chars(&mut out, &hex_chars(m));
    out
}

fn set_name_chars(m: u32) -> (r: Vec<char>)
    ensures
        r@ == set_name(m),
{
    let mut out = crate::text::chars_of("udp_reply_");
    push_chars(&mut out, &hex_chars(m));
    out
}

fn backend_overlay_ipv4(p: &ReturnPathConfig) -> (r: Option<u32>)
    ensures
        r == overlay_v4(*p),
{
    match &p.backend_overlay_ip {
        None => None,
        Some(v) => {
            let host = crate::overlay_conflicts::before_slash_text(v.as_str());
            crate::ipnet::parse_ipv4(host.as_str())
        },
    }
}

fn add_path_sections(p: &ReturnPathConfig, vx: &Vec<char>, sets: &mut Vec<char>, fwd: &mut Vec<char>, learn: &mut Vec<char>, repair: &mut Vec<char>)
    ensures
        (final(sets)@, final(fwd)@, final(learn)@, final(repair)@) == sections_step((old(sets)@, old(fwd)@, old(learn)@, old(repair)@), vx@, *p),
{
    let dscp = crate::text::decimal_chars(p.dscp as u64);
    push_str(fwd, "        iifname \"");
    push_chars(fwd, vx);
    push_str(fwd, "\" ip dscp ");
    push_chars(fwd, &dscp);
    push_str(fwd, " counter ct mark set ");
    push_chars(fwd, &mark_chars(p.mark));
    push_str(fwd, "\n");
    match backend_overlay_ipv4(p) {
        None => {},
        Some(overlay) => {
            let name = set_name_chars(p.mark);
            push_str(sets, "    set ");
            push_chars(sets, &name);
            push_str(sets, " {\ntype ipv4_addr . inet_service\nflags dynamic,timeout\ntimeout 30s\n}\n");
            push_str(learn, "        iifname \"");
            push_chars(learn, vx);
            push_str(learn, "\" ip dscp ");
            push_chars(learn, &dscp);
            push_str(learn, " meta l4proto udp update @");
            push_chars(learn, &name);
            push_str(learn, " { ip saddr . udp sport timeout 30s }\n");
            push_str(repair, "        meta l4proto udp ip daddr . udp dport @");
            push_chars(repair, &name);
            push_str(repair, " counter ip saddr set ");
            push_chars(repair, &crate::text::chars_of(crate::ipnet::format_ipv4(overlay).as_str()));
            push_str(repair, " meta mark set ");
            push_chars(repair, &mark_chars(p.mark));
            push_str(repair, "\n");
        },
    }
}

/// The full ruleset of the agent-owned nft table: it replaces the table
/// atomically; DSCP-marked VXLAN ingress selects the return path, UDP
/// client tuples are learned from those packets to repair UDP replies, and
/// reply-direction packets get the routing mark. Listener ports are no
/// input.
pub open spec fn spec_ruleset(vx: Seq<char>, table: Seq<char>, mss: u16, paths: Seq<ReturnPathConfig>) -> Seq<char> {
    let sec = path_sections(vx, paths);
    let replies = reply_rules(sorted_marks(paths));
    "table inet "@ + table + "\ndelete table inet "@ + table + "\n\ntable inet "@ + table + " {\n"@ + sec.0
        + "chain prerouting {\ntype filter hook prerouting priority mangle; policy accept;\n# Gateway-marked ingress traffic selects the return path by DSCP.\n"@
        + sec.1
        + "# Learn UDP client tuples from DSCP-marked ingress packets; output\n# repair stays datapath-derived rather than service-port-derived.\n"@
        + sec.2 + "# Reply: marked reply-direction packets get the routing fwmark.\n"@ + replies
        + "}\nchain output {\ntype route hook output priority mangle; policy accept;\n# Repair only UDP replies whose client tuple was learned from a\n# DSCP-marked ingress packet.\n"@
        + sec.3 + "# Replies from host-native services.\n"@ + replies
        + "}\nchain forward {\ntype filter hook forward priority mangle; policy accept;\noifname \""@ + vx
        + "\" tcp flags & (fin | syn | rst | ack) == syn counter tcp option maxseg size set "@ + decimal(mss as nat) + "\n}\n}\n"@
}

pub fn ruleset(vxlan_dev: &str, nft_table: &str, mss: u16, paths: &Vec<ReturnPathConfig>) -> (r: String)
    ensures
        r@ == spec_ruleset(vxlan_dev@, nft_table@, mss, paths@),
{
    let vx = crate::text::chars_of(vxlan_dev);
    let mut sets: Vec<char> = Vec::new();
    let mut fwd: Vec<char> = Vec::new();
    let mut learn: Vec<char> = Vec::new();
    let mut repair: Vec<char> = Vec::new();
    let mut i: usize = 0;
    while i < paths.len()
        invariant
            i <= paths@.len(),
            vx@ == vxlan_dev@,
            (sets@, fwd@, learn@, repair@) == path_sections(vxlan_dev@, paths@.take(i as int)),
        decreases paths@.len() - i,
    {
        let p = &paths[i];
        assert(paths@.take(i + 1).drop_last() =~= paths@.take(i as int));
        assert(paths@.take(i + 1).last() == *p);
        add_path_sections(p, &vx, &mut sets, &mut fwd, &mut learn, &mut repair);
        i = i + 1;
    }
    assert(paths@.take(i as int) =~= paths@);
    let marks = return_marks(paths);
    let mut replies: Vec<char> = Vec::new();
    let mut k: usize = 0;
    while k < marks.len()
        invariant
            k <= marks@.len(),
            replies@ == reply_rules(marks@.take(k as int)),
        decreases marks@.len() - k,
    {
        assert(marks@.take(k + 1).drop_last() =~= marks@.take(k as int));
        let m = mark_chars(marks[k]);
        push_str(&mut replies, "        ct mark ");
        push_chars(&mut replies, &m);
        push_str(&mut replies, " ct direction reply counter meta mark set ");
        push_chars(&mut replies, &m);
        push_str(&mut replies, "\n");
        k = k + 1;
    }
    assert(marks@.take(k as int) =~= marks@);
    let table = crate::text::chars_of(nft_table);
    let mut out = crate::text::chars_of("table inet ");
    push_chars(&mut out, &table);
    push_str(&mut out, "\ndelete table inet ");
    push_chars(&mut out, &table);
    push_str(&mut out, "\n\ntable inet ");
    push_chars(&mut out, &table);
    push_str(&mut out, " {\n");
    push_chars(&mut out, &sets);
    push_str(
        &mut out,
        "chain prerouting {\ntype filter hook prerouting priority mangle; policy accept;\n# Gateway-marked ingress traffic selects the return path by DSCP.\n",
    );
    push_chars(&mut out, &fwd);
    push_str(
        &mut out,
        "# Learn UDP client tuples from DSCP-marked ingress packets; output\n# repair stays datapath-derived rather than service-port-derived.\n",
    );
    push_chars(&mut out, &learn);
    push_str(&mut out, "# Reply: marked reply-direction packets get the routing fwmark.\n");
    push_chars(&mut out, &replies);
    push_str(
        &mut out,
        "}\nchain output {\ntype route hook output priority mangle; policy accept;\n# Repair only UDP replies whose client tuple was learned from a\n# DSCP-marked ingress packet.\n",
    );
    push_chars(&mut out, &repair);
    push_str(&mut out, "# Replies from host-native services.\n");
    push_chars(&mut out, &replies);
    push_str(&mut out, "}\nchain forward {\ntype filter hook forward priority mangle; policy accept;\noifname \"");
    push_chars(&mut out, &vx);
    push_str(&mut out, "\" tcp flags & (fin | syn | rst | ack) == syn counter tcp option maxseg size set ");
    push_chars(&mut out, &crate::text::decimal_chars(mss as u64));
    push_str(&mut out, "\n}\n}\n");
    crate::text::string_of(&out)
}

} // verus!
