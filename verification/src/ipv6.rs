//! IPv6 addresses as text: reading them the way `Ipv6Addr` is parsed from a
//! string (hexadecimal groups, one `::` run of zero groups, an IPv4 address
//! in the last two groups), and writing them the way it is displayed.

use vstd::prelude::*;
use crate::text::{hex_digit_value, is_digit, digit_value, hex_digit};

verus! {

/// Number of hexadecimal digits from `i` on.
pub open spec fn hex_run(s: Seq<char>, i: int) -> nat
    decreases s.len() - i,
{
    if 0 <= i < s.len() && hex_digit_value(s[i]) >= 0 {
        1 + hex_run(s, i + 1)
    } else {
        0
    }
}

/// Number of decimal digits from `i` on.
pub open spec fn dec_run(s: Seq<char>, i: int) -> nat
    decreases s.len() - i,
{
    if 0 <= i < s.len() && is_digit(s[i]) {
        1 + dec_run(s, i + 1)
    } else {
        0
    }
}

/// Value of the `n` hexadecimal digits from `i`.
pub open spec fn hex_value(s: Seq<char>, i: int, n: nat) -> int
    decreases n,
{
    if n == 0 {
        0
    } else {
        hex_value(s, i, (n - 1) as nat) * 16 + hex_digit_value(s[i + n - 1])
    }
}

/// Value of the `n` decimal digits from `i`.
pub open spec fn dec_value(s: Seq<char>, i: int, n: nat) -> int
    decreases n,
{
    if n == 0 {
        0
    } else {
        dec_value(s, i, (n - 1) as nat) * 10 + digit_value(s[i + n - 1])
    }
}

/// A group of one to four hexadecimal digits at `i`: its value and where it
/// ends. More digits make no group.
pub open spec fn read_hex_group(s: Seq<char>, i: int) -> Option<(int, int)> {
    let n = hex_run(s, i);
    if 1 <= n <= 4 {
        Some((hex_value(s, i, n), i + n))
    } else {
        None
    }
}

/// An IPv4 octet at `i`: one to three digits, no leading zero, at most 255.
pub open spec fn read_octet(s: Seq<char>, i: int) -> Option<(int, int)> {
    let n = dec_run(s, i);
    if n == 0 || n > 3 {
        None
    } else if n > 1 && s[i] == '0' {
        None
    } else if dec_value(s, i, n) > 255 {
        None
    } else {
        Some((dec_value(s, i, n), i + n))
    }
}

/// A dot, then an octet.
pub open spec fn read_dot_octet(s: Seq<char>, i: int) -> Option<(int, int)> {
    if 0 <= i < s.len() && s[i] == '.' {
        read_octet(s, i + 1)
    } else {
        None
    }
}

/// A dotted-quad IPv4 address at `i`: its value and where it ends.
pub open spec fn read_v4(s: Seq<char>, i: int) -> Option<(int, int)> {
    match read_octet(s, i) {
        None => None,
        Some((a, e1)) => match read_dot_octet(s, e1) {
            None => None,
            Some((b, e2)) => match read_dot_octet(s, e2) {
                None => None,
                Some((c, e3)) => match read_dot_octet(s, e3) {
                    None => None,
                    Some((d, e4)) => Some((((a * 256 + b) * 256 + c) * 256 + d, e4)),
                },
            },
        },
    }
}

/// Groups read from slot `i` up to `limit`, each after a colon but the
/// first: a group may be an IPv4 address (two groups) while at least two
/// slots are left, which ends the reading. The groups, whether an IPv4
/// address ended them, and where reading stopped.
pub open spec fn read_groups(s: Seq<char>, pos: int, i: int, limit: int) -> (Seq<int>, bool, int)
    decreases limit - i,
{
    if i >= limit {
        (seq![], false, pos)
    } else {
        let sep_ok = i == 0 || (0 <= pos < s.len() && s[pos] == ':');
        let start = if i == 0 { pos } else { pos + 1 };
        if i < limit - 1 && sep_ok && read_v4(s, start) is Some {
            let (v, e) = read_v4(s, start).unwrap();
            (seq![v / 65536, v % 65536], true, e)
        } else if sep_ok && read_hex_group(s, start) is Some {
            let (g, e) = read_hex_group(s, start).unwrap();
            let rest = read_groups(s, e, i + 1, limit);
            (seq![g] + rest.0, rest.1, rest.2)
        } else {
            (seq![], false, pos)
        }
    }
}

/// Value of 16-bit groups, most significant first.
pub open spec fn groups_value(gs: Seq<int>) -> int
    decreases gs.len(),
{
    if gs.len() == 0 {
        0
    } else {
        groups_value(gs.drop_last()) * 65536 + gs.last()
    }
}

/// The groups of an IPv6 text: eight groups, or fewer around one `::` that
/// stands for the missing zero groups; all of the text must be read.
pub open spec fn ipv6_groups(s: Seq<char>) -> Option<Seq<int>> {
    let h = read_groups(s, 0, 0, 8);
    if h.0.len() == 8 {
        if h.2 == s.len() { Some(h.0) } else { None }
    } else if h.1 {
        None
    } else {
        let p = h.2;
        if 0 <= p && p + 1 < s.len() && s[p] == ':' && s[p + 1] == ':' {
            let limit = 8 - (h.0.len() + 1);
            let t = read_groups(s, p + 2, 0, limit);
            if t.2 == s.len() {
                Some(h.0 + Seq::new((8 - h.0.len() - t.0.len()) as nat, |k: int| 0int) + t.0)
            } else {
                None
            }
        } else {
            None
        }
    }
}

/// The address of an IPv6 text.
pub open spec fn parsed_ipv6(s: Seq<char>) -> Option<u128> {
    match ipv6_groups(s) {
        Some(gs) => Some(groups_value(gs) as u128),
        None => None,
    }
}

pub open spec fn ints(v: Seq<u32>) -> Seq<int> {
    v.map_values(|x: u32| x as int)
}

proof fn lemma_hex_run_bound(s: Seq<char>, i: int)
    requires
        0 <= i <= s.len(),
    ensures
        i + hex_run(s, i) <= s.len(),
        forall|k: int| i <= k < i + hex_run(s, i) ==> hex_digit_value(#[trigger] s[k]) >= 0,
    decreases s.len() - i,
{
    if i < s.len() && hex_digit_value(s[i]) >= 0 {
        lemma_hex_run_bound(s, i + 1);
    }
}

proof fn lemma_dec_run_bound(s: Seq<char>, i: int)
    requires
        0 <= i <= s.len(),
    ensures
        i + dec_run(s, i) <= s.len(),
        forall|k: int| i <= k < i + dec_run(s, i) ==> is_digit(#[trigger] s[k]),
    decreases s.len() - i,
{
    if i < s.len() && is_digit(s[i]) {
        lemma_dec_run_bound(s, i + 1);
    }
}

fn hex_run_at(s: &[char], i: usize) -> (r: usize)
    requires
        i <= s@.len(),
    ensures
        r == hex_run(s@, i as int),
        i + r <= s@.len(),
{
    let mut j = i;
    while j < s.len() && hex_digit(s[j]).is_some()
        invariant
            i <= j <= s@.len(),
            hex_run(s@, i as int) == (j - i) + hex_run(s@, j as int),
        decreases s@.len() - j,
    {
        j = j + 1;
    }
    j - i
}

fn dec_run_at(s: &[char], i: usize) -> (r: usize)
    requires
        i <= s@.len(),
    ensures
        r == dec_run(s@, i as int),
        i + r <= s@.len(),
{
    let mut j = i;
    while j < s.len() && '0' <= s[j] && s[j] <= '9'
        invariant
            i <= j <= s@.len(),
            dec_run(s@, i as int) == (j - i) + dec_run(s@, j as int),
        decreases s@.len() - j,
    {
        j = j + 1;
    }
    j - i
}

fn hex_group_at(s: &[char], i: usize) -> (r: Option<(u32, usize)>)
    requires
        i <= s@.len(),
    ensures
        match read_hex_group(s@, i as int) {
            Some((g, e)) => r matches Some((g2, e2)) && g2 as int == g && e2 as int == e && e2 <= s@.len() && 0 <= g < 65536,
            None => r is None,
        },
{
    let n = hex_run_at(s, i);
    if n < 1 || n > 4 {
        return None;
    }
    proof {
        lemma_hex_run_bound(s@, i as int);
    }
    let len = s.len();
    assert(i + n <= len);
    let end = i + n;
    let mut v: u32 = 0;
    let mut k: usize = 0;
    while k < n
        invariant
            0 <= k <= n <= 4,
            end == i + n,
            i + n <= s@.len(),
            n == hex_run(s@, i as int),
            forall|m: int| i <= m < i + n ==> hex_digit_value(#[trigger] s@[m]) >= 0,
            v as int == hex_value(s@, i as int, k as nat),
            0 <= v < (if k == 0 { 1int } else if k == 1 { 16int } else if k == 2 { 256int } else if k == 3 { 4096int } else { 65536int }),
        decreases n - k,
    {
        let c = s[i + k];
        assert(hex_digit_value(s@[i + k]) >= 0);
        let d = hex_digit(c).unwrap();
        v = v * 16 + d;
        k = k + 1;
    }
    Some((v, end))
}

fn octet_at(s: &[char], i: usize) -> (r: Option<(u32, usize)>)
    requires
        i <= s@.len(),
    ensures
        match read_octet(s@, i as int) {
            Some((a, e)) => r matches Some((a2, e2)) && a2 as int == a && e2 as int == e && e2 <= s@.len() && 0 <= a <= 255,
            None => r is None,
        },
{
    let n = dec_run_at(s, i);
    if n == 0 || n > 3 {
        return None;
    }
    proof {
        lemma_dec_run_bound(s@, i as int);
    }
    if n > 1 && s[i] == '0' {
        return None;
    }
    let len = s.len();
    assert(i + n <= len);
    let end = i + n;
    let mut v: u32 = 0;
    let mut k: usize = 0;
    while k < n
        invariant
            0 <= k <= n <= 3,
            end == i + n,
            i + n <= s@.len(),
            forall|m: int| i <= m < i + n ==> is_digit(#[trigger] s@[m]),
            v as int == dec_value(s@, i as int, k as nat),
            0 <= v < (if k == 0 { 1int } else if k == 1 { 10int } else if k == 2 { 100int } else { 1000int }),
        decreases n - k,
    {
        let c = s[i + k];
        assert(is_digit(s@[i + k]));
        let d = (c as u32) - ('0' as u32);
        v = v * 10 + d;
        k = k + 1;
    }
    if v > 255 {
        return None;
    }
    Some((v, end))
}

fn dot_octet_at(s: &[char], i: usize) -> (r: Option<(u32, usize)>)
    requires
        i <= s@.len(),
    ensures
        match read_dot_octet(s@, i as int) {
            Some((a, e)) => r matches Some((a2, e2)) && a2 as int == a && e2 as int == e && e2 <= s@.len() && 0 <= a <= 255,
            None => r is None,
        },
{
    if i < s.len() && s[i] == '.' {
        octet_at(s, i + 1)
    } else {
        None
    }
}

fn v4_at(s: &[char], i: usize) -> (r: Option<(u32, usize)>)
    requires
        i <= s@.len(),
    ensures
        match read_v4(s@, i as int) {
            Some((v, e)) => r matches Some((v2, e2)) && v2 as int == v && e2 as int == e && e2 <= s@.len(),
            None => r is None,
        },
{
    let (a, e1) = match octet_at(s, i) { Some(x) => x, None => return None };
    let (b, e2) = match dot_octet_at(s, e1) { Some(x) => x, None => return None };
    let (c, e3) = match dot_octet_at(s, e2) { Some(x) => x, None => return None };
    let (d, e4) = match dot_octet_at(s, e3) { Some(x) => x, None => return None };
    assert(((a * 256 + b) * 256 + c) * 256 + d <= 0xffff_ffff) by (nonlinear_arith)
        requires a <= 255, b <= 255, c <= 255, d <= 255;
    Some((((a * 256 + b) * 256 + c) * 256 + d, e4))
}

fn groups_at(s: &[char], pos: usize, i: usize, limit: usize) -> (r: (Vec<u32>, bool, usize))
    requires
        pos <= s@.len(),
        i <= limit <= 8,
    ensures
        (ints(r.0@), r.1, r.2 as int) == read_groups(s@, pos as int, i as int, limit as int),
        r.2 <= s@.len(),
        r.0@.len() <= limit - i,
        forall|k: int| 0 <= k < r.0@.len() ==> #[trigger] r.0@[k] < 65536,
    decreases limit - i,
{
    if i >= limit {
        let v: Vec<u32> = Vec::new();
        assert(ints(v@) =~= seq![]);
        return (v, false, pos);
    }
    let sep_ok = i == 0 || (pos < s.len() && s[pos] == ':');
    let start = if i == 0 { pos } else if sep_ok { pos + 1 } else { pos };
    if i < limit - 1 && sep_ok {
        if let Some((v, e)) = v4_at(s, start) {
            let mut out: Vec<u32> = Vec::new();
            out.push(v / 65536);
            out.push(v % 65536);
            assert(ints(out@) =~= seq![v as int / 65536, v as int % 65536]);
            return (out, true, e);
        }
    }
    if sep_ok {
        if let Some((g, e)) = hex_group_at(s, start) {
            let (rest, flag, end) = groups_at(s, e, i + 1, limit);
            let mut out: Vec<u32> = Vec::new();
            out.push(g);
            let ghost rest_v = rest@;
            let mut k: usize = 0;
            while k < rest.len()
                invariant
                    0 <= k <= rest@.len(),
                    rest@ == rest_v,
                    out@.len() == k + 1,
                    out@[0] == g,
                    g < 65536,
                    forall|m: int| 0 <= m < rest_v.len() ==> #[trigger] rest_v[m] < 65536,
                    forall|m: int| 0 <= m < k ==> out@[m + 1] == rest_v[m],
                decreases rest@.len() - k,
            {
                out.push(rest[k]);
                k = k + 1;
            }
            assert(ints(out@) =~= seq![g as int] + ints(rest_v));
            assert forall|m: int| 0 <= m < out@.len() implies #[trigger] out@[m] < 65536 by {
                if m > 0 {
                    assert(out@[m] == rest_v[m - 1]);
                }
            }
            return (out, flag, end);
        }
    }
    let v: Vec<u32> = Vec::new();
    assert(ints(v@) =~= seq![]);
    (v, false, pos)
}

pub open spec fn pow65536(k: nat) -> int
    decreases k,
{
    if k == 0 {
        1
    } else {
        65536 * pow65536((k - 1) as nat)
    }
}

proof fn lemma_pow_mono(a: nat, b: nat)
    requires
        a <= b,
    ensures
        1 <= pow65536(a) <= pow65536(b),
    decreases b,
{
    lemma_pow_pos(a);
    if a < b {
        lemma_pow_mono(a, (b - 1) as nat);
        lemma_pow_pos((b - 1) as nat);
    }
}

proof fn lemma_pow_pos(k: nat)
    ensures
        pow65536(k) >= 1,
    decreases k,
{
    if k > 0 {
        lemma_pow_pos((k - 1) as nat);
    }
}

fn value_of(gs: &Vec<u32>) -> (r: u128)
    requires
        gs@.len() == 8,
        forall|k: int| 0 <= k < gs@.len() ==> #[trigger] gs@[k] < 65536,
    ensures
        r as int == groups_value(ints(gs@)),
{
    proof {
        reveal_with_fuel(pow65536, 9);
        assert(pow65536(7) * 65536 == 0x1_0000_0000_0000_0000_0000_0000_0000_0000int);
    }
    let mut v: u128 = 0;
    let mut k: usize = 0;
    while k < 8
        invariant
            0 <= k <= 8,
            gs@.len() == 8,
            forall|m: int| 0 <= m < gs@.len() ==> #[trigger] gs@[m] < 65536,
            v as int == groups_value(ints(gs@).take(k as int)),
            (v as int) < pow65536(k as nat),
            pow65536(7) * 65536 == 0x1_0000_0000_0000_0000_0000_0000_0000_0000int,
        decreases 8 - k,
    {
        let g = gs[k];
        proof {
            lemma_pow_mono(k as nat, 7);
            let p = pow65536(k as nat);
            let p7 = pow65536(7);
            assert((v as int) * 65536 + (g as int) < p7 * 65536) by (nonlinear_arith)
                requires (v as int) < p, p <= p7, (g as int) < 65536, (v as int) >= 0;
            assert(ints(gs@).take(k + 1).drop_last() =~= ints(gs@).take(k as int));
            assert(ints(gs@).take(k + 1).last() == g as int);
            assert((v as int) * 65536 + (g as int) < p * 65536) by (nonlinear_arith)
                requires (v as int) < p, (g as int) < 65536, (v as int) >= 0;
        }
        v = v * 65536 + g as u128;
        k = k + 1;
    }
    assert(ints(gs@).take(8) =~= ints(gs@));
    v
}

/// Parse an IPv6 address.
pub fn parse_ipv6_chars(s: &[char]) -> (r: Option<u128>)
    ensures
        r == parsed_ipv6(s@),
{
    let (h, hv4, p) = groups_at(s, 0, 0, 8);
    if h.len() == 8 {
        if p == s.len() {
            return Some(value_of(&h));
        } else {
            return None;
        }
    }
    if hv4 {
        return None;
    }
    if !(p < s.len() && p + 1 < s.len() && s[p] == ':' && s[p + 1] == ':') {
        return None;
    }
    let limit = 8 - (h.len() + 1);
    let (t, _, e) = groups_at(s, p + 2, 0, limit);
    if e != s.len() {
        return None;
    }
    let zeros = 8 - h.len() - t.len();
    let mut gs: Vec<u32> = Vec::new();
    let mut k: usize = 0;
    while k < h.len()
        invariant
            0 <= k <= h@.len(),
            gs@ == h@.take(k as int),
        decreases h@.len() - k,
    {
        gs.push(h[k]);
        assert(h@.take(k + 1) =~= h@.take(k as int).push(h@[k as int]));
        k = k + 1;
    }
    let mut z: usize = 0;
    while z < zeros
        invariant
            0 <= z <= zeros,
            gs@ == h@ + Seq::new(z as nat, |m: int| 0u32),
        decreases zeros - z,
    {
        gs.push(0);
        assert(h@ + Seq::new((z + 1) as nat, |m: int| 0u32) =~= (h@ + Seq::new(z as nat, |m: int| 0u32)).push(0u32));
        z = z + 1;
    }
    let mut j: usize = 0;
    while j < t.len()
        invariant
            0 <= j <= t@.len(),
            gs@ == h@ + Seq::new(zeros as nat, |m: int| 0u32) + t@.take(j as int),
        decreases t@.len() - j,
    {
        gs.push(t[j]);
        assert(t@.take(j + 1) =~= t@.take(j as int).push(t@[j as int]));
        j = j + 1;
    }
    assert(t@.take(t@.len() as int) =~= t@);
    assert(ints(gs@) =~= ints(h@) + Seq::new((8 - ints(h@).len() - ints(t@).len()) as nat, |m: int| 0int) + ints(t@));
    assert forall|m: int| 0 <= m < gs@.len() implies #[trigger] gs@[m] < 65536 by {
        if m < h@.len() {
            assert(gs@[m] == h@[m]);
        } else if m < h@.len() + zeros {
        } else {
            assert(gs@[m] == t@[m - h@.len() - zeros]);
        }
    }
    Some(value_of(&gs))
}

/// Parse an IPv6 address.
pub fn parse_ipv6(text: &str) -> (r: Option<u128>)
    ensures
        r == parsed_ipv6(text@),
{
    parse_ipv6_chars(&crate::text::chars_of(text))
}

/// The eight 16-bit groups of an address, most significant first.
pub open spec fn segments_of(v: nat, n: nat) -> Seq<int>
    decreases n,
{
    if n == 0 {
        seq![]
    } else {
        segments_of(v / 65536, (n - 1) as nat).push((v % 65536) as int)
    }
}

pub open spec fn ipv6_segments(v: u128) -> Seq<int> {
    segments_of(v as nat, 8)
}

/// The longest run of zero groups (the first of equal ones), as start and
/// length, scanning from `i` with the current run and the best so far.
pub open spec fn zero_span(gs: Seq<int>, i: int, cur_start: int, cur_len: int, best_start: int, best_len: int) -> (int, int)
    decreases gs.len() - i,
{
    if i < 0 || i >= gs.len() {
        (best_start, best_len)
    } else if gs[i] == 0 {
        let cs = if cur_len == 0 { i } else { cur_start };
        let cl = cur_len + 1;
        if cl > best_len {
            zero_span(gs, i + 1, cs, cl, cs, cl)
        } else {
            zero_span(gs, i + 1, cs, cl, best_start, best_len)
        }
    } else {
        zero_span(gs, i + 1, 0, 0, best_start, best_len)
    }
}

/// A lower-case hexadecimal digit.
pub open spec fn hex_char(d: nat) -> char {
    if d < 10 {
        (('0' as u32) + (d as u32)) as char
    } else {
        (('a' as u32) + ((d - 10) as u32)) as char
    }
}

/// Lower-case hexadecimal text of a number, without leading zeros.
pub open spec fn hex_text(n: nat) -> Seq<char>
    decreases n,
{
    if n < 16 {
        seq![hex_char(n)]
    } else {
        hex_text(n / 16).push(hex_char(n % 16))
    }
}

/// Groups in hexadecimal, separated by colons.
pub open spec fn join_groups(gs: Seq<int>) -> Seq<char>
    decreases gs.len(),
{
    if gs.len() == 0 {
        seq![]
    } else if gs.len() == 1 {
        hex_text(gs[0] as nat)
    } else {
        join_groups(gs.drop_last()) + seq![':'] + hex_text(gs.last() as nat)
    }
}

/// Text of an IPv6 address as it is displayed: an IPv4-mapped address as
/// `::ffff:a.b.c.d`; otherwise the groups in hexadecimal, with the longest
/// run of two or more zero groups written `::`.
pub open spec fn ipv6_text(v: u128) -> Seq<char> {
    let g = ipv6_segments(v);
    if g[0] == 0 && g[1] == 0 && g[2] == 0 && g[3] == 0 && g[4] == 0 && g[5] == 65535 {
        "::ffff:"@ + crate::ipnet::ipv4_text((g[6] * 65536 + g[7]) as u32)
    } else {
        let z = zero_span(g, 0, 0, 0, 0, 0);
        if z.1 > 1 {
            join_groups(g.subrange(0, z.0)) + "::"@ + join_groups(g.subrange(z.0 + z.1, 8))
        } else {
            join_groups(g)
        }
    }
}

proof fn lemma_segments_len(v: nat, n: nat)
    ensures
        segments_of(v, n).len() == n,
        forall|k: int| 0 <= k < n ==> 0 <= #[trigger] segments_of(v, n)[k] < 65536,
    decreases n,
{
    if n > 0 {
        lemma_segments_len(v / 65536, (n - 1) as nat);
    }
}

fn segments(v: u128) -> (r: Vec<u32>)
    ensures
        ints(r@) == ipv6_segments(v),
        r@.len() == 8,
{
    let mut gs: Vec<u32> = Vec::new();
    let mut z: usize = 0;
    while z < 8
        invariant
            0 <= z <= 8,
            gs@.len() == z,
        decreases 8 - z,
    {
        gs.push(0);
        z = z + 1;
    }
    let mut cur: u128 = v;
    let mut k: usize = 8;
    while k > 0
        invariant
            0 <= k <= 8,
            gs@.len() == 8,
            segments_of(v as nat, 8) == segments_of(cur as nat, k as nat) + ints(gs@.subrange(k as int, 8)),
        decreases k,
    {
        let ghost old_gs = gs@;
        let seg = (cur % 65536) as u32;
        gs.set(k - 1, seg);
        assert(ints(gs@.subrange(k - 1, 8)) =~= seq![(cur as nat % 65536) as int] + ints(old_gs.subrange(k as int, 8)));
        assert(segments_of(cur as nat, k as nat) == segments_of(cur as nat / 65536, (k - 1) as nat).push((cur as nat % 65536) as int));
        assert(segments_of(cur as nat / 65536, (k - 1) as nat).push((cur as nat % 65536) as int) + ints(old_gs.subrange(k as int, 8))
            =~= segments_of(cur as nat / 65536, (k - 1) as nat) + ints(gs@.subrange(k - 1, 8)));
        cur = cur / 65536;
        k = k - 1;
    }
    assert(gs@.subrange(0, 8) =~= gs@);
    gs
}

fn hex_digit_char(d: u32) -> (c: char)
    requires
        d < 16,
    ensures
        c == hex_char(d as nat),
{
    if d < 10 {
        ((('0' as u32) + d) as u8) as char
    } else {
        ((('a' as u32) + (d - 10)) as u8) as char
    }
}

fn hex_chars(n: u32) -> (r: Vec<char>)
    ensures
        r@ == hex_text(n as nat),
    decreases n,
{
    if n < 16 {
        let mut v: Vec<char> = Vec::new();
        v.push(hex_digit_char(n));
        assert(v@ =~= hex_text(n as nat));
        v
    } else {
        let mut v = hex_chars(n / 16);
        v.push(hex_digit_char(n % 16));
        assert(v@ =~= hex_text(n as nat));
        v
    }
}

/// The groups from `a` to `b`, joined.
fn join_hex(gs: &Vec<u32>, a: usize, b: usize) -> (r: Vec<char>)
    requires
        a <= b <= gs@.len(),
    ensures
        r@ == join_groups(ints(gs@).subrange(a as int, b as int)),
{
    let mut out: Vec<char> = Vec::new();
    let mut k: usize = a;
    assert(ints(gs@).subrange(a as int, a as int) =~= Seq::<int>::empty());
    while k < b
        invariant
            a <= k <= b <= gs@.len(),
            out@ == join_groups(ints(gs@).subrange(a as int, k as int)),
        decreases b - k,
    {
        let ghost prev = ints(gs@).subrange(a as int, k as int);
        let ghost next = ints(gs@).subrange(a as int, k + 1);
        assert(next.drop_last() =~= prev);
        assert(next.last() == gs@[k as int] as int);
        if k > a {
            out.push(':');
        } else {
            assert(next.len() == 1);
            assert(next[0] == gs@[k as int] as int);
        }
        let h = hex_chars(gs[k]);
        let ghost before = out@;
        crate::text::extend_chars(&mut out, &h);
        if k > a {
            assert(out@ =~= join_groups(prev) + seq![':'] + hex_text(gs@[k as int] as nat));
        } else {
            assert(prev.len() == 0);
            assert(join_groups(prev) =~= Seq::<char>::empty());
            assert(out@ =~= hex_text(gs@[k as int] as nat));
        }
        k = k + 1;
    }
    out
}

fn longest_zero_run(gs: &Vec<u32>) -> (r: (usize, usize))
    requires
        gs@.len() == 8,
    ensures
        (r.0 as int, r.1 as int) == zero_span(ints(gs@), 0, 0, 0, 0, 0),
        r.0 + r.1 <= 8,
{
    let ghost g = ints(gs@);
    let mut cs: usize = 0;
    let mut cl: usize = 0;
    let mut bs: usize = 0;
    let mut bl: usize = 0;
    let mut i: usize = 0;
    while i < 8
        invariant
            0 <= i <= 8,
            gs@.len() == 8,
            g == ints(gs@),
            cl <= i,
            cl > 0 ==> cs + cl == i,
            bs + bl <= i,
            zero_span(g, 0, 0, 0, 0, 0) == zero_span(g, i as int, cs as int, cl as int, bs as int, bl as int),
        decreases 8 - i,
    {
        if gs[i] == 0 {
            if cl == 0 {
                cs = i;
            }
            cl = cl + 1;
            if cl > bl {
                bs = cs;
                bl = cl;
            }
        } else {
            cs = 0;
            cl = 0;
        }
        i = i + 1;
    }
    (bs, bl)
}

/// Display an IPv6 address.
pub fn format_ipv6(v: u128) -> (r: String)
    ensures
        r@ == ipv6_text(v),
{
    let g = segments(v);
    proof {
        lemma_segments_len(v as nat, 8);
    }
    if g[0] == 0 && g[1] == 0 && g[2] == 0 && g[3] == 0 && g[4] == 0 && g[5] == 65535 {
        assert(ints(g@)[6] < 65536 && ints(g@)[7] < 65536);
        let low = g[6] * 65536 + g[7];
        let mut out = crate::text::chars_of("::ffff:");
        let four = crate::ipnet::format_ipv4(low);
        crate::text::extend_chars(&mut out, &crate::text::chars_of(four.as_str()));
        return crate::text::string_of(&out);
    }
    let (zs, zl) = longest_zero_run(&g);
    if zl > 1 {
        let mut out = join_hex(&g, 0, zs);
        crate::text::extend_chars(&mut out, &crate::text::chars_of("::"));
        let tail = join_hex(&g, zs + zl, 8);
        crate::text::extend_chars(&mut out, &tail);
        crate::text::string_of(&out)
    } else {
        let out = join_hex(&g, 0, 8);
        assert(ints(g@).subrange(0, 8) =~= ints(g@));
        crate::text::string_of(&out)
    }
}

} // verus!
