//! IP addresses and IPv4 networks: parsing, masks, containment and overlap,
//! and the words of `ip route`-style lines.

use vstd::prelude::*;
use crate::text::{is_ws, lead, parse_u32_spec, first_index_of};


verus! {

/// The parts of `s` between occurrences of `c`, as `str::split` yields them.
pub open spec fn split_on(s: Seq<char>, c: char) -> Seq<Seq<char>>
    decreases s.len(),
{
    if s.len() == 0 {
        seq![Seq::empty()]
    } else {
        let prev = split_on(s.drop_last(), c);
        if s.last() == c {
            prev.push(Seq::empty())
        } else {
            prev.update(prev.len() - 1, prev.last().push(s.last()))
        }
    }
}

proof fn lemma_split_on_nonempty(s: Seq<char>, c: char)
    ensures
        split_on(s, c).len() >= 1,
    decreases s.len(),
{
    if s.len() > 0 {
        lemma_split_on_nonempty(s.drop_last(), c);
    }
}

/// Split characters on a separator.
pub fn split_chars(s: &[char], c: char) -> (r: Vec<Vec<char>>)
    ensures
        r@.len() == split_on(s@, c).len(),
        forall|j: int| 0 <= j < r@.len() ==> (#[trigger] r@[j])@ == split_on(s@, c)[j],
{
    let mut parts: Vec<Vec<char>> = Vec::new();
    let mut cur: Vec<char> = Vec::new();
    let mut i: usize = 0;
    assert(s@.take(0) =~= Seq::<char>::empty());
    while i < s.len()
        invariant
            0 <= i <= s@.len(),
            parts@.len() + 1 == split_on(s@.take(i as int), c).len(),
            forall|j: int| 0 <= j < parts@.len() ==> (#[trigger] parts@[j])@ == split_on(s@.take(i as int), c)[j],
            cur@ == split_on(s@.take(i as int), c).last(),
        decreases s@.len() - i,
    {
        let ghost prev = split_on(s@.take(i as int), c);
        proof {
            lemma_split_on_nonempty(s@.take(i as int), c);
            assert(s@.take(i + 1).drop_last() =~= s@.take(i as int));
            assert(s@.take(i + 1).last() == s@[i as int]);
        }
        if s[i] == c {
            let done = cur;
            parts.push(done);
            cur = Vec::new();
            proof {
                let next = split_on(s@.take(i + 1), c);
                assert(next == prev.push(Seq::empty()));
                assert forall|j: int| 0 <= j < parts@.len() implies (#[trigger] parts@[j])@ == next[j] by {
                    assert(next[j] == prev[j]);
                }
                assert(cur@ =~= next.last());
            }
        } else {
            cur.push(s[i]);
            proof {
                let next = split_on(s@.take(i + 1), c);
                assert(next == prev.update(prev.len() - 1, prev.last().push(s@[i as int])));
                assert forall|j: int| 0 <= j < parts@.len() implies (#[trigger] parts@[j])@ == next[j] by {
                    assert(next[j] == prev[j]);
                }
            }
        }
        i = i + 1;
    }
    assert(s@.take(s@.len() as int) =~= s@);
    let ghost fin = split_on(s@, c);
    parts.push(cur);
    assert forall|j: int| 0 <= j < parts@.len() implies (#[trigger] parts@[j])@ == fin[j] by {
        if j < parts@.len() - 1 {
        } else {
            assert(parts@[j] == cur);
        }
    }
    parts
}

/// One dotted-quad octet as `Ipv4Addr` reads it: one to three digits, no
/// leading zero, at most 255.
pub open spec fn octet_ok(p: Seq<char>) -> bool {
    1 <= p.len() <= 3 && crate::text::all_digits(p) && (p.len() == 1 || p[0] != '0')
        && crate::text::decimal_value(p) <= 255
}

/// The address of a dotted-quad IPv4 text.
pub open spec fn parsed_ipv4(text: Seq<char>) -> Option<u32> {
    let parts = split_on(text, '.');
    if parts.len() == 4 && octet_ok(parts[0]) && octet_ok(parts[1]) && octet_ok(parts[2]) && octet_ok(parts[3]) {
        Some((crate::text::decimal_value(parts[0]) * 16777216 + crate::text::decimal_value(parts[1]) * 65536
            + crate::text::decimal_value(parts[2]) * 256 + crate::text::decimal_value(parts[3])) as u32)
    } else {
        None
    }
}

fn parse_octet(p: &[char]) -> (r: Option<u32>)
    ensures
        octet_ok(p@) ==> r == Some(crate::text::decimal_value(p@) as u32),
        !octet_ok(p@) ==> r is None,
        r matches Some(v) ==> v <= 255,
{
    if p.len() < 1 || p.len() > 3 {
        return None;
    }
    if !('0' <= p[0] && p[0] <= '9') {
        assert(!crate::text::is_digit(p@[0]));
        return None;
    }
    assert(crate::text::unsigned_digits(p@) == p@);
    if p.len() > 1 && p[0] == '0' {
        return None;
    }
    let parsed = crate::text::parse_u32_dec(p);
    assert(parsed == crate::text::parse_u32_spec(p@));
    match parsed {
        Some(v) => {
            assert(crate::text::all_digits(p@));
            proof {
                crate::text::lemma_decimal_value_nonneg(p@);
            }
            assert(v as int == crate::text::decimal_value(p@));
            if v > 255 {
                return None;
            }
            Some(v)
        },
        None => None,
    }
}

pub fn parse_ipv4_chars(text: &[char]) -> (r: Option<u32>)
    ensures
        r == parsed_ipv4(text@),
{
    let parts = split_chars(text, '.');
    if parts.len() != 4 {
        return None;
    }
    let a = match parse_octet(&parts[0]) { Some(v) => v, None => return None };
    let b = match parse_octet(&parts[1]) { Some(v) => v, None => return None };
    let c = match parse_octet(&parts[2]) { Some(v) => v, None => return None };
    let d = match parse_octet(&parts[3]) { Some(v) => v, None => return None };
    let r = a * 16777216 + b * 65536 + c * 256 + d;
    proof {
        let ps = split_on(text@, '.');
        assert(parts@[0]@ == ps[0]);
        assert(parts@[1]@ == ps[1]);
        assert(parts@[2]@ == ps[2]);
        assert(parts@[3]@ == ps[3]);
        assert(octet_ok(ps[0]) && octet_ok(ps[1]) && octet_ok(ps[2]) && octet_ok(ps[3]));
        crate::text::lemma_decimal_value_nonneg(ps[0]);
        crate::text::lemma_decimal_value_nonneg(ps[1]);
        crate::text::lemma_decimal_value_nonneg(ps[2]);
        crate::text::lemma_decimal_value_nonneg(ps[3]);
        assert(a as int == crate::text::decimal_value(ps[0]));
        assert(b as int == crate::text::decimal_value(ps[1]));
        assert(c as int == crate::text::decimal_value(ps[2]));
        assert(d as int == crate::text::decimal_value(ps[3]));
        assert(a * 16777216 + b * 65536 + c * 256 + d <= u32::MAX) by (nonlinear_arith)
            requires a <= 255, b <= 255, c <= 255, d <= 255;
    }
    Some(r)
}

/// Parse a dotted-quad IPv4 address.
pub fn parse_ipv4(text: &str) -> (r: Option<u32>)
    ensures
        r == parsed_ipv4(text@),
{
    let cs = crate::text::chars_of(text);
    parse_ipv4_chars(&cs)
}

/// Dotted-quad text of an IPv4 address.
pub open spec fn ipv4_text(a: u32) -> Seq<char> {
    crate::text::decimal((a / 16777216) as nat) + seq!['.'] + crate::text::decimal(((a / 65536) % 256) as nat) + seq!['.']
        + crate::text::decimal(((a / 256) % 256) as nat) + seq!['.'] + crate::text::decimal((a % 256) as nat)
}

pub fn format_ipv4(a: u32) -> (r: String)
    ensures
        r@ == ipv4_text(a),
{
    let mut out = crate::text::decimal_chars((a / 16777216) as u64);
    out.push('.');
    crate::text::extend_chars(&mut out, &crate::text::decimal_chars(((a / 65536) % 256) as u64));
    out.push('.');
    crate::text::extend_chars(&mut out, &crate::text::decimal_chars(((a / 256) % 256) as u64));
    out.push('.');
    crate::text::extend_chars(&mut out, &crate::text::decimal_chars((a % 256) as u64));
    assert(out@ =~= ipv4_text(a));
    crate::text::string_of(&out)
}

/// Network mask of a prefix length.
pub open spec fn spec_mask(prefix: u8) -> u32 {
    if prefix == 0 {
        0
    } else {
        (0xffff_ffffu32 << ((32 - prefix) as u32)) as u32
    }
}

pub fn mask(prefix: u8) -> (m: u32)
    requires
        prefix <= 32,
    ensures
        m == spec_mask(prefix),
{
    if prefix == 0 {
        0
    } else {
        0xffff_ffffu32 << ((32 - prefix) as u32)
    }
}

/// An IPv4 network: the masked address and its prefix length.
#[derive(Clone, Copy, Debug, PartialEq, Eq, Structural)]
pub struct Ipv4Net {
    pub network: u32,
    pub prefix: u8,
}

/// A prefix length as `str::parse::<u8>` reads it.
pub open spec fn parsed_u8(text: Seq<char>) -> Option<u8> {
    match parse_u32_spec(text) {
        Some(v) => if v <= 255 {
            Some(v as u8)
        } else {
            None
        },
        None => None,
    }
}

/// `a.b.c.d/p`: the network of the address under the prefix (at most 32).
pub open spec fn spec_parse_net(s: Seq<char>) -> Option<Ipv4Net> {
    if exists|k: int| first_index_of(s, '/', k) {
        let k = choose|k: int| first_index_of(s, '/', k);
        match (parsed_ipv4(s.take(k)), parsed_u8(s.skip(k + 1))) {
            (Some(ip), Some(p)) => if p <= 32 {
                Some(Ipv4Net { network: ip & spec_mask(p), prefix: p })
            } else {
                None
            },
            _ => None,
        }
    } else {
        None
    }
}

impl Ipv4Net {
    pub fn parse_chars(value: &[char]) -> (r: Option<Ipv4Net>)
        ensures
            r == spec_parse_net(value@),
            r matches Some(n) ==> n.prefix <= 32,
    {
        match crate::text::find_char(value, '/') {
            None => None,
            Some(k) => {
                proof {
                    let c = choose|k2: int| first_index_of(value@, '/', k2);
                    assert(c == k);
                }
                let n = value.len();
                assert(k < n);
                let left = crate::text::slice_chars(value, 0, k);
                let right = crate::text::slice_chars(value, k + 1, n);
                assert(left@ == value@.take(k as int));
                assert(right@ == value@.skip(k + 1));
                let ip = match parse_ipv4_chars(&left) {
                    Some(ip) => ip,
                    None => return None,
                };
                let p = match crate::text::parse_u32_dec(&right) {
                    Some(p) => p,
                    None => return None,
                };
                if p > 32 {
                    return None;
                }
                let m = mask(p as u8);
                Some(Ipv4Net { network: ip & m, prefix: p as u8 })
            },
        }
    }

    pub fn parse(value: &str) -> (r: Option<Ipv4Net>)
        ensures
            r == spec_parse_net(value@),
            r matches Some(n) ==> n.prefix <= 32,
    {
        let cs = crate::text::chars_of(value);
        Ipv4Net::parse_chars(&cs)
    }

    pub open spec fn spec_contains_ip(self, ip: u32) -> bool {
        (ip & spec_mask(self.prefix)) == self.network
    }

    pub fn contains_ip(&self, ip: u32) -> (r: bool)
        requires
            self.prefix <= 32,
        ensures
            r == self.spec_contains_ip(ip),
    {
        (ip & mask(self.prefix)) == self.network
    }

    pub open spec fn spec_overlaps(self, other: Ipv4Net) -> bool {
        let p = if self.prefix < other.prefix {
            self.prefix
        } else {
            other.prefix
        };
        (self.network & spec_mask(p)) == (other.network & spec_mask(p))
    }

    pub fn overlaps(&self, other: &Ipv4Net) -> (r: bool)
        requires
            self.prefix <= 32,
            other.prefix <= 32,
        ensures
            r == self.spec_overlaps(*other),
    {
        let p = if self.prefix < other.prefix {
            self.prefix
        } else {
            other.prefix
        };
        let m = mask(p);
        (self.network & m) == (other.network & m)
    }
}

/// Law: overlap of two networks does not depend on their order.
pub proof fn overlap_is_symmetric(a: Ipv4Net, b: Ipv4Net)
    ensures
        a.spec_overlaps(b) == b.spec_overlaps(a),
{
}

/// End of the word that starts at `i`.
pub open spec fn word_end(s: Seq<char>, i: int) -> int
    decreases s.len() - i,
{
    if 0 <= i < s.len() && !is_ws(s[i]) {
        word_end(s, i + 1)
    } else {
        i
    }
}

pub proof fn lemma_lead_bounds(s: Seq<char>, i: int)
    requires
        0 <= i,
    ensures
        lead(s, i) >= i,
        lead(s, i) < s.len() ==> !is_ws(s[lead(s, i)]),
        i <= s.len() ==> lead(s, i) <= s.len(),
        forall|j: int| i <= j < lead(s, i) ==> is_ws(#[trigger] s[j]),
    decreases s.len() - i,
{
    if 0 <= i < s.len() && is_ws(s[i]) {
        lemma_lead_bounds(s, i + 1);
    }
}

pub proof fn lemma_word_end_bounds(s: Seq<char>, i: int)
    requires
        0 <= i,
    ensures
        word_end(s, i) >= i,
        i < s.len() && !is_ws(s[i]) ==> word_end(s, i) > i,
        i <= s.len() ==> word_end(s, i) <= s.len(),
        forall|j: int| i <= j < word_end(s, i) ==> !is_ws(#[trigger] s[j]),
    decreases s.len() - i,
{
    if 0 <= i < s.len() && !is_ws(s[i]) {
        lemma_word_end_bounds(s, i + 1);
    }
}

/// The whitespace-separated words of `s` from position `i` on, as
/// `str::split_whitespace` yields them.
pub open spec fn words_from(s: Seq<char>, i: int) -> Seq<Seq<char>>
    decreases s.len() - i,
{
    if i < 0 || i >= s.len() {
        Seq::empty()
    } else {
        let a = lead(s, i);
        if a >= s.len() {
            Seq::empty()
        } else {
            let b = word_end(s, a);
            proof {
                lemma_lead_bounds(s, i);
                lemma_word_end_bounds(s, a);
            }
            seq![s.subrange(a, b)] + words_from(s, b)
        }
    }
}

/// The whitespace-separated words of `s`.
pub open spec fn words(s: Seq<char>) -> Seq<Seq<char>> {
    words_from(s, 0)
}

/// Split a line into its whitespace-separated words.
pub fn split_words(s: &[char]) -> (r: Vec<Vec<char>>)
    ensures
        r@.len() == words(s@).len(),
        forall|j: int| 0 <= j < r@.len() ==> (#[trigger] r@[j])@ == words(s@)[j],
{
    let n = s.len();
    let mut out: Vec<Vec<char>> = Vec::new();
    let ghost mut acc: Seq<Seq<char>> = Seq::empty();
    let mut i: usize = 0;
    while i < n
        invariant
            n == s@.len(),
            0 <= i <= n,
            acc + words_from(s@, i as int) == words(s@),
            out@.len() == acc.len(),
            forall|j: int| 0 <= j < out@.len() ==> (#[trigger] out@[j])@ == acc[j],
        decreases n - i,
    {
        let ghost i0 = i as int;
        proof {
            lemma_lead_bounds(s@, i0);
        }
        let mut a: usize = i;
        while a < n && crate::text::char_is_ws(s[a])
            invariant
                n == s@.len(),
                i0 <= a <= n,
                lead(s@, i0) == lead(s@, a as int),
            decreases n - a,
        {
            a = a + 1;
        }
        if a >= n {
            assert(words_from(s@, i0) == Seq::<Seq<char>>::empty());
            assert(acc + words_from(s@, i0) == acc);
            i = n;
            assert(words_from(s@, n as int) == Seq::<Seq<char>>::empty());
            assert(acc + words_from(s@, n as int) == acc);
        } else {
            proof {
                lemma_word_end_bounds(s@, a as int);
            }
            let mut b: usize = a;
            while b < n && !crate::text::char_is_ws(s[b])
                invariant
                    n == s@.len(),
                    a <= b <= n,
                    word_end(s@, a as int) == word_end(s@, b as int),
                decreases n - b,
            {
                b = b + 1;
            }
            let w = crate::text::slice_chars(s, a, b);
            proof {
                assert(words_from(s@, i0) == seq![s@.subrange(a as int, b as int)] + words_from(s@, b as int));
                assert(acc + words_from(s@, i0) == acc.push(s@.subrange(a as int, b as int)) + words_from(s@, b as int));
                acc = acc.push(s@.subrange(a as int, b as int));
            }
            out.push(w);
            i = b;
        }
    }
    proof {
        assert(words_from(s@, i as int) == Seq::<Seq<char>>::empty());
        assert(acc == words(s@));
    }
    out
}

/// First word of a route line: its destination.
pub open spec fn spec_route_destination(line: Seq<char>) -> Option<Seq<char>> {
    if words(line).len() > 0 {
        Some(words(line)[0])
    } else {
        None
    }
}

pub fn route_destination(line: &str) -> (r: Option<String>)
    ensures
        r matches Some(d) ==> spec_route_destination(line@) == Some(d@),
        r is None ==> spec_route_destination(line@) is None,
{
    let cs = crate::text::chars_of(line);
    let ws = split_words(&cs);
    if ws.len() > 0 {
        Some(crate::text::string_of(&ws[0]))
    } else {
        None
    }
}

/// Destination network of a route line: a CIDR, or a host address as /32;
/// the default route has none.
pub open spec fn spec_route_destination_network(line: Seq<char>) -> Option<Ipv4Net> {
    match spec_route_destination(line) {
        None => None,
        Some(d) => if d == "default"@ {
            None
        } else if d.contains('/') {
            spec_parse_net(d)
        } else {
            spec_parse_net(d + "/32"@)
        },
    }
}

pub fn route_destination_network(line: &str) -> (r: Option<Ipv4Net>)
    ensures
        r == spec_route_destination_network(line@),
        r matches Some(n) ==> n.prefix <= 32,
{
    let cs = crate::text::chars_of(line);
    let ws = split_words(&cs);
    if ws.len() == 0 {
        return None;
    }
    let d = &ws[0];
    let default_word = crate::text::chars_of("default");
    if crate::text::chars_eq(d, &default_word) {
        return None;
    }
    match crate::text::find_char(d, '/') {
        Some(k) => {
            assert(d@.contains('/')) by {
                assert(d@[k as int] == '/');
            }
            Ipv4Net::parse_chars(d)
        },
        None => {
            let mut full = d.clone();
            let host = crate::text::chars_of("/32");
            crate::text::extend_chars(&mut full, &host);
            Ipv4Net::parse_chars(&full)
        },
    }
}

/// A device word as printed: the name before an optional `(index)`.
pub open spec fn dev_name(w: Seq<char>) -> Seq<char> {
    if exists|k: int| first_index_of(w, '(', k) {
        w.take(choose|k: int| first_index_of(w, '(', k))
    } else {
        w
    }
}

fn dev_name_of(w: &[char]) -> (r: Vec<char>)
    ensures
        r@ == dev_name(w@),
{
    match crate::text::find_char(w, '(') {
        Some(k) => {
            proof {
                let c = choose|k2: int| first_index_of(w@, '(', k2);
                assert(c == k);
            }
            crate::text::slice_chars(w, 0, k)
        },
        None => {
            let r = crate::text::slice_chars(w, 0, w.len());
            assert(r@ =~= w@);
            r
        },
    }
}

/// The line names `dev` as its output device (`dev NAME`).
pub open spec fn spec_has_dev(line: Seq<char>, dev: Seq<char>) -> bool {
    exists|k: int| 0 <= k && k + 1 < words(line).len() && #[trigger] words(line)[k] == "dev"@ && dev_name(words(line)[k + 1]) == dev
}

pub fn has_dev(line: &str, dev: &str) -> (r: bool)
    ensures
        r == spec_has_dev(line@, dev@),
{
    let cs = crate::text::chars_of(line);
    let ws = split_words(&cs);
    let dev_word = crate::text::chars_of("dev");
    let target = crate::text::chars_of(dev);
    if ws.len() < 2 {
        return false;
    }
    let mut k: usize = 0;
    let last = ws.len() - 1;
    while k < last
        invariant
            last + 1 == ws@.len(),
            ws@.len() == words(line@).len(),
            forall|j: int| 0 <= j < ws@.len() ==> (#[trigger] ws@[j])@ == words(line@)[j],
            dev_word@ == "dev"@,
            target@ == dev@,
            0 <= k,
            k + 1 <= ws@.len(),
            forall|j: int| 0 <= j < k ==> !(#[trigger] words(line@)[j] == "dev"@ && dev_name(words(line@)[j + 1]) == dev@),
        decreases ws@.len() - k,
    {
        let a = &ws[k];
        let b = &ws[k + 1];
        if crate::text::chars_eq(a, &dev_word) {
            let name = dev_name_of(b);
            if crate::text::chars_eq(&name, &target) {
                assert(words(line@)[k as int] == "dev"@);
                return true;
            }
        }
        k = k + 1;
    }
    false
}

/// The return device name in effect: a configured name that is not blank
/// and not `auto`.
pub open spec fn managed_return_dev(return_dev: Option<Seq<char>>) -> Option<Seq<char>> {
    match return_dev {
        Some(d) => {
            let t = crate::text::trim(d);
            if t.len() > 0 && t != "auto"@ {
                Some(t)
            } else {
                None
            }
        },
        None => None,
    }
}

/// A route through the gateway VXLAN device, or through the managed backend
/// return device, is edge-lb's own and never an overlay conflict.
pub open spec fn spec_is_edge_lb_overlay_device(vxlan_dev: Seq<char>, return_dev: Option<Seq<char>>, line: Seq<char>) -> bool {
    spec_has_dev(line, vxlan_dev) || (managed_return_dev(return_dev) matches Some(d) && spec_has_dev(line, d))
}

pub fn is_edge_lb_overlay_device(vxlan_dev: &str, return_dev: Option<&str>, line: &str) -> (r: bool)
    ensures
        r == spec_is_edge_lb_overlay_device(
            vxlan_dev@,
            match return_dev {
                Some(d) => Some(d@),
                None => None,
            },
            line@,
        ),
{
    if has_dev(line, vxlan_dev) {
        return true;
    }
    match return_dev {
        None => false,
        Some(d) => {
            let t = crate::text::trimmed(d);
            let auto_word = crate::text::chars_of("auto");
            if t.len() == 0 || crate::text::chars_eq(&t, &auto_word) {
                return false;
            }
            let ts = crate::text::string_of(&t);
            has_dev(line, ts.as_str())
        },
    }
}

} // verus!
