//! Pagination parameters of list endpoints, read from a URL query string.

use vstd::prelude::*;
use vstd::string::*;
use vstd::utf8::{encode_utf8, decode_utf8, valid_utf8};
use crate::text::{trim, lower, first_index_of, unsigned_digits, all_digits, decimal_value};
use crate::ipnet::split_on;

verus! {

/// Pagination and search requested by a list query.
#[derive(Clone, Debug, PartialEq, Eq)]
pub struct PageQuery {
    /// Some pagination or search parameter was given.
    pub enabled: bool,
    pub page: usize,
    pub per_page: usize,
    /// Search text, trimmed and in ASCII lower case.
    pub q: String,
}

/// Text of bytes as `String::from_utf8_lossy` gives it: invalid sequences
/// become U+FFFD.
pub uninterp spec fn lossy_utf8(bytes: Seq<u8>) -> Seq<char>;

/// `String::from_utf8_lossy`. Valid UTF-8 decodes to its characters; the
/// replacement of invalid sequences is left to the named result.
#[verifier::external_body]
fn from_utf8_lossy(bytes: &[u8]) -> (r: String)
    ensures
        r@ == lossy_utf8(bytes@),
        valid_utf8(bytes@) ==> r@ == decode_utf8(bytes@),
{
    String::from_utf8_lossy(bytes).into_owned()
}

/// Value of a hexadecimal digit byte.
pub open spec fn hex_byte(b: u8) -> Option<u8> {
    if 48 <= b <= 57 {
        Some((b - 48) as u8)
    } else if 97 <= b <= 102 {
        Some((b - 87) as u8)
    } else if 65 <= b <= 70 {
        Some((b - 55) as u8)
    } else {
        None
    }
}

fn hex(b: u8) -> (r: Option<u8>)
    ensures
        r == hex_byte(b),
{
    if 48 <= b && b <= 57 {
        Some(b - 48)
    } else if 97 <= b && b <= 102 {
        Some(b - 87)
    } else if 65 <= b && b <= 70 {
        Some(b - 55)
    } else {
        None
    }
}

/// Query-value decoding: `+` is a space and `%` followed by two hex digits
/// is the byte they spell; anything else stays as it is.
pub open spec fn pct_decode(b: Seq<u8>) -> Seq<u8>
    decreases b.len(),
{
    if b.len() == 0 {
        Seq::empty()
    } else if b[0] == 43 {
        seq![32u8] + pct_decode(b.drop_first())
    } else if b[0] == 37 && 2 < b.len() && hex_byte(b[1]) is Some && hex_byte(b[2]) is Some {
        seq![(hex_byte(b[1]).unwrap() * 16 + hex_byte(b[2]).unwrap()) as u8] + pct_decode(b.subrange(3, b.len() as int))
    } else {
        seq![b[0]] + pct_decode(b.drop_first())
    }
}

fn decode_query_bytes(b: &[u8]) -> (r: Vec<u8>)
    ensures
        r@ == pct_decode(b@),
{
    let mut out: Vec<u8> = Vec::new();
    let mut i: usize = 0;
    assert(b@.subrange(0, b@.len() as int) =~= b@);
    assert(out@ + pct_decode(b@) =~= pct_decode(b@));
    while i < b.len()
        invariant
            0 <= i <= b@.len(),
            out@ + pct_decode(b@.subrange(i as int, b@.len() as int)) == pct_decode(b@),
        decreases b@.len() - i,
    {
        let ghost rest = b@.subrange(i as int, b@.len() as int);
        if b[i] == 43 {
            assert(rest.drop_first() =~= b@.subrange(i + 1, b@.len() as int));
            out.push(32u8);
            assert(out@ + pct_decode(b@.subrange(i + 1, b@.len() as int)) =~= pct_decode(b@));
            i = i + 1;
        } else if b[i] == 37 && b.len() - i > 2 && hex(b[i + 1]).is_some() && hex(b[i + 2]).is_some() {
            let hi = hex(b[i + 1]).unwrap();
            let lo = hex(b[i + 2]).unwrap();
            assert(rest.subrange(3, rest.len() as int) =~= b@.subrange(i + 3, b@.len() as int));
            out.push(hi * 16 + lo);
            assert(out@ + pct_decode(b@.subrange(i + 3, b@.len() as int)) =~= pct_decode(b@));
            i = i + 3;
        } else {
            assert(rest.drop_first() =~= b@.subrange(i + 1, b@.len() as int));
            out.push(b[i]);
            assert(out@ + pct_decode(b@.subrange(i + 1, b@.len() as int)) =~= pct_decode(b@));
            i = i + 1;
        }
    }
    assert(out@ + pct_decode(b@.subrange(b@.len() as int, b@.len() as int)) =~= out@);
    out
}

/// Text of bytes: valid UTF-8 decodes to its characters, anything else as
/// `String::from_utf8_lossy` gives it.
pub open spec fn utf8_text(bytes: Seq<u8>) -> Seq<char> {
    if valid_utf8(bytes) {
        decode_utf8(bytes)
    } else {
        lossy_utf8(bytes)
    }
}

/// A decoded search text: trimmed and ASCII lower-cased.
pub open spec fn search_text(value: Seq<char>) -> Seq<char> {
    lower(trim(utf8_text(pct_decode(encode_utf8(value)))))
}

/// `str::parse::<usize>`: `Some(v)` exactly for a well-formed number that fits.
pub open spec fn parse_usize_spec(s: Seq<char>) -> Option<usize> {
    let d = unsigned_digits(s);
    if d.len() > 0 && all_digits(d) && decimal_value(d) <= usize::MAX {
        Some(decimal_value(d) as usize)
    } else {
        None
    }
}

fn parse_usize_dec(s: &[char]) -> (r: Option<usize>)
    ensures
        r == parse_usize_spec(s@),
{
    let mut i: usize = 0;
    if s.len() > 0 && s[0] == '+' {
        i = 1;
    }
    let start = i;
    assert(s@.subrange(start as int, s@.len() as int) =~= unsigned_digits(s@));
    if i >= s.len() {
        return None;
    }
    let mut v: usize = 0;
    while i < s.len()
        invariant
            start <= i <= s@.len(),
            start <= 1,
            s@.subrange(start as int, s@.len() as int) == unsigned_digits(s@),
            all_digits(s@.subrange(start as int, i as int)),
            v as int == decimal_value(s@.subrange(start as int, i as int)),
        decreases s@.len() - i,
    {
        let c = s[i];
        if !('0' <= c && c <= '9') {
            proof {
                let d = unsigned_digits(s@);
                assert(d[i - start] == c);
                assert(!all_digits(d));
            }
            return None;
        }
        let ghost prev = s@.subrange(start as int, i as int);
        let ghost next = s@.subrange(start as int, i + 1);
        assert(next.drop_last() =~= prev);
        assert(next.last() == c);
        assert(all_digits(next)) by {
            assert forall|j: int| 0 <= j < next.len() implies crate::text::is_digit(#[trigger] next[j]) by {
                if j < prev.len() {
                    assert(next[j] == prev[j]);
                }
            }
        }
        let d: usize = (c as u32 - '0' as u32) as usize;
        assert(decimal_value(next) == v * 10 + d);
        let nv = match v.checked_mul(10) {
            Some(t) => t.checked_add(d),
            None => None,
        };
        match nv {
            None => {
                proof {
                    let dd = unsigned_digits(s@);
                    assert(dd.take((i + 1 - start) as int) =~= next);
                    crate::text::lemma_decimal_prefix_bound(dd, (i + 1 - start) as int);
                    crate::text::lemma_decimal_value_nonneg(prev);
                }
                return None;
            },
            Some(n) => {
                v = n;
            },
        }
        i = i + 1;
    }
    assert(s@.subrange(start as int, s@.len() as int) == unsigned_digits(s@));
    Some(v)
}

/// A query pair split at its first `=`; a pair without one is a bare key.
pub open spec fn pair_key(part: Seq<char>) -> Seq<char> {
    if exists|k: int| first_index_of(part, '=', k) {
        part.take(choose|k: int| first_index_of(part, '=', k))
    } else {
        part
    }
}

pub open spec fn pair_value(part: Seq<char>) -> Seq<char> {
    if exists|k: int| first_index_of(part, '=', k) {
        part.skip((choose|k: int| first_index_of(part, '=', k)) + 1)
    } else {
        Seq::empty()
    }
}

/// The page size keys.
pub open spec fn is_page_size_key(key: Seq<char>) -> bool {
    key == "per_page"@ || key == "perPage"@ || key == "page_size"@ || key == "pageSize"@
}

/// One `key=value` pair applied to (enabled, page, per_page, q): `page`
/// (at least 1, default 1), a page size key (1 to 200, default 20) and
/// `q`; other keys are ignored.
pub open spec fn apply_pair(st: (bool, usize, usize, Seq<char>), part: Seq<char>) -> (bool, usize, usize, Seq<char>) {
    let key = pair_key(part);
    let value = pair_value(part);
    if key == "page"@ {
        (true, match parse_usize_spec(value) {
            Some(v) => if v < 1 { 1usize } else { v },
            None => 1usize,
        }, st.2, st.3)
    } else if is_page_size_key(key) {
        (true, st.1, match parse_usize_spec(value) {
            Some(v) => if v < 1 { 1usize } else if v > 200 { 200usize } else { v },
            None => 20usize,
        }, st.3)
    } else if key == "q"@ {
        (true, st.1, st.2, search_text(value))
    } else {
        st
    }
}

/// The non-empty `&`-separated pairs applied in order.
pub open spec fn apply_pairs(parts: Seq<Seq<char>>) -> (bool, usize, usize, Seq<char>)
    decreases parts.len(),
{
    if parts.len() == 0 {
        (false, 1usize, 20usize, Seq::empty())
    } else {
        let prev = apply_pairs(parts.drop_last());
        if parts.last().len() == 0 {
            prev
        } else {
            apply_pair(prev, parts.last())
        }
    }
}

fn same(a: &[char], b: &str) -> (r: bool)
    ensures
        r == (a@ == b@),
{
    crate::text::chars_eq(a, &crate::text::chars_of(b))
}

pub fn page_query(query: &str) -> (r: PageQuery)
    ensures
        (r.enabled, r.page, r.per_page, r.q@) == apply_pairs(split_on(query@, '&')),
{
    let parts = crate::ipnet::split_chars(&crate::text::chars_of(query), '&');
    let ghost ps = split_on(query@, '&');
    let mut out = PageQuery { enabled: false, page: 1, per_page: 20, q: String::new() };
    let mut i: usize = 0;
    while i < parts.len()
        invariant
            0 <= i <= parts@.len(),
            parts@.len() == ps.len(),
            forall|j: int| 0 <= j < parts@.len() ==> (#[trigger] parts@[j])@ == ps[j],
            (out.enabled, out.page, out.per_page, out.q@) == apply_pairs(ps.take(i as int)),
        decreases parts@.len() - i,
    {
        let part = &parts[i];
        proof {
            assert(ps.take(i + 1).drop_last() =~= ps.take(i as int));
            assert(ps.take(i + 1).last() == part@);
        }
        if part.len() > 0 {
            let (key, value): (Vec<char>, Vec<char>) = match crate::text::find_char(part, '=') {
                Some(k) => {
                    proof {
                        let c = choose|k2: int| first_index_of(part@, '=', k2);
                        assert(first_index_of(part@, '=', c));
                        assert(c == k);
                    }
                    let n = part.len();
                    (crate::text::slice_chars(part, 0, k), crate::text::slice_chars(part, k + 1, n))
                },
                None => (crate::text::slice_chars(part, 0, part.len()), Vec::new()),
            };
            assert(key@ == pair_key(part@)) by {
                assert(part@.subrange(0, part@.len() as int) =~= part@);
            }
            assert(value@ =~= pair_value(part@));
            if same(&key, "page") {
                out.enabled = true;
                out.page = match parse_usize_dec(&value) {
                    Some(v) => if v < 1 { 1 } else { v },
                    None => 1,
                };
            } else if same(&key, "per_page") || same(&key, "perPage") || same(&key, "page_size") || same(&key, "pageSize") {
                out.enabled = true;
                out.per_page = match parse_usize_dec(&value) {
                    Some(v) => if v < 1 { 1 } else if v > 200 { 200 } else { v },
                    None => 20,
                };
            } else if same(&key, "q") {
                out.enabled = true;
                let text = crate::text::string_of(&value);
                let decoded = decode_query_bytes(text.as_str().as_bytes());
                let s = from_utf8_lossy(&decoded);
                let t = crate::text::trimmed(s.as_str());
                out.q = crate::text::string_of(&crate::text::lower_chars(&t));
            }
        }
        i = i + 1;
    }
    assert(ps.take(ps.len() as int) =~= ps);
    out
}


proof fn lemma_page_size_keys_not_empty()
    ensures
        !is_page_size_key(Seq::<char>::empty()),
        !is_page_size_key("page"@),
{
    reveal_strlit("per_page");
    reveal_strlit("perPage");
    reveal_strlit("page_size");
    reveal_strlit("pageSize");
    reveal_strlit("page");
    assert("per_page"@.len() == 8);
    assert("perPage"@.len() == 7);
    assert("page_size"@.len() == 9);
    assert("pageSize"@.len() == 8);
    assert("page"@.len() == 4);
}

/// Law: the page size is always between 1 and 200.
pub proof fn page_size_is_bounded(parts: Seq<Seq<char>>)
    ensures
        1 <= apply_pairs(parts).2 <= 200,
    decreases parts.len(),
{
    if parts.len() > 0 {
        page_size_is_bounded(parts.drop_last());
    }
}

/// Law: the last page-size pair decides the page size: a value from 1 to
/// 200 is taken as it is, whatever pairs of other keys follow it.
pub proof fn page_size_in_range_is_kept(parts: Seq<Seq<char>>, i: int, n: usize)
    requires
        0 <= i < parts.len(),
        is_page_size_key(pair_key(parts[i])),
        parse_usize_spec(pair_value(parts[i])) == Some(n),
        1 <= n <= 200,
        forall|j: int| i < j < parts.len() ==> !is_page_size_key(#[trigger] pair_key(parts[j])),
    ensures
        apply_pairs(parts).2 == n,
    decreases parts.len(),
{
    lemma_page_size_keys_not_empty();
    if parts.len() - 1 > i {
        let d = parts.drop_last();
        assert forall|j: int| i < j < d.len() implies !is_page_size_key(#[trigger] pair_key(d[j])) by {
            assert(d[j] == parts[j]);
        }
        page_size_in_range_is_kept(d, i, n);
        assert(!is_page_size_key(pair_key(parts[parts.len() - 1])));
    } else {
        if parts[i].len() == 0 {
            assert(!(exists|k: int| first_index_of(parts[i], '=', k)));
            assert(pair_key(parts[i]) =~= Seq::<char>::empty());
        }
        assert(parts.last() == parts[i]);
        assert(pair_key(parts[i]) != "page"@);
    }
}


/// Law: the last `page` pair decides the page: a page number of at least 1
/// is taken as it is, whatever pairs of other keys follow it.
pub proof fn page_number_is_kept(parts: Seq<Seq<char>>, i: int, n: usize)
    requires
        0 <= i < parts.len(),
        pair_key(parts[i]) == "page"@,
        parse_usize_spec(pair_value(parts[i])) == Some(n),
        1 <= n,
        forall|j: int| i < j < parts.len() ==> #[trigger] pair_key(parts[j]) != "page"@,
    ensures
        apply_pairs(parts).1 == n,
    decreases parts.len(),
{
    reveal_strlit("page");
    assert("page"@.len() == 4);
    if parts.len() - 1 > i {
        let d = parts.drop_last();
        assert forall|j: int| i < j < d.len() implies #[trigger] pair_key(d[j]) != "page"@ by {
            assert(d[j] == parts[j]);
        }
        page_number_is_kept(d, i, n);
        assert(pair_key(parts[parts.len() - 1]) != "page"@);
    } else {
        if parts[i].len() == 0 {
            assert(!(exists|k: int| first_index_of(parts[i], '=', k)));
            assert(pair_key(parts[i]) =~= Seq::<char>::empty());
        }
        assert(parts.last() == parts[i]);
    }
}

} // verus!
