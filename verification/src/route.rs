//! Backend policy routing rules: the edge-owned fwmark and table ranges, the
//! marks and tables derived per gateway slot, and the parsing of `fwmark`
//! settings.

use vstd::prelude::*;
use crate::text::{trim, parse_u32_spec, parse_u32_hex_spec, has_prefix, first_index_of};

verus! {

/// Highest DSCP value a return path can use.
pub const EDGE_DSCP_LIMIT: u32 = 63;
/// Width of one gateway slot in the mark and table ranges.
pub const RULE_BAND: u32 = 64;
/// Number of gateway slots an HA deployment can use.
pub const GATEWAY_SLOTS: u32 = 4;
/// First fwmark owned by edge-lb.
pub const EDGE_CURRENT_MARK_BASE: u32 = 0x1040;
/// First fwmark past the edge-lb range.
pub const EDGE_MARK_LIMIT: u32 = 0x1140;
/// First routing table owned by edge-lb.
pub const EDGE_CURRENT_TABLE_BASE: u32 = 28000;
/// First routing table past the edge-lb range.
pub const EDGE_TABLE_LIMIT: u32 = 28256;

/// Return-traffic fwmark of a gateway slot and DSCP value.
pub open spec fn spec_return_mark(dscp: u32, slot: u32) -> int {
    EDGE_CURRENT_MARK_BASE + slot * RULE_BAND + dscp
}

/// Routing table of a gateway slot and DSCP value.
pub open spec fn spec_return_table_id(dscp: u32, slot: u32) -> int {
    EDGE_CURRENT_TABLE_BASE + slot * RULE_BAND + dscp
}

pub fn return_mark(dscp: u32, slot: u32) -> (m: u32)
    requires
        dscp <= EDGE_DSCP_LIMIT,
        slot < GATEWAY_SLOTS,
    ensures
        m == spec_return_mark(dscp, slot),
        EDGE_CURRENT_MARK_BASE <= m < EDGE_MARK_LIMIT,
{
    EDGE_CURRENT_MARK_BASE + slot * RULE_BAND + dscp
}

pub fn return_table_id(dscp: u32, slot: u32) -> (t: u32)
    requires
        dscp <= EDGE_DSCP_LIMIT,
        slot < GATEWAY_SLOTS,
    ensures
        t == spec_return_table_id(dscp, slot),
        EDGE_CURRENT_TABLE_BASE <= t < EDGE_TABLE_LIMIT,
{
    EDGE_CURRENT_TABLE_BASE + slot * RULE_BAND + dscp
}

/// Law: two different (slot, DSCP) pairs never share a mark or a table, so
/// two gateways of a pair never steer replies into each other's table.
pub proof fn slotted_marks_are_distinct(d1: u32, s1: u32, d2: u32, s2: u32)
    requires
        d1 <= EDGE_DSCP_LIMIT,
        d2 <= EDGE_DSCP_LIMIT,
        s1 < GATEWAY_SLOTS,
        s2 < GATEWAY_SLOTS,
        (d1, s1) != (d2, s2),
    ensures
        spec_return_mark(d1, s1) != spec_return_mark(d2, s2),
        spec_return_table_id(d1, s1) != spec_return_table_id(d2, s2),
{
    assert(s1 * 64 + d1 != s2 * 64 + d2) by (nonlinear_arith)
        requires
            d1 <= 63,
            d2 <= 63,
            (d1, s1) != (d2, s2),
    ;
}

/// One kernel policy rule, as dumped.
#[derive(Clone, Copy, Debug, PartialEq, Eq)]
pub struct PolicyRule {
    pub priority: u32,
    pub mark: Option<u32>,
    pub mask: Option<u32>,
    pub table: u32,
}

/// A rule belongs to edge-lb when its mark or its table lies in the owned ranges.
pub open spec fn spec_rule_is_ours_family(rule: PolicyRule) -> bool {
    (rule.mark matches Some(m) && EDGE_CURRENT_MARK_BASE <= m < EDGE_MARK_LIMIT)
        || (EDGE_CURRENT_TABLE_BASE <= rule.table < EDGE_TABLE_LIMIT)
}

pub fn rule_is_ours_family(rule: &PolicyRule) -> (r: bool)
    ensures
        r == spec_rule_is_ours_family(*rule),
{
    if let Some(m) = rule.mark {
        if EDGE_CURRENT_MARK_BASE <= m && m < EDGE_MARK_LIMIT {
            return true;
        }
    }
    EDGE_CURRENT_TABLE_BASE <= rule.table && rule.table < EDGE_TABLE_LIMIT
}

/// (mark, table) identity of a rule; a rule without a mark counts as mark 0.
pub open spec fn rule_key(rule: PolicyRule) -> (u32, u32) {
    (
        match rule.mark {
            Some(m) => m,
            None => 0,
        },
        rule.table,
    )
}

/// An edge-lb rule whose (mark, table) is no longer desired is stale; rules
/// outside the edge-lb ranges are never stale.
pub fn rule_is_stale_ours(rule: &PolicyRule, desired: &[(u32, u32)]) -> (r: bool)
    ensures
        r == (spec_rule_is_ours_family(*rule) && !desired@.contains(rule_key(*rule))),
{
    if !rule_is_ours_family(rule) {
        return false;
    }
    let mark = match rule.mark {
        Some(m) => m,
        None => 0,
    };
    let mut i: usize = 0;
    while i < desired.len()
        invariant
            0 <= i <= desired@.len(),
            (mark, rule.table) == rule_key(*rule),
            forall|j: int| 0 <= j < i ==> desired@[j] != rule_key(*rule),
        decreases desired@.len() - i,
    {
        let (m, t) = desired[i];
        if m == mark && t == rule.table {
            assert(desired@[i as int] == rule_key(*rule));
            return false;
        }
        i = i + 1;
    }
    true
}

/// The value of a `u32` setting: `0x`-prefixed hexadecimal, else decimal,
/// surrounding whitespace ignored.
pub open spec fn spec_parse_setting_u32(s: Seq<char>) -> Option<u32> {
    let t = trim(s);
    if has_prefix(t, seq!['0', 'x']) {
        parse_u32_hex_spec(t.subrange(2, t.len() as int))
    } else {
        parse_u32_spec(t)
    }
}

pub fn parse_u32_chars(s: &[char]) -> (r: Option<u32>)
    ensures
        r == spec_parse_setting_u32(s@),
{
    let t = crate::text::trim_chars(s);
    let hex_prefix: Vec<char> = vec!['0', 'x'];
    assert(hex_prefix@ == seq!['0', 'x']);
    if crate::text::starts_with(&t, &hex_prefix) {
        let digits = crate::text::slice_chars(&t, 2, t.len());
        crate::text::parse_u32_hex(&digits)
    } else {
        crate::text::parse_u32_dec(&t)
    }
}

/// Parse a `u32` setting.
pub fn parse_u32(value: &str) -> (r: Option<u32>)
    ensures
        r == spec_parse_setting_u32(value@),
{
    let cs = crate::text::chars_of(value);
    parse_u32_chars(&cs)
}

/// `mark/mask`: both parts are `u32` settings; the first `/` separates them.
pub open spec fn spec_parse_fwmark(s: Seq<char>) -> Option<(u32, u32)> {
    if exists|k: int| first_index_of(s, '/', k) {
        let k = choose|k: int| first_index_of(s, '/', k);
        match (spec_parse_setting_u32(s.take(k)), spec_parse_setting_u32(s.skip(k + 1))) {
            (Some(m), Some(k2)) => Some((m, k2)),
            _ => None,
        }
    } else {
        None
    }
}

proof fn lemma_first_index_unique(s: Seq<char>, c: char, a: int, b: int)
    requires
        first_index_of(s, c, a),
        first_index_of(s, c, b),
    ensures
        a == b,
{
}

/// Parse an `fwmark` setting such as `0x1/0xff`.
pub fn parse_fwmark(value: &str) -> (r: Option<(u32, u32)>)
    ensures
        r == spec_parse_fwmark(value@),
{
    let cs = crate::text::chars_of(value);
    match crate::text::find_char(&cs, '/') {
        None => None,
        Some(k) => {
            proof {
                let c = choose|k2: int| first_index_of(value@, '/', k2);
                lemma_first_index_unique(value@, '/', k as int, c);
            }
            let left = crate::text::slice_chars(&cs, 0, k);
            let right = crate::text::slice_chars(&cs, k + 1, cs.len());
            assert(left@ == value@.take(k as int));
            assert(right@ == value@.skip(k + 1));
            match (parse_u32_chars(&left), parse_u32_chars(&right)) {
                (Some(m), Some(mask)) => Some((m, mask)),
                _ => None,
            }
        },
    }
}

/// Round a netlink length up to the 4-byte attribute alignment.
pub fn align(len: usize) -> (r: usize)
    requires
        len + 3 <= usize::MAX,
    ensures
        r % 4 == 0,
        len <= r < len + 4,
{
    let r = (len + 3) / 4 * 4;
    r
}

/// Table number as the one-byte header field: tables above 255 travel in an
/// attribute and the header field is 0.
pub fn table_field(table: u32) -> (r: u8)
    ensures
        table <= 255 ==> r == table,
        table > 255 ==> r == 0,
{
    if table <= 255 {
        table as u8
    } else {
        0
    }
}

} // verus!
