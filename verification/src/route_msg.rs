//! Route and policy-rule messages of rtnetlink: the bodies of the requests
//! that add, delete and dump them, the parse of dumped entries, and the
//! decisions that converge one routing table.

use vstd::prelude::*;
use crate::route::PolicyRule;
use crate::netlink::{octets, le16_bytes, le32_bytes, push16, push32, le16, le32, align4, lemma_align4, read16, read32, aligned, NetlinkError, NLMSG_DONE, NLMSG_ERROR, AF_INET, AF_INET6};

verus! {

pub const RTM_NEWROUTE: u16 = 24;
pub const RTM_DELROUTE: u16 = 25;
pub const RTM_GETROUTE: u16 = 26;
pub const RTM_NEWRULE: u16 = 32;
pub const RTM_DELRULE: u16 = 33;
pub const RTM_GETRULE: u16 = 34;
pub const RTN_UNICAST: u8 = 1;
pub const RTPROT_STATIC: u8 = 4;
pub const RT_SCOPE_UNIVERSE: u8 = 0;
pub const RT_SCOPE_LINK: u8 = 253;
pub const RTA_DST: u16 = 1;
pub const RTA_OIF: u16 = 4;
pub const RTA_GATEWAY: u16 = 5;
pub const RTA_PREFSRC: u16 = 7;
pub const RTA_TABLE: u16 = 15;
pub const FR_ACT_TO_TBL: u8 = 1;
pub const FRA_PRIORITY: u16 = 6;
pub const FRA_FWMARK: u16 = 10;
pub const FRA_TABLE: u16 = 15;
pub const FRA_FWMASK: u16 = 16;
pub const AF_UNSPEC: u8 = 0;
/// Length of the header of a route message and of a rule message.
pub const RT_HDR_LEN: usize = 12;

/// An IPv4 or IPv6 address as its value, most significant byte first.
#[derive(Clone, Copy, Debug, PartialEq, Eq, Structural)]
pub enum IpAddress {
    V4(u32),
    V6(u128),
}

/// Value of bytes read most significant first.
pub open spec fn be_value(s: Seq<u8>) -> nat
    decreases s.len(),
{
    if s.len() == 0 {
        0
    } else {
        be_value(s.drop_last()) * 256 + s.last() as nat
    }
}

pub open spec fn p256(n: nat) -> nat
    decreases n,
{
    if n == 0 {
        1
    } else {
        256 * p256((n - 1) as nat)
    }
}

proof fn lemma_be_bound(s: Seq<u8>)
    ensures
        be_value(s) < p256(s.len()),
    decreases s.len(),
{
    if s.len() > 0 {
        lemma_be_bound(s.drop_last());
    }
}

/// The address an attribute payload carries for an address family: four
/// bytes for IPv4, sixteen for IPv6; longer payloads are read from their start.
pub open spec fn spec_ip_attr(family: u8, p: Seq<u8>) -> Option<IpAddress> {
    if family == AF_INET && p.len() >= 4 {
        Some(IpAddress::V4(be_value(p.take(4)) as u32))
    } else if family == AF_INET6 && p.len() >= 16 {
        Some(IpAddress::V6(be_value(p.take(16)) as u128))
    } else {
        None
    }
}

fn be_read(d: &[u8], start: usize, n: usize) -> (r: u128)
    requires
        start + n <= d@.len(),
        n <= 16,
    ensures
        r == be_value(d@.subrange(start as int, start + n)),
{
    let mut acc: u128 = 0;
    let mut i: usize = 0;
    let dl = d.len();
    while i < n
        invariant
            i <= n <= 16,
            dl == d@.len(),
            start + n <= dl,
            acc == be_value(d@.subrange(start as int, start + i)),
        decreases n - i,
    {
        let ghost s = d@.subrange(start as int, start + i + 1);
        assert(s.drop_last() =~= d@.subrange(start as int, start + i));
        proof {
            lemma_be_bound(d@.subrange(start as int, start + i));
            assert(p256(i as nat) <= p256(15)) by {
                lemma_p256_mono(i as nat, 15);
            }
            lemma_p256_15();
        }
        acc = acc * 256 + d[start + i] as u128;
        i = i + 1;
    }
    acc
}

proof fn lemma_p256_15()
    ensures
        p256(15) * 256 == 0x1_0000_0000_0000_0000_0000_0000_0000_0000,
{
    reveal_with_fuel(p256, 16);
}

proof fn lemma_p256_mono(a: nat, b: nat)
    requires
        a <= b,
    ensures
        p256(a) <= p256(b),
    decreases b,
{
    if a < b {
        lemma_p256_mono(a, (b - 1) as nat);
    }
}

pub fn parse_ip_attr(family: u8, d: &[u8], start: usize, end: usize) -> (r: Option<IpAddress>)
    requires
        start <= end <= d@.len(),
    ensures
        r == spec_ip_attr(family, d@.subrange(start as int, end as int)),
{
    let ghost p = d@.subrange(start as int, end as int);
    if family == AF_INET && end - start >= 4 {
        let v = be_read(d, start, 4);
        assert(p.take(4) =~= d@.subrange(start as int, start + 4));
        proof {
            lemma_be_bound(p.take(4));
            reveal_with_fuel(p256, 5);
        }
        Some(IpAddress::V4(v as u32))
    } else if family == AF_INET6 && end - start >= 16 {
        let v = be_read(d, start, 16);
        assert(p.take(16) =~= d@.subrange(start as int, start + 16));
        Some(IpAddress::V6(v))
    } else {
        None
    }
}

/// A `u32` attribute: the first four payload bytes in host order; `None`
/// when the payload is shorter.
pub open spec fn spec_u32_attr(p: Seq<u8>) -> Option<u32> {
    if p.len() >= 4 {
        Some(le32(p, 0))
    } else {
        None
    }
}

pub fn parse_u32_attr(d: &[u8], start: usize, end: usize) -> (r: Option<u32>)
    requires
        start <= end <= d@.len(),
    ensures
        r == spec_u32_attr(d@.subrange(start as int, end as int)),
{
    if end - start >= 4 {
        Some(read32(d, start))
    } else {
        None
    }
}

/// One route of a kernel routing table.
#[derive(Clone, Copy, Debug, PartialEq, Eq, Structural)]
pub struct RouteEntry {
    pub family: u8,
    pub table: u32,
    pub dst_len: u8,
    pub dst: Option<IpAddress>,
    pub gateway: Option<IpAddress>,
    pub oif: Option<u32>,
    pub prefsrc: Option<IpAddress>,
}

/// The route after one attribute of kind `kind` with payload `p`: the
/// destination, gateway and preferred source are read in the route's
/// family, the table attribute overrides the header's one-byte table when
/// it is readable; other kinds leave the route unchanged.
pub open spec fn route_with_attr(r: RouteEntry, kind: u16, p: Seq<u8>) -> RouteEntry {
    if kind == RTA_DST {
        RouteEntry { dst: spec_ip_attr(r.family, p), ..r }
    } else if kind == RTA_GATEWAY {
        RouteEntry { gateway: spec_ip_attr(r.family, p), ..r }
    } else if kind == RTA_PREFSRC {
        RouteEntry { prefsrc: spec_ip_attr(r.family, p), ..r }
    } else if kind == RTA_OIF {
        RouteEntry { oif: spec_u32_attr(p), ..r }
    } else if kind == RTA_TABLE {
        match spec_u32_attr(p) {
            Some(t) => RouteEntry { table: t, ..r },
            None => r,
        }
    } else {
        r
    }
}

/// The attributes of a route message from `off` on, applied in order.
pub open spec fn route_attrs(d: Seq<u8>, off: int, r: RouteEntry) -> Result<RouteEntry, NetlinkError>
    decreases d.len() - off,
{
    if off < 0 || off + 4 > d.len() {
        Ok(r)
    } else {
        let len = le16(d, off) as int;
        if len < 4 || off + len > d.len() {
            Err(NetlinkError::ShortAttribute)
        } else {
            let r2 = route_with_attr(r, le16(d, off + 2), d.subrange(off + 4, off + len));
            proof {
                lemma_align4(len);
            }
            if off + align4(len) > d.len() {
                Ok(r2)
            } else {
                route_attrs(d, off + align4(len), r2)
            }
        }
    }
}

/// The route a dumped route message (without its netlink header) describes.
pub open spec fn spec_parse_route(d: Seq<u8>) -> Result<RouteEntry, NetlinkError> {
    if d.len() < RT_HDR_LEN {
        Err(NetlinkError::ShortEntry)
    } else {
        route_attrs(
            d,
            RT_HDR_LEN as int,
            RouteEntry {
                family: d[0],
                table: d[4] as u32,
                dst_len: d[1],
                dst: None,
                gateway: None,
                oif: None,
                prefsrc: None,
            },
        )
    }
}

pub fn parse_route_entry(data: &[u8]) -> (r: Result<RouteEntry, NetlinkError>)
    requires
        data@.len() <= u32::MAX,
    ensures
        r == spec_parse_route(data@),
{
    let n = data.len();
    if n < RT_HDR_LEN {
        return Err(NetlinkError::ShortEntry);
    }
    let mut route = RouteEntry {
        family: data[0],
        table: data[4] as u32,
        dst_len: data[1],
        dst: None,
        gateway: None,
        oif: None,
        prefsrc: None,
    };
    let ghost r0 = route;
    let mut off: usize = RT_HDR_LEN;
    while off <= n && n - off >= 4
        invariant
            n == data@.len(),
            n <= u32::MAX,
            RT_HDR_LEN <= off,
            route.family == data@[0],
            spec_parse_route(data@) == route_attrs(data@, RT_HDR_LEN as int, r0),
            route_attrs(data@, RT_HDR_LEN as int, r0) == route_attrs(data@, off as int, route),
        decreases n - off,
    {
        let len = read16(data, off) as usize;
        if len < 4 || len > n - off {
            return Err(NetlinkError::ShortAttribute);
        }
        let kind = read16(data, off + 2);
        let ps = off + 4;
        let pe = off + len;
        if kind == RTA_DST {
            route.dst = parse_ip_attr(route.family, data, ps, pe);
        } else if kind == RTA_GATEWAY {
            route.gateway = parse_ip_attr(route.family, data, ps, pe);
        } else if kind == RTA_PREFSRC {
            route.prefsrc = parse_ip_attr(route.family, data, ps, pe);
        } else if kind == RTA_OIF {
            route.oif = parse_u32_attr(data, ps, pe);
        } else if kind == RTA_TABLE {
            if let Some(t) = parse_u32_attr(data, ps, pe) {
                route.table = t;
            }
        }
        let next: u64 = off as u64 + aligned(len);
        proof {
            lemma_align4(len as int);
        }
        if next > n as u64 {
            return Ok(route);
        }
        off = next as usize;
    }
    Ok(route)
}

/// The rule after one attribute: a priority must be readable, mark and
/// mask are taken as read (possibly absent), a readable table overrides the
/// header's one-byte table; other kinds leave the rule unchanged.
pub open spec fn rule_with_attr(r: PolicyRule, kind: u16, p: Seq<u8>) -> Option<PolicyRule> {
    if kind == FRA_PRIORITY {
        match spec_u32_attr(p) {
            Some(v) => Some(PolicyRule { priority: v, ..r }),
            None => None,
        }
    } else if kind == FRA_FWMARK {
        Some(PolicyRule { mark: spec_u32_attr(p), ..r })
    } else if kind == FRA_FWMASK {
        Some(PolicyRule { mask: spec_u32_attr(p), ..r })
    } else if kind == FRA_TABLE {
        match spec_u32_attr(p) {
            Some(t) => Some(PolicyRule { table: t, ..r }),
            None => Some(r),
        }
    } else {
        Some(r)
    }
}

pub open spec fn rule_attrs(d: Seq<u8>, off: int, r: PolicyRule) -> Option<PolicyRule>
    decreases d.len() - off,
{
    if off < 0 || off + 4 > d.len() {
        Some(r)
    } else {
        let len = le16(d, off) as int;
        if len < 4 || off + len > d.len() {
            None
        } else {
            match rule_with_attr(r, le16(d, off + 2), d.subrange(off + 4, off + len)) {
                None => None,
                Some(r2) => {
                    proof {
                        lemma_align4(len);
                    }
                    if off + align4(len) > d.len() {
                        Some(r2)
                    } else {
                        rule_attrs(d, off + align4(len), r2)
                    }
                },
            }
        }
    }
}

/// The rule a dumped rule message describes: only IPv4 rules that send
/// traffic to a table are kept; a short message or attribute gives `None`.
pub open spec fn spec_parse_rule(d: Seq<u8>) -> Option<PolicyRule> {
    if d.len() < RT_HDR_LEN || d[7] != FR_ACT_TO_TBL || d[0] != AF_INET {
        None
    } else {
        rule_attrs(d, RT_HDR_LEN as int, PolicyRule { priority: 0, mark: None, mask: None, table: d[4] as u32 })
    }
}

pub fn parse_policy_rule(data: &[u8]) -> (r: Option<PolicyRule>)
    requires
        data@.len() <= u32::MAX,
    ensures
        r == spec_parse_rule(data@),
{
    let n = data.len();
    if n < RT_HDR_LEN || data[7] != FR_ACT_TO_TBL || data[0] != AF_INET {
        return None;
    }
    let mut rule = PolicyRule { priority: 0, mark: None, mask: None, table: data[4] as u32 };
    let ghost r0 = rule;
    let mut off: usize = RT_HDR_LEN;
    while off <= n && n - off >= 4
        invariant
            n == data@.len(),
            n <= u32::MAX,
            RT_HDR_LEN <= off,
            spec_parse_rule(data@) == rule_attrs(data@, RT_HDR_LEN as int, r0),
            rule_attrs(data@, RT_HDR_LEN as int, r0) == rule_attrs(data@, off as int, rule),
        decreases n - off,
    {
        let len = read16(data, off) as usize;
        if len < 4 || len > n - off {
            return None;
        }
        let kind = read16(data, off + 2);
        let ps = off + 4;
        let pe = off + len;
        if kind == FRA_PRIORITY {
            match parse_u32_attr(data, ps, pe) {
                Some(v) => {
                    rule.priority = v;
                },
                None => {
                    return None;
                },
            }
        } else if kind == FRA_FWMARK {
            rule.mark = parse_u32_attr(data, ps, pe);
        } else if kind == FRA_FWMASK {
            rule.mask = parse_u32_attr(data, ps, pe);
        } else if kind == FRA_TABLE {
            if let Some(t) = parse_u32_attr(data, ps, pe) {
                rule.table = t;
            }
        }
        let next: u64 = off as u64 + aligned(len);
        proof {
            lemma_align4(len as int);
        }
        if next > n as u64 {
            return Some(rule);
        }
        off = next as usize;
    }
    Some(rule)
}

/// The scan of a received rule-dump buffer from `off`: messages of other
/// requests are skipped, the end message or an acknowledgement completes the
/// dump (`true`), a refusal or a truncated message is an error, and the
/// rules of this request are collected; `false` asks for more data.
pub open spec fn scan_rules(b: Seq<u8>, off: int, seq: u32, acc: Seq<PolicyRule>) -> Result<(bool, Seq<PolicyRule>), NetlinkError>
    decreases b.len() - off,
{
    if off < 0 || off + 16 > b.len() {
        Ok((false, acc))
    } else {
        let len = le32(b, off) as int;
        let ours = le32(b, off + 8) == seq;
        let kind = le16(b, off + 4);
        if len < 16 || off + len > b.len() {
            Err(NetlinkError::Truncated)
        } else if ours && kind == NLMSG_DONE {
            Ok((true, acc))
        } else if ours && kind == NLMSG_ERROR {
            if off + 20 > b.len() {
                Err(NetlinkError::TruncatedError)
            } else if le32(b, off + 16) == 0 {
                Ok((true, acc))
            } else {
                Err(NetlinkError::Os(le32(b, off + 16) as i32))
            }
        } else {
            let a = if ours && kind == RTM_NEWRULE {
                match spec_parse_rule(b.subrange(off + 16, off + len)) {
                    Some(r) => acc.push(r),
                    None => acc,
                }
            } else {
                acc
            };
            proof {
                lemma_align4(len);
            }
            if off + align4(len) > b.len() {
                Ok((false, a))
            } else {
                scan_rules(b, off + align4(len), seq, a)
            }
        }
    }
}

/// Collect the rules of request `seq` from one received buffer.
pub fn scan_rule_dump(b: &[u8], seq: u32, rules: Vec<PolicyRule>) -> (r: Result<(bool, Vec<PolicyRule>), NetlinkError>)
    requires
        b@.len() <= u32::MAX,
    ensures
        match r {
            Ok((done, v)) => scan_rules(b@, 0, seq, rules@) == Ok::<(bool, Seq<PolicyRule>), NetlinkError>((done, v@)),
            Err(e) => scan_rules(b@, 0, seq, rules@) == Err::<(bool, Seq<PolicyRule>), NetlinkError>(e),
        },
{
    let n = b.len();
    let mut off: usize = 0;
    let mut acc = rules;
    while off <= n && n - off >= 16
        invariant
            n == b@.len(),
            n <= u32::MAX,
            scan_rules(b@, 0, seq, rules@) == scan_rules(b@, off as int, seq, acc@),
        decreases n - off,
    {
        let len = read32(b, off) as usize;
        if len < 16 || len > n - off {
            return Err(NetlinkError::Truncated);
        }
        let ours = read32(b, off + 8) == seq;
        let kind = read16(b, off + 4);
        if ours && kind == NLMSG_DONE {
            return Ok((true, acc));
        }
        if ours && kind == NLMSG_ERROR {
            if n - off < 20 {
                return Err(NetlinkError::TruncatedError);
            }
            let code = read32(b, off + 16);
            if code == 0 {
                return Ok((true, acc));
            }
            return Err(NetlinkError::Os(code as i32));
        }
        if ours && kind == RTM_NEWRULE {
            let body = vstd::slice::slice_subrange(b, off + 16, off + len);
            if let Some(rule) = parse_policy_rule(body) {
                acc.push(rule);
            }
        }
        let next: u64 = off as u64 + aligned(len);
        proof {
            lemma_align4(len as int);
        }
        if next > n as u64 {
            return Ok((false, acc));
        }
        off = next as usize;
    }
    Ok((false, acc))
}

/// The scan of a received route-dump buffer: as for rules, but a route that
/// cannot be parsed fails the dump, and only routes of `table` are kept.
pub open spec fn scan_routes(b: Seq<u8>, off: int, seq: u32, table: u32, acc: Seq<RouteEntry>) -> Result<(bool, Seq<RouteEntry>), NetlinkError>
    decreases b.len() - off,
{
    if off < 0 || off + 16 > b.len() {
        Ok((false, acc))
    } else {
        let len = le32(b, off) as int;
        let ours = le32(b, off + 8) == seq;
        let kind = le16(b, off + 4);
        if len < 16 || off + len > b.len() {
            Err(NetlinkError::Truncated)
        } else if ours && kind == NLMSG_DONE {
            Ok((true, acc))
        } else if ours && kind == NLMSG_ERROR {
            if off + 20 > b.len() {
                Err(NetlinkError::TruncatedError)
            } else if le32(b, off + 16) == 0 {
                Ok((true, acc))
            } else {
                Err(NetlinkError::Os(le32(b, off + 16) as i32))
            }
        } else {
            let step: Result<Seq<RouteEntry>, NetlinkError> = if ours && kind == RTM_NEWROUTE {
                match spec_parse_route(b.subrange(off + 16, off + len)) {
                    Ok(r) => Ok(if r.table == table { acc.push(r) } else { acc }),
                    Err(e) => Err(e),
                }
            } else {
                Ok(acc)
            };
            match step {
                Err(e) => Err(e),
                Ok(a) => {
                    proof {
                        lemma_align4(len);
                    }
                    if off + align4(len) > b.len() {
                        Ok((false, a))
                    } else {
                        scan_routes(b, off + align4(len), seq, table, a)
                    }
                },
            }
        }
    }
}

/// Collect the routes of `table` answered to request `seq` from one received buffer.
pub fn scan_route_dump(b: &[u8], seq: u32, table: u32, routes: Vec<RouteEntry>) -> (r: Result<(bool, Vec<RouteEntry>), NetlinkError>)
    requires
        b@.len() <= u32::MAX,
    ensures
        match r {
            Ok((done, v)) => scan_routes(b@, 0, seq, table, routes@) == Ok::<(bool, Seq<RouteEntry>), NetlinkError>((done, v@)),
            Err(e) => scan_routes(b@, 0, seq, table, routes@) == Err::<(bool, Seq<RouteEntry>), NetlinkError>(e),
        },
{
    let n = b.len();
    let mut off: usize = 0;
    let mut acc = routes;
    while off <= n && n - off >= 16
        invariant
            n == b@.len(),
            n <= u32::MAX,
            scan_routes(b@, 0, seq, table, routes@) == scan_routes(b@, off as int, seq, table, acc@),
        decreases n - off,
    {
        let len = read32(b, off) as usize;
        if len < 16 || len > n - off {
            return Err(NetlinkError::Truncated);
        }
        let ours = read32(b, off + 8) == seq;
        let kind = read16(b, off + 4);
        if ours && kind == NLMSG_DONE {
            return Ok((true, acc));
        }
        if ours && kind == NLMSG_ERROR {
            if n - off < 20 {
                return Err(NetlinkError::TruncatedError);
            }
            let code = read32(b, off + 16);
            if code == 0 {
                return Ok((true, acc));
            }
            return Err(NetlinkError::Os(code as i32));
        }
        if ours && kind == RTM_NEWROUTE {
            let body = vstd::slice::slice_subrange(b, off + 16, off + len);
            match parse_route_entry(body) {
                Ok(route) => {
                    if route.table == table {
                        acc.push(route);
                    }
                },
                Err(e) => {
                    return Err(e);
                },
            }
        }
        let next: u64 = off as u64 + aligned(len);
        proof {
            lemma_align4(len as int);
        }
        if next > n as u64 {
            return Ok((false, acc));
        }
        off = next as usize;
    }
    Ok((false, acc))
}

/// The scan of a buffer received after a request `seq` that asked for an
/// acknowledgement: `Ok(true)` once the kernel accepted it, `Ok(false)` when
/// the answer has not arrived yet. A message no longer than its header is
/// refused here, as the kernel never sends one.
pub open spec fn scan_ack(b: Seq<u8>, off: int, seq: u32) -> Result<bool, NetlinkError>
    decreases b.len() - off,
{
    if off < 0 || off + 16 > b.len() {
        Ok(false)
    } else {
        let len = le32(b, off) as int;
        if len <= 16 || off + len > b.len() {
            Err(NetlinkError::Truncated)
        } else if le32(b, off + 8) == seq && le16(b, off + 4) == NLMSG_ERROR {
            if off + 20 > b.len() {
                Err(NetlinkError::TruncatedError)
            } else if le32(b, off + 16) == 0 {
                Ok(true)
            } else {
                Err(NetlinkError::Os(le32(b, off + 16) as i32))
            }
        } else {
            proof {
                lemma_align4(len);
            }
            if off + align4(len) > b.len() {
                Ok(false)
            } else {
                scan_ack(b, off + align4(len), seq)
            }
        }
    }
}

pub fn scan_request_ack(b: &[u8], seq: u32) -> (r: Result<bool, NetlinkError>)
    requires
        b@.len() <= u32::MAX,
    ensures
        r == scan_ack(b@, 0, seq),
{
    let n = b.len();
    let mut off: usize = 0;
    while off <= n && n - off >= 16
        invariant
            n == b@.len(),
            n <= u32::MAX,
            scan_ack(b@, 0, seq) == scan_ack(b@, off as int, seq),
        decreases n - off,
    {
        let len = read32(b, off) as usize;
        if len <= 16 || len > n - off {
            return Err(NetlinkError::Truncated);
        }
        if read32(b, off + 8) == seq && read16(b, off + 4) == NLMSG_ERROR {
            if n - off < 20 {
                return Err(NetlinkError::TruncatedError);
            }
            let code = read32(b, off + 16);
            if code == 0 {
                return Ok(true);
            }
            return Err(NetlinkError::Os(code as i32));
        }
        let next: u64 = off as u64 + aligned(len);
        proof {
            lemma_align4(len as int);
        }
        if next > n as u64 {
            return Ok(false);
        }
        off = next as usize;
    }
    Ok(false)
}

/// Bytes of an address, most significant first.
pub open spec fn ip_bytes(ip: IpAddress) -> Seq<u8> {
    match ip {
        IpAddress::V4(a) => octets(a),
        IpAddress::V6(v) => Seq::new(16, |i: int| ((v as nat / p256((15 - i) as nat)) % 256) as u8),
    }
}

fn ip_to_bytes(ip: IpAddress) -> (r: Vec<u8>)
    ensures
        r@ == ip_bytes(ip),
{
    match ip {
        IpAddress::V4(a) => {
            let mut v: Vec<u8> = Vec::new();
            v.push((a / 16777216) as u8);
            v.push(((a / 65536) % 256) as u8);
            v.push(((a / 256) % 256) as u8);
            v.push((a % 256) as u8);
            assert(v@ =~= octets(a));
            v
        },
        IpAddress::V6(x) => {
            let mut out: Vec<u8> = Vec::new();
            let mut d: u128 = 0x1000000000000000000000000000000;
            let mut i: usize = 0;
            proof {
                lemma_p256_15();
            }
            while i < 16
                invariant
                    i <= 16,
                    d as nat == p256((15 - i) as nat) || i == 16,
                    out@.len() == i,
                    forall|k: int| 0 <= k < i ==> out@[k] == ((x as nat / p256((15 - k) as nat)) % 256) as u8,
                decreases 16 - i,
            {
                assert(d > 0) by {
                    lemma_p256_pos((15 - i) as nat);
                }
                out.push(((x / d) % 256) as u8);
                if i < 15 {
                    assert(p256((15 - i) as nat) == 256 * p256((15 - i - 1) as nat));
                    d = d / 256;
                }
                i = i + 1;
            }
            assert(out@ =~= ip_bytes(ip));
            out
        },
    }
}

proof fn lemma_p256_pos(n: nat)
    ensures
        p256(n) > 0,
    decreases n,
{
    if n > 0 {
        lemma_p256_pos((n - 1) as nat);
    }
}

/// Zero bytes that pad a buffer of `n` bytes to a multiple of four.
pub open spec fn pad4(n: int) -> nat {
    ((4 - n % 4) % 4) as nat
}

/// An attribute appended to a buffer of `at` bytes: its length (header
/// included), its kind, the payload, then zeros up to the next multiple of four.
pub open spec fn attr_bytes(at: int, kind: u16, p: Seq<u8>) -> Seq<u8> {
    le16_bytes((p.len() + 4) as u16) + le16_bytes(kind) + p + Seq::new(pad4(at + 4 + p.len()), |i: int| 0u8)
}

pub fn push_attr(buf: &mut Vec<u8>, kind: u16, payload: &[u8])
    requires
        payload@.len() + 4 <= u16::MAX,
        old(buf)@.len() + payload@.len() + 8 <= usize::MAX,
    ensures
        final(buf)@ == old(buf)@ + attr_bytes(old(buf)@.len() as int, kind, payload@),
{
    let ghost start = buf@;
    let len: u16 = (payload.len() + 4) as u16;
    push16(buf, len);
    push16(buf, kind);
    let mut i: usize = 0;
    while i < payload.len()
        invariant
            i <= payload@.len(),
            buf@ == start + le16_bytes(len) + le16_bytes(kind) + payload@.take(i as int),
        decreases payload@.len() - i,
    {
        buf.push(payload[i]);
        assert(payload@.take(i + 1) =~= payload@.take(i as int).push(payload@[i as int]));
        i = i + 1;
    }
    assert(payload@.take(i as int) =~= payload@);
    let ghost body = buf@;
    while buf.len() % 4 != 0
        invariant
            body.len() <= buf@.len() <= body.len() + pad4(body.len() as int),
            buf@ == body + Seq::new((buf@.len() - body.len()) as nat, |k: int| 0u8),
            body.len() + 3 <= usize::MAX,
        decreases body.len() + pad4(body.len() as int) - buf@.len(),
    {
        buf.push(0);
        assert(buf@ =~= body + Seq::new((buf@.len() - body.len()) as nat, |k: int| 0u8));
    }
    assert(buf@.len() - body.len() == pad4(body.len() as int));
    assert(buf@ =~= start + attr_bytes(start.len() as int, kind, payload@));
}

/// A buffer with one more attribute.
pub open spec fn with_attr(buf: Seq<u8>, kind: u16, p: Seq<u8>) -> Seq<u8> {
    buf + attr_bytes(buf.len() as int, kind, p)
}

pub fn push_attr_u32(buf: &mut Vec<u8>, kind: u16, value: u32)
    requires
        old(buf)@.len() + 12 <= usize::MAX,
    ensures
        final(buf)@ == with_attr(old(buf)@, kind, le32_bytes(value)),
{
    let mut p: Vec<u8> = Vec::new();
    push32(&mut p, value);
    push_attr(buf, kind, p.as_slice());
}

pub fn push_attr_ip(buf: &mut Vec<u8>, kind: u16, value: IpAddress)
    requires
        old(buf)@.len() + 24 <= usize::MAX,
    ensures
        final(buf)@ == with_attr(old(buf)@, kind, ip_bytes(value)),
{
    let p = ip_to_bytes(value);
    push_attr(buf, kind, p.as_slice());
}

/// The one-byte table field of a header: the table itself up to 255, else 0
/// (the table then travels in an attribute).
pub open spec fn table_byte(table: u32) -> u8 {
    if table <= 255 {
        table as u8
    } else {
        0
    }
}

/// Header of a static unicast route request.
pub open spec fn spec_route_body(table: u32, family: u8, dst_len: u8, scope: u8) -> Seq<u8> {
    seq![family, dst_len, 0u8, 0u8, table_byte(table), RTPROT_STATIC, scope, RTN_UNICAST, 0u8, 0u8, 0u8, 0u8]
}

pub fn route_body(table: u32, family: u8, dst_len: u8, scope: u8) -> (r: Vec<u8>)
    ensures
        r@ == spec_route_body(table, family, dst_len, scope),
{
    let r: Vec<u8> = vec![family, dst_len, 0, 0, crate::route::table_field(table), RTPROT_STATIC, scope, RTN_UNICAST, 0, 0, 0, 0];
    assert(r@ =~= spec_route_body(table, family, dst_len, scope));
    r
}

/// Header of an IPv4 rule that sends traffic to `table`.
pub open spec fn spec_rule_header(family: u8, table: u32) -> Seq<u8> {
    seq![family, 0u8, 0u8, 0u8, table_byte(table), 0u8, 0u8, FR_ACT_TO_TBL, 0u8, 0u8, 0u8, 0u8]
}

fn rule_header(family: u8, table: u32) -> (r: Vec<u8>)
    ensures
        r@ == spec_rule_header(family, table),
{
    let r: Vec<u8> = vec![family, 0, 0, 0, crate::route::table_field(table), 0, 0, FR_ACT_TO_TBL, 0, 0, 0, 0];
    assert(r@ =~= spec_rule_header(family, table));
    r
}

/// Body of the request that adds the rule `fwmark mark/mask lookup table`
/// at `priority`.
pub open spec fn spec_rule_body(mark: u32, mask: u32, priority: u32, table: u32) -> Seq<u8> {
    with_attr(
        with_attr(
            with_attr(with_attr(spec_rule_header(AF_INET, table), FRA_PRIORITY, le32_bytes(priority)), FRA_FWMARK, le32_bytes(mark)),
            FRA_FWMASK,
            le32_bytes(mask),
        ),
        FRA_TABLE,
        le32_bytes(table),
    )
}

pub fn rule_body(mark: u32, mask: u32, priority: u32, table: u32) -> (r: Vec<u8>)
    ensures
        r@ == spec_rule_body(mark, mask, priority, table),
{
    let mut body = rule_header(AF_INET, table);
    push_attr_u32(&mut body, FRA_PRIORITY, priority);
    push_attr_u32(&mut body, FRA_FWMARK, mark);
    push_attr_u32(&mut body, FRA_FWMASK, mask);
    push_attr_u32(&mut body, FRA_TABLE, table);
    body
}

/// Body of the request that deletes a dumped rule: priority and table, then
/// the mark and the mask where the rule has them.
pub open spec fn spec_delete_rule_body(rule: PolicyRule) -> Seq<u8> {
    let b = with_attr(with_attr(spec_rule_header(AF_INET, rule.table), FRA_PRIORITY, le32_bytes(rule.priority)), FRA_TABLE, le32_bytes(rule.table));
    let b = match rule.mark {
        Some(m) => with_attr(b, FRA_FWMARK, le32_bytes(m)),
        None => b,
    };
    match rule.mask {
        Some(m) => with_attr(b, FRA_FWMASK, le32_bytes(m)),
        None => b,
    }
}

pub fn delete_rule_body(rule: &PolicyRule) -> (r: Vec<u8>)
    ensures
        r@ == spec_delete_rule_body(*rule),
{
    let mut body = rule_header(AF_INET, rule.table);
    push_attr_u32(&mut body, FRA_PRIORITY, rule.priority);
    push_attr_u32(&mut body, FRA_TABLE, rule.table);
    if let Some(mark) = rule.mark {
        push_attr_u32(&mut body, FRA_FWMARK, mark);
    }
    if let Some(mask) = rule.mask {
        push_attr_u32(&mut body, FRA_FWMASK, mask);
    }
    body
}

/// Body of a rule dump request.
pub fn rule_dump_body() -> (r: Vec<u8>)
    ensures
        r@ == spec_rule_header(AF_UNSPEC, 0),
{
    rule_header(AF_UNSPEC, 0)
}

/// Body of the request that dumps the routes of `table`.
pub open spec fn spec_route_dump_body(table: u32) -> Seq<u8> {
    with_attr(seq![AF_UNSPEC, 0u8, 0u8, 0u8, table_byte(table), 0u8, 0u8, 0u8, 0u8, 0u8, 0u8, 0u8], RTA_TABLE, le32_bytes(table))
}

pub fn route_dump_body(table: u32) -> (r: Vec<u8>)
    ensures
        r@ == spec_route_dump_body(table),
{
    let mut body: Vec<u8> = vec![AF_UNSPEC, 0, 0, 0, crate::route::table_field(table), 0, 0, 0, 0, 0, 0, 0];
    assert(body@ =~= seq![AF_UNSPEC, 0u8, 0u8, 0u8, table_byte(table), 0u8, 0u8, 0u8, 0u8, 0u8, 0u8, 0u8]);
    push_attr_u32(&mut body, RTA_TABLE, table);
    body
}

/// Scope of a route: a default route has universe scope, a prefix route link scope.
pub open spec fn route_scope(dst_len: u8) -> u8 {
    if dst_len == 0 {
        RT_SCOPE_UNIVERSE
    } else {
        RT_SCOPE_LINK
    }
}

/// Body of the request that installs or deletes a route: header, then the
/// destination, output interface, gateway and preferred source it has, then
/// its table.
pub open spec fn spec_route_entry_body(e: RouteEntry) -> Seq<u8> {
    let b0 = spec_route_body(e.table, e.family, e.dst_len, route_scope(e.dst_len));
    let b1 = match e.dst {
        Some(ip) => with_attr(b0, RTA_DST, ip_bytes(ip)),
        None => b0,
    };
    let b2 = match e.oif {
        Some(o) => with_attr(b1, RTA_OIF, le32_bytes(o)),
        None => b1,
    };
    let b3 = match e.gateway {
        Some(ip) => with_attr(b2, RTA_GATEWAY, ip_bytes(ip)),
        None => b2,
    };
    let b4 = match e.prefsrc {
        Some(ip) => with_attr(b3, RTA_PREFSRC, ip_bytes(ip)),
        None => b3,
    };
    with_attr(b4, RTA_TABLE, le32_bytes(e.table))
}

proof fn lemma_with_attr_len(buf: Seq<u8>, kind: u16, p: Seq<u8>)
    ensures
        with_attr(buf, kind, p).len() <= buf.len() + p.len() + 8,
{
}

pub fn route_entry_body(e: &RouteEntry) -> (r: Vec<u8>)
    ensures
        r@ == spec_route_entry_body(*e),
{
    let scope = if e.dst_len == 0 {
        RT_SCOPE_UNIVERSE
    } else {
        RT_SCOPE_LINK
    };
    let mut body = route_body(e.table, e.family, e.dst_len, scope);
    if let Some(dst) = e.dst {
        push_attr_ip(&mut body, RTA_DST, dst);
    }
    assert(body@.len() <= 36);
    if let Some(oif) = e.oif {
        push_attr_u32(&mut body, RTA_OIF, oif);
    }
    assert(body@.len() <= 48);
    if let Some(gw) = e.gateway {
        push_attr_ip(&mut body, RTA_GATEWAY, gw);
    }
    assert(body@.len() <= 72);
    if let Some(src) = e.prefsrc {
        push_attr_ip(&mut body, RTA_PREFSRC, src);
    }
    assert(body@.len() <= 96);
    push_attr_u32(&mut body, RTA_TABLE, e.table);
    body
}

/// A netlink message: header (length, kind, flags, sequence, port 0), then the body.
pub open spec fn spec_netlink_message(kind: u16, flags: u16, body: Seq<u8>, seq: u32) -> Seq<u8> {
    le32_bytes((body.len() + 16) as u32) + le16_bytes(kind) + le16_bytes(flags) + le32_bytes(seq) + le32_bytes(0) + body
}

pub fn netlink_message(kind: u16, flags: u16, body: &[u8], seq: u32) -> (r: Vec<u8>)
    requires
        body@.len() + 16 <= u32::MAX,
    ensures
        r@ == spec_netlink_message(kind, flags, body@, seq),
{
    let mut m: Vec<u8> = Vec::new();
    push32(&mut m, (body.len() + 16) as u32);
    push16(&mut m, kind);
    push16(&mut m, flags);
    push32(&mut m, seq);
    push32(&mut m, 0);
    let ghost head = m@;
    let mut i: usize = 0;
    while i < body.len()
        invariant
            i <= body@.len(),
            m@ == head + body@.take(i as int),
        decreases body@.len() - i,
    {
        m.push(body[i]);
        assert(body@.take(i + 1) =~= body@.take(i as int).push(body@[i as int]));
        i = i + 1;
    }
    assert(body@.take(i as int) =~= body@);
    m
}

} // verus!
