//! rtnetlink messages as bytes: the address request, the scan of an
//! address dump for a bound VIP, the acknowledgement of a request, and the
//! route and policy-rule entries of a dump. Multi-byte fields are in the
//! host's (little-endian) order.

use vstd::prelude::*;

verus! {

pub const NLMSG_HDR_LEN: usize = 16;
pub const IFADDR_LEN: usize = 8;
pub const ATTR_LEN: usize = 4;
/// An error message carries its code and the header of the failed request.
pub const MSG_ERROR_LEN: usize = 20;
pub const NLMSG_ERROR: u16 = 2;
pub const NLMSG_DONE: u16 = 3;
pub const RTM_NEWADDR: u16 = 20;
pub const RTM_DELADDR: u16 = 21;
pub const IFA_ADDRESS: u16 = 1;
pub const IFA_LOCAL: u16 = 2;
pub const AF_INET: u8 = 2;
pub const AF_INET6: u8 = 10;

/// Little-endian 16-bit field at `off`.
pub open spec fn le16(b: Seq<u8>, off: int) -> u16 {
    (b[off] as int + b[off + 1] as int * 256) as u16
}

/// Little-endian 32-bit field at `off`.
pub open spec fn le32(b: Seq<u8>, off: int) -> u32 {
    (b[off] as int + b[off + 1] as int * 256 + b[off + 2] as int * 65536 + b[off + 3] as int * 16777216) as u32
}

/// Netlink lengths are padded to four bytes.
pub open spec fn align4(n: int) -> int {
    (n + 3) / 4 * 4
}

pub(crate) fn read16(b: &[u8], off: usize) -> (r: u16)
    requires
        off + 2 <= b@.len(),
    ensures
        r == le16(b@, off as int),
{
    (b[off] as u16) + (b[off + 1] as u16) * 256
}

pub(crate) fn read32(b: &[u8], off: usize) -> (r: u32)
    requires
        off + 4 <= b@.len(),
    ensures
        r == le32(b@, off as int),
{
    (b[off] as u32) + (b[off + 1] as u32) * 256 + (b[off + 2] as u32) * 65536 + (b[off + 3] as u32) * 16777216
}

pub proof fn lemma_align4(n: int)
    requires
        n >= 0,
    ensures
        n <= align4(n) <= n + 3,
{
    assert(n <= (n + 3) / 4 * 4 <= n + 3) by (nonlinear_arith)
        requires n >= 0;
}

pub(crate) fn aligned(n: usize) -> (r: u64)
    requires
        n <= u32::MAX,
    ensures
        r == align4(n as int),
{
    (n as u64 + 3) / 4 * 4
}

/// The four octets of an IPv4 address, most significant first.
pub open spec fn octets(a: u32) -> Seq<u8> {
    seq![(a / 16777216) as u8, ((a / 65536) % 256) as u8, ((a / 256) % 256) as u8, (a % 256) as u8]
}

pub(crate) fn push16(v: &mut Vec<u8>, x: u16)
    ensures
        final(v)@ == old(v)@ + seq![(x % 256) as u8, (x / 256) as u8],
{
    v.push((x % 256) as u8);
    v.push((x / 256) as u8);
}

pub(crate) fn push32(v: &mut Vec<u8>, x: u32)
    ensures
        final(v)@ == old(v)@ + seq![(x % 256) as u8, ((x / 256) % 256) as u8, ((x / 65536) % 256) as u8, (x / 16777216) as u8],
{
    v.push((x % 256) as u8);
    v.push(((x / 256) % 256) as u8);
    v.push(((x / 65536) % 256) as u8);
    v.push((x / 16777216) as u8);
}

pub open spec fn le16_bytes(x: u16) -> Seq<u8> {
    seq![(x % 256) as u8, (x / 256) as u8]
}

pub open spec fn le32_bytes(x: u32) -> Seq<u8> {
    seq![(x % 256) as u8, ((x / 256) % 256) as u8, ((x / 65536) % 256) as u8, (x / 16777216) as u8]
}

/// A request to add or delete `vip/32` on interface `index`: header,
/// interface-address record, then the local and the peer address.
pub open spec fn spec_addr_message(kind: u16, flags: u16, index: u32, vip: u32) -> Seq<u8> {
    le32_bytes(40) + le16_bytes(kind) + le16_bytes(flags) + le32_bytes(1) + le32_bytes(0)
        + seq![AF_INET, 32u8, 0u8, 0u8] + le32_bytes(index)
        + le16_bytes(8) + le16_bytes(IFA_LOCAL) + octets(vip)
        + le16_bytes(8) + le16_bytes(IFA_ADDRESS) + octets(vip)
}

pub fn addr_message(kind: u16, flags: u16, index: u32, vip: u32) -> (r: Vec<u8>)
    ensures
        r@ == spec_addr_message(kind, flags, index, vip),
{
    let mut m: Vec<u8> = Vec::new();
    push32(&mut m, 40);
    push16(&mut m, kind);
    push16(&mut m, flags);
    push32(&mut m, 1);
    push32(&mut m, 0);
    m.push(AF_INET);
    m.push(32);
    m.push(0);
    m.push(0);
    push32(&mut m, index);
    push16(&mut m, 8);
    push16(&mut m, IFA_LOCAL);
    m.push((vip / 16777216) as u8);
    m.push(((vip / 65536) % 256) as u8);
    m.push(((vip / 256) % 256) as u8);
    m.push((vip % 256) as u8);
    push16(&mut m, 8);
    push16(&mut m, IFA_ADDRESS);
    m.push((vip / 16777216) as u8);
    m.push(((vip / 65536) % 256) as u8);
    m.push(((vip / 256) % 256) as u8);
    m.push((vip % 256) as u8);
    assert(m@ =~= spec_addr_message(kind, flags, index, vip));
    m
}

/// Why a netlink reply cannot be used.
#[derive(Clone, Copy, Debug, PartialEq, Eq, Structural)]
pub enum NetlinkError {
    /// A message runs past the data received.
    Truncated,
    /// An error message too short for its code.
    TruncatedError,
    /// The kernel refused the request with this (negative) code.
    Os(i32),
    /// A dumped entry shorter than its fixed header.
    ShortEntry,
    /// An attribute of a dumped entry runs past the entry.
    ShortAttribute,
}

/// What a received buffer says.
#[derive(Clone, Copy, Debug, PartialEq, Eq, Structural)]
pub enum DumpStep {
    /// The reply is complete; the flag tells whether the VIP was seen.
    Done(bool),
    /// More data must be received; the flag so far.
    More(bool),
}

/// Some attribute of an address record from `pos` to `end` names `vip` as
/// the local or peer address of an IPv4 address on interface `index`.
pub open spec fn attrs_match(b: Seq<u8>, pos: int, end: int, family: u8, ifindex: u32, index: u32, vip: u32) -> bool
    decreases end - pos,
{
    if pos < 0 || pos + 4 > end || end > b.len() {
        false
    } else {
        let len = le16(b, pos) as int;
        if len < 4 || pos + len > end {
            false
        } else {
            let akind = (le16(b, pos + 2) & 0x3fff) as u16;
            proof {
                lemma_align4(len);
            }
            let here = family == AF_INET && ifindex == index && (akind == IFA_LOCAL || akind == IFA_ADDRESS) && len >= 8
                && b.subrange(pos + 4, pos + 8) == octets(vip);
            if pos + align4(len) > end {
                here
            } else {
                here || attrs_match(b, pos + align4(len), end, family, ifindex, index, vip)
            }
        }
    }
}

/// The scan of an address dump from `off`: `Done` at the end message or an
/// acknowledgement, an error for a truncated message or a refused request,
/// `More` when the buffer is used up; `found` records a matching address.
pub open spec fn scan_dump(b: Seq<u8>, off: int, index: u32, vip: u32, found: bool) -> Result<DumpStep, NetlinkError>
    decreases b.len() - off,
{
    if off < 0 || off + 16 > b.len() {
        Ok(DumpStep::More(found))
    } else {
        let len = le32(b, off) as int;
        let kind = le16(b, off + 4);
        if len < 16 || off + len > b.len() {
            Err(NetlinkError::Truncated)
        } else if kind == NLMSG_DONE {
            Ok(DumpStep::Done(found))
        } else if kind == NLMSG_ERROR {
            if len < 16 + 20 {
                Err(NetlinkError::TruncatedError)
            } else if le32(b, off + 16) != 0 {
                Err(NetlinkError::Os(le32(b, off + 16) as i32))
            } else {
                Ok(DumpStep::Done(found))
            }
        } else {
            proof {
                lemma_align4(len);
            }
            let now = kind == RTM_NEWADDR && len >= 24
                && attrs_match(b, off + 24, off + len, b[off + 16], le32(b, off + 20), index, vip);
            if off + align4(len) > b.len() {
                Ok(DumpStep::More(found || now))
            } else {
                scan_dump(b, off + align4(len), index, vip, found || now)
            }
        }
    }
}

fn octets_at(b: &[u8], pos: usize, vip: u32) -> (r: bool)
    requires
        pos + 4 <= b@.len(),
    ensures
        r == (b@.subrange(pos as int, pos + 4) == octets(vip)),
{
    let r = b[pos] == (vip / 16777216) as u8 && b[pos + 1] == ((vip / 65536) % 256) as u8
        && b[pos + 2] == ((vip / 256) % 256) as u8 && b[pos + 3] == (vip % 256) as u8;
    assert(r == (b@.subrange(pos as int, pos + 4) =~= octets(vip)));
    r
}

fn scan_attrs(b: &[u8], start: usize, end: usize, family: u8, ifindex: u32, index: u32, vip: u32) -> (r: bool)
    requires
        start <= end <= b@.len(),
        end <= u32::MAX,
    ensures
        r == attrs_match(b@, start as int, end as int, family, ifindex, index, vip),
{
    let mut pos: usize = start;
    while pos <= end && end - pos >= 4
        invariant
            start <= pos,
            end <= b@.len(),
            end <= u32::MAX,
            attrs_match(b@, start as int, end as int, family, ifindex, index, vip)
                == attrs_match(b@, pos as int, end as int, family, ifindex, index, vip),
        decreases end - pos,
    {
        let len = read16(b, pos) as usize;
        if len < 4 || len > end - pos {
            return false;
        }
        let akind = read16(b, pos + 2) & 0x3fff;
        if family == AF_INET && ifindex == index && (akind == IFA_LOCAL || akind == IFA_ADDRESS) && len >= 8
            && octets_at(b, pos + 4, vip) {
            return true;
        }
        let next: u64 = pos as u64 + aligned(len);
        proof {
            lemma_align4(len as int);
        }
        if next > end as u64 {
            return false;
        }
        pos = next as usize;
    }
    false
}

/// Scan a received address-dump buffer for `vip` on interface `index`.
pub fn scan_address_dump(b: &[u8], index: u32, vip: u32, found: bool) -> (r: Result<DumpStep, NetlinkError>)
    requires
        b@.len() <= u32::MAX,
    ensures
        r == scan_dump(b@, 0, index, vip, found),
{
    let n = b.len();
    let mut off: usize = 0;
    let mut seen = found;
    while off <= n && n - off >= 16
        invariant
            n == b@.len(),
            n <= u32::MAX,
            scan_dump(b@, 0, index, vip, found) == scan_dump(b@, off as int, index, vip, seen),
        decreases n - off,
    {
        let len = read32(b, off) as usize;
        let kind = read16(b, off + 4);
        if len < 16 || len > n - off {
            return Err(NetlinkError::Truncated);
        }
        if kind == NLMSG_DONE {
            return Ok(DumpStep::Done(seen));
        }
        if kind == NLMSG_ERROR {
            if len < 36 {
                return Err(NetlinkError::TruncatedError);
            }
            let code = read32(b, off + 16);
            if code != 0 {
                return Err(NetlinkError::Os(code as i32));
            }
            return Ok(DumpStep::Done(seen));
        }
        if kind == RTM_NEWADDR && len >= 24 {
            let now = scan_attrs(b, off + 24, off + len, b[off + 16], read32(b, off + 20), index, vip);
            seen = seen || now;
        }
        let next: u64 = off as u64 + aligned(len);
        proof {
            lemma_align4(len as int);
        }
        if next > n as u64 {
            return Ok(DumpStep::More(seen));
        }
        off = next as usize;
    }
    Ok(DumpStep::More(seen))
}

} // verus!
