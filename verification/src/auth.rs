//! Source trust of the control plane: which networks may reach it,
//! whether a remote address belongs to one of them, and whether a call is
//! let in.

use vstd::prelude::*;
use vstd::string::*;
use crate::text::decimal;
use crate::ipnet::{spec_parse_net, Ipv4Net};
use crate::route_msg::IpAddress;
use crate::text::{first_index_of, parse_u32_spec};

verus! {

/// The `/24` around an IPv4 underlay address, or nothing for `0.0.0.0`.
pub open spec fn fallback_cidr_text(ip: u32) -> Option<Seq<char>> {
    if ip == 0 {
        None
    } else {
        Some(decimal((ip / 16777216) as nat) + "."@ + decimal(((ip / 65536) % 256) as nat) + "."@
            + decimal(((ip / 256) % 256) as nat) + ".0/24"@)
    }
}

fn fallback_underlay_cidr(ip: u32) -> (r: Option<String>)
    ensures
        match fallback_cidr_text(ip) {
            Some(t) => r matches Some(s) && s@ == t,
            None => r is None,
        },
{
    if ip == 0 {
        return None;
    }
    let mut out = crate::text::decimal_chars((ip / 16777216) as u64);
    crate::text::extend_chars(&mut out, &crate::text::chars_of("."));
    crate::text::extend_chars(&mut out, &crate::text::decimal_chars(((ip / 65536) % 256) as u64));
    crate::text::extend_chars(&mut out, &crate::text::chars_of("."));
    crate::text::extend_chars(&mut out, &crate::text::decimal_chars(((ip / 256) % 256) as u64));
    crate::text::extend_chars(&mut out, &crate::text::chars_of(".0/24"));
    Some(crate::text::string_of(&out))
}

/// The network trusted around an underlay address when nothing else is
/// known: the `/24` of an IPv4 address, the `/64` of an IPv6 address, none
/// for an unspecified one.
pub open spec fn fallback_network_text(ip: IpAddress) -> Option<Seq<char>> {
    match ip {
        IpAddress::V4(a) => fallback_cidr_text(a),
        IpAddress::V6(v) => if v == 0 {
            None
        } else {
            Some(crate::ipv6::ipv6_text(v) + "/64"@)
        },
    }
}

fn fallback_network(ip: IpAddress) -> (r: Option<String>)
    ensures
        match fallback_network_text(ip) {
            Some(t) => r matches Some(s) && s@ == t,
            None => r is None,
        },
{
    match ip {
        IpAddress::V4(a) => fallback_underlay_cidr(a),
        IpAddress::V6(v) => if v == 0 {
            None
        } else {
            let text = crate::ipv6::format_ipv6(v);
            let mut out = crate::text::chars_of(text.as_str());
            crate::text::extend_chars(&mut out, &crate::text::chars_of("/64"));
            Some(crate::text::string_of(&out))
        },
    }
}

/// Networks trusted to reach the control plane: the configured ones; else
/// the underlay interface's network when it is known; else the network
/// around the underlay address.
pub fn trusted_source_cidrs(configured: &Vec<String>, interface_cidr: Option<String>, underlay_ip: IpAddress) -> (r: Vec<String>)
    ensures
        configured@.len() > 0 ==> r@ == configured@,
        configured@.len() == 0 ==> match interface_cidr {
            Some(c) => r@ == seq![c],
            None => match fallback_network_text(underlay_ip) {
                Some(t) => r@.len() == 1 && r@[0]@ == t,
                None => r@.len() == 0,
            },
        },
{
    if configured.len() > 0 {
        let mut out: Vec<String> = Vec::new();
        let mut i: usize = 0;
        while i < configured.len()
            invariant
                0 <= i <= configured@.len(),
                out@ == configured@.take(i as int),
            decreases configured@.len() - i,
        {
            out.push(configured[i].clone());
            assert(configured@.take(i + 1) == configured@.take(i as int).push(configured@[i as int]));
            i = i + 1;
        }
        assert(configured@.take(configured@.len() as int) == configured@);
        return out;
    }
    let mut out: Vec<String> = Vec::new();
    match interface_cidr {
        Some(c) => out.push(c),
        None => match fallback_network(underlay_ip) {
            Some(c) => out.push(c),
            None => {},
        },
    }
    out
}

/// An IPv4 address lies in a network written `a.b.c.d/p`; text that is no
/// IPv4 network contains nothing.
pub open spec fn spec_ipv4_in_cidr(ip: u32, cidr: Seq<char>) -> bool {
    match spec_parse_net(cidr) {
        Some(n) => n.spec_contains_ip(ip),
        None => false,
    }
}

/// The mask of an IPv6 prefix length.
pub open spec fn spec_mask6(p: u32) -> u128 {
    if p == 0 {
        0
    } else {
        u128::MAX << (128 - p)
    }
}

/// `addr/p` with an IPv6 address and a prefix of at most 128.
pub open spec fn spec_parse_net6(s: Seq<char>) -> Option<(u128, u32)> {
    if exists|k: int| first_index_of(s, '/', k) {
        let k = choose|k: int| first_index_of(s, '/', k);
        match (crate::registry::spec_parse_ip(s.take(k)), parse_u32_spec(s.skip(k + 1))) {
            (Some(IpAddress::V6(b)), Some(p)) => if p <= 128 {
                Some((b, p))
            } else {
                None
            },
            _ => None,
        }
    } else {
        None
    }
}

/// An address lies in a network of its own family: the bits under the
/// prefix agree. Text that is no network, or a network of the other
/// family, contains nothing.
pub open spec fn spec_ip_in_cidr(ip: IpAddress, cidr: Seq<char>) -> bool {
    match ip {
        IpAddress::V4(a) => spec_ipv4_in_cidr(a, cidr),
        IpAddress::V6(a) => match spec_parse_net6(cidr) {
            Some((b, p)) => (a & spec_mask6(p)) == (b & spec_mask6(p)),
            None => false,
        },
    }
}

fn ipv4_in_cidr(ip: u32, cidr: &str) -> (r: bool)
    ensures
        r == spec_ipv4_in_cidr(ip, cidr@),
{
    match Ipv4Net::parse(cidr) {
        Some(n) => {
            proof {
                assert(spec_parse_net(cidr@) == Some(n));
            }
            n.contains_ip(ip)
        },
        None => false,
    }
}

fn parse_net6(cidr: &str) -> (r: Option<(u128, u32)>)
    ensures
        r == spec_parse_net6(cidr@),
{
    let value = crate::text::chars_of(cidr);
    match crate::text::find_char(&value, '/') {
        None => None,
        Some(k) => {
            proof {
                let c = choose|k2: int| first_index_of(value@, '/', k2);
                assert(c == k);
            }
            let n = value.len();
            let left = crate::text::slice_chars(&value, 0, k);
            let right = crate::text::slice_chars(&value, k + 1, n);
            assert(left@ == value@.take(k as int));
            assert(right@ == value@.skip(k + 1));
            let base = crate::registry::parse_ip_address(crate::text::string_of(&left).as_str());
            let p = crate::text::parse_u32_dec(&right);
            match (base, p) {
                (Some(IpAddress::V6(b)), Some(p)) => if p <= 128 {
                    Some((b, p))
                } else {
                    None
                },
                _ => None,
            }
        },
    }
}

pub fn ip_in_cidr(ip: IpAddress, cidr: &str) -> (r: bool)
    ensures
        r == spec_ip_in_cidr(ip, cidr@),
{
    match ip {
        IpAddress::V4(a) => ipv4_in_cidr(a, cidr),
        IpAddress::V6(a) => match parse_net6(cidr) {
            Some((b, p)) => {
                let m: u128 = if p == 0 {
                    0
                } else {
                    u128::MAX << (128 - p)
                };
                (a & m) == (b & m)
            },
            None => false,
        },
    }
}

/// Loopback addresses: `127.0.0.0/8` and `::1`.
pub open spec fn is_loopback(ip: IpAddress) -> bool {
    match ip {
        IpAddress::V4(a) => a / 16777216 == 127,
        IpAddress::V6(v) => v == 1,
    }
}

/// A remote address may use the control plane: it is a loopback address
/// or lies in one of the trusted networks.
pub open spec fn spec_trusted_remote(cidrs: Seq<String>, ip: IpAddress) -> bool {
    is_loopback(ip) || exists|i: int| 0 <= i < cidrs.len() && spec_ip_in_cidr(ip, #[trigger] cidrs[i]@)
}

pub fn trusted_remote(cidrs: &Vec<String>, ip: IpAddress) -> (r: bool)
    ensures
        r == spec_trusted_remote(cidrs@, ip),
{
    let loopback = match ip {
        IpAddress::V4(a) => a / 16777216 == 127,
        IpAddress::V6(v) => v == 1,
    };
    if loopback {
        return true;
    }
    let mut i: usize = 0;
    while i < cidrs.len()
        invariant
            0 <= i <= cidrs@.len(),
            forall|j: int| 0 <= j < i ==> !spec_ip_in_cidr(ip, #[trigger] cidrs@[j]@),
        decreases cidrs@.len() - i,
    {
        if ip_in_cidr(ip, cidrs[i].as_str()) {
            return true;
        }
        i = i + 1;
    }
    false
}

/// Text of an address as it is displayed.
pub open spec fn ip_text(ip: IpAddress) -> Seq<char> {
    match ip {
        IpAddress::V4(a) => crate::ipnet::ipv4_text(a),
        IpAddress::V6(v) => crate::ipv6::ipv6_text(v),
    }
}

pub fn format_ip(ip: IpAddress) -> (r: String)
    ensures
        r@ == ip_text(ip),
{
    match ip {
        IpAddress::V4(a) => crate::ipnet::format_ipv4(a),
        IpAddress::V6(v) => crate::ipv6::format_ipv6(v),
    }
}

/// Why a control-plane call is refused.
#[derive(Clone, Copy, Debug, PartialEq, Eq, Structural)]
pub enum AuthError {
    /// The bearer token is missing or wrong (unauthenticated).
    BadToken,
    /// The peer address is unknown (permission denied).
    MissingPeer,
    /// The peer is not loopback and in no trusted network (permission
    /// denied).
    Untrusted(IpAddress),
}

pub open spec fn auth_message(e: AuthError) -> Seq<char> {
    match e {
        AuthError::BadToken => "missing or invalid bearer token"@,
        AuthError::MissingPeer => "missing peer address"@,
        AuthError::Untrusted(ip) => "peer "@ + ip_text(ip) + " is not trusted"@,
    }
}

impl AuthError {
    pub fn message(&self) -> (r: String)
        ensures
            r@ == auth_message(*self),
    {
        match self {
            AuthError::BadToken => String::from_str("missing or invalid bearer token"),
            AuthError::MissingPeer => String::from_str("missing peer address"),
            AuthError::Untrusted(ip) => {
                let mut out = crate::text::chars_of("peer ");
                let addr = format_ip(*ip);
                crate::text::extend_chars(&mut out, &crate::text::chars_of(addr.as_str()));
                crate::text::extend_chars(&mut out, &crate::text::chars_of(" is not trusted"));
                crate::text::string_of(&out)
            },
        }
    }
}

/// Whether a call from a peer is let in: with a token configured the
/// call must carry `Bearer <token>` in its authorization header; then the
/// peer must be known and trusted.
pub open spec fn spec_authorize(token: Option<Seq<char>>, got: Seq<char>, remote: Option<IpAddress>, cidrs: Seq<String>) -> Result<(), AuthError> {
    if token matches Some(t) && got != "Bearer "@ + t {
        Err(AuthError::BadToken)
    } else {
        match remote {
            None => Err(AuthError::MissingPeer),
            Some(ip) => if spec_trusted_remote(cidrs, ip) {
                Ok(())
            } else {
                Err(AuthError::Untrusted(ip))
            },
        }
    }
}

pub fn authorize(token: Option<&str>, got: &str, remote: Option<IpAddress>, cidrs: &Vec<String>) -> (r: Result<(), AuthError>)
    ensures
        r == spec_authorize(match token {
            Some(t) => Some(t@),
            None => None,
        }, got@, remote, cidrs@),
{
    if let Some(t) = token {
        let mut expected = crate::text::chars_of("Bearer ");
        crate::text::extend_chars(&mut expected, &crate::text::chars_of(t));
        if !crate::text::chars_eq(&expected, &crate::text::chars_of(got)) {
            return Err(AuthError::BadToken);
        }
    }
    match remote {
        None => Err(AuthError::MissingPeer),
        Some(ip) => if trusted_remote(cidrs, ip) {
            Ok(())
        } else {
            Err(AuthError::Untrusted(ip))
        },
    }
}

} // verus!
