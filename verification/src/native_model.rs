//! The native datapath's view of the configured listeners: the VIPs a
//! listener answers on and the datapath listeners it expands to, one per VIP
//! and protocol.

use vstd::prelude::*;
use crate::config::{Listener, Protocol, LbMode, select_code};
use crate::route_msg::IpAddress;
use crate::native_store::{NativeProtocol, NativeTargetState};
use crate::native_dnat::{NativeListener, NativeListenerKey, NativeTarget};

verus! {

/// Why the configuration cannot be given to the native datapath.
#[derive(Clone, Copy, Debug, PartialEq, Eq, Structural)]
pub enum ModelError {
    /// An address that must be a real IPv4 address is `0.0.0.0`.
    Unspecified,
    /// The native datapath handles IPv4 only.
    Ipv6Unsupported,
    /// The native datapath does plain DNAT only.
    NonDefaultMode,
    /// A listener names a target group that does not exist.
    MissingTargetGroup,
}

pub open spec fn spec_ipv4_addr(ip: IpAddress) -> Result<u32, ModelError> {
    match ip {
        IpAddress::V4(a) => if a == 0 {
            Err(ModelError::Unspecified)
        } else {
            Ok(a)
        },
        IpAddress::V6(_) => Err(ModelError::Ipv6Unsupported),
    }
}

pub fn ipv4_addr(ip: IpAddress) -> (r: Result<u32, ModelError>)
    ensures
        r == spec_ipv4_addr(ip),
{
    match ip {
        IpAddress::V4(a) => if a == 0 {
            Err(ModelError::Unspecified)
        } else {
            Ok(a)
        },
        IpAddress::V6(_) => Err(ModelError::Ipv6Unsupported),
    }
}

/// The VIPs of a listener: the gateway address first, then each configured
/// VIP not yet listed, then the shared HA VIP if not yet listed; the first
/// configured VIP that is not a usable IPv4 address is the error.
pub open spec fn spec_merge_vips(gateway: u32, configured: Seq<IpAddress>, shared: Option<u32>) -> Result<Seq<u32>, ModelError>
    decreases configured.len(),
{
    if configured.len() == 0 {
        match shared {
            Some(v) => Ok(add_new(seq![gateway], v)),
            None => Ok(seq![gateway]),
        }
    } else {
        match spec_merge_vips_configured(gateway, configured) {
            Err(e) => Err(e),
            Ok(vs) => match shared {
                Some(v) => Ok(add_new(vs, v)),
                None => Ok(vs),
            },
        }
    }
}

pub open spec fn add_new(s: Seq<u32>, v: u32) -> Seq<u32> {
    if s.contains(v) {
        s
    } else {
        s.push(v)
    }
}

pub open spec fn spec_merge_vips_configured(gateway: u32, configured: Seq<IpAddress>) -> Result<Seq<u32>, ModelError>
    decreases configured.len(),
{
    if configured.len() == 0 {
        Ok(seq![gateway])
    } else {
        match spec_merge_vips_configured(gateway, configured.drop_last()) {
            Err(e) => Err(e),
            Ok(vs) => match spec_ipv4_addr(configured.last()) {
                Err(e) => Err(e),
                Ok(v) => Ok(add_new(vs, v)),
            },
        }
    }
}

fn push_new(v: &mut Vec<u32>, x: u32)
    ensures
        final(v)@ == add_new(old(v)@, x),
{
    let mut i: usize = 0;
    while i < v.len()
        invariant
            i <= v@.len(),
            forall|j: int| 0 <= j < i ==> v@[j] != x,
        decreases v@.len() - i,
    {
        if v[i] == x {
            assert(v@[i as int] == x);
            return;
        }
        i = i + 1;
    }
    v.push(x);
}

pub fn merge_vip_ips(gateway: u32, configured: &Vec<IpAddress>, shared: Option<u32>) -> (r: Result<Vec<u32>, ModelError>)
    ensures
        match r {
            Ok(v) => spec_merge_vips(gateway, configured@, shared) == Ok::<Seq<u32>, ModelError>(v@),
            Err(e) => spec_merge_vips(gateway, configured@, shared) == Err::<Seq<u32>, ModelError>(e),
        },
{
    let mut values: Vec<u32> = vec![gateway];
    let mut i: usize = 0;
    assert(values@ =~= seq![gateway]);
    while i < configured.len()
        invariant
            i <= configured@.len(),
            spec_merge_vips_configured(gateway, configured@.take(i as int)) == Ok::<Seq<u32>, ModelError>(values@),
        decreases configured@.len() - i,
    {
        assert(configured@.take(i + 1).drop_last() =~= configured@.take(i as int));
        match ipv4_addr(configured[i]) {
            Err(e) => {
                proof {
                    lemma_merge_error_sticks(gateway, configured@, i as int + 1);
                }
                return Err(e);
            },
            Ok(v) => push_new(&mut values, v),
        }
        i = i + 1;
    }
    assert(configured@.take(i as int) =~= configured@);
    if let Some(v) = shared {
        push_new(&mut values, v);
    }
    Ok(values)
}

/// Once the configured VIPs fail on a prefix, they fail with that error.
proof fn lemma_merge_error_sticks(gateway: u32, configured: Seq<IpAddress>, k: int)
    requires
        0 < k <= configured.len(),
        spec_merge_vips_configured(gateway, configured.take(k)) is Err,
    ensures
        spec_merge_vips_configured(gateway, configured) == spec_merge_vips_configured(gateway, configured.take(k)),
    decreases configured.len() - k,
{
    if k < configured.len() {
        assert(configured.take(k + 1).drop_last() =~= configured.take(k));
        lemma_merge_error_sticks(gateway, configured, k + 1);
    } else {
        assert(configured.take(k) =~= configured);
    }
}

/// The VIPs a listener answers on, from the node's gateway address, the
/// listener's VIPs, and the shared HA VIP (used when it is a real IPv4
/// address).
pub fn effective_vip_ips(gateway_ip: IpAddress, configured: &Vec<IpAddress>, shared_vip: Option<IpAddress>) -> (r: Result<Vec<u32>, ModelError>)
    ensures
        match spec_ipv4_addr(gateway_ip) {
            Err(e) => r == Err::<Vec<u32>, ModelError>(e),
            Ok(g) => {
                let shared = match shared_vip {
                    Some(ip) => match spec_ipv4_addr(ip) {
                        Ok(v) => Some(v),
                        Err(_) => None,
                    },
                    None => None,
                };
                match r {
                    Ok(v) => spec_merge_vips(g, configured@, shared) == Ok::<Seq<u32>, ModelError>(v@),
                    Err(e) => spec_merge_vips(g, configured@, shared) == Err::<Seq<u32>, ModelError>(e),
                }
            },
        },
{
    let gateway = match ipv4_addr(gateway_ip) {
        Ok(g) => g,
        Err(e) => {
            return Err(e);
        },
    };
    let shared = match shared_vip {
        Some(ip) => match ipv4_addr(ip) {
            Ok(v) => Some(v),
            Err(_) => None,
        },
        None => None,
    };
    merge_vip_ips(gateway, configured, shared)
}

pub open spec fn native_protocol(p: Protocol) -> NativeProtocol {
    match p {
        Protocol::Tcp => NativeProtocol::Tcp,
        Protocol::Udp => NativeProtocol::Udp,
    }
}

/// The datapath keys of a listener: for each VIP in order, one per protocol in order.
pub open spec fn expand_keys(vips: Seq<u32>, port: u16, protocols: Seq<Protocol>) -> Seq<NativeListenerKey>
    decreases vips.len(),
{
    if vips.len() == 0 {
        seq![]
    } else {
        expand_keys(vips.drop_last(), port, protocols) + protocols.map_values(
            |p: Protocol| NativeListenerKey { vip_ip: vips.last(), vip_port: port, protocol: native_protocol(p) },
        )
    }
}

/// A resolved backend of a target group: its address and weight.
#[derive(Clone, Copy, Debug, PartialEq, Eq, Structural)]
pub struct ResolvedTarget {
    pub address: IpAddress,
    pub weight: u32,
}

/// The datapath endpoints of a group, all forwarding to `port`; the first
/// address that is not a usable IPv4 address is the error.
pub open spec fn spec_endpoints(targets: Seq<ResolvedTarget>, port: u16) -> Result<Seq<NativeTarget>, ModelError>
    decreases targets.len(),
{
    if targets.len() == 0 {
        Ok(seq![])
    } else {
        match spec_endpoints(targets.drop_last(), port) {
            Err(e) => Err(e),
            Ok(es) => match spec_ipv4_addr(targets.last().address) {
                Err(e) => Err(e),
                Ok(a) => Ok(es.push(NativeTarget { address: a, port, weight: targets.last().weight, state: NativeTargetState::Active })),
            },
        }
    }
}

proof fn lemma_endpoints_error_sticks(targets: Seq<ResolvedTarget>, port: u16, k: int)
    requires
        0 <= k <= targets.len(),
        spec_endpoints(targets.take(k), port) is Err,
    ensures
        spec_endpoints(targets, port) == spec_endpoints(targets.take(k), port),
    decreases targets.len() - k,
{
    if k < targets.len() {
        assert(targets.take(k + 1).drop_last() =~= targets.take(k));
        lemma_endpoints_error_sticks(targets, port, k + 1);
    } else {
        assert(targets.take(k) =~= targets);
    }
}

pub fn endpoints_of(targets: &Vec<ResolvedTarget>, port: u16) -> (r: Result<Vec<NativeTarget>, ModelError>)
    ensures
        match r {
            Ok(v) => spec_endpoints(targets@, port) == Ok::<Seq<NativeTarget>, ModelError>(v@),
            Err(e) => spec_endpoints(targets@, port) == Err::<Seq<NativeTarget>, ModelError>(e),
        },
{
    let mut out: Vec<NativeTarget> = Vec::new();
    let mut i: usize = 0;
    while i < targets.len()
        invariant
            i <= targets@.len(),
            spec_endpoints(targets@.take(i as int), port) == Ok::<Seq<NativeTarget>, ModelError>(out@),
        decreases targets@.len() - i,
    {
        assert(targets@.take(i + 1).drop_last() =~= targets@.take(i as int));
        match ipv4_addr(targets[i].address) {
            Err(e) => {
                proof {
                    lemma_endpoints_error_sticks(targets@, port, i as int + 1);
                }
                return Err(e);
            },
            Ok(a) => {
                out.push(NativeTarget { address: a, port, weight: targets[i].weight, state: NativeTargetState::Active });
            },
        }
        i = i + 1;
    }
    assert(targets@.take(i as int) =~= targets@);
    Ok(out)
}

/// What a datapath listener built from a configured listener holds.
pub open spec fn built_from(n: NativeListener, l: Listener, key: NativeListenerKey, dscp: u32, endpoints: Seq<NativeTarget>) -> bool {
    &&& n.name@ == l.name@
    &&& n.key == key
    &&& n.select == select_code(l.select)
    &&& n.inactive_timeout_secs == (match l.inactive_timeout {
        Some(t) => t,
        None => 240u32,
    })
    &&& n.dscp == dscp
    &&& n.endpoints@ == endpoints
}

/// The datapath listeners of a configured listener over its resolved target
/// group. Only plain DNAT listeners are accepted; a group without targets
/// gives no datapath listener (it waits for its first backend).
pub fn listener_from_target_group(
    listener: &Listener,
    targets: &Vec<ResolvedTarget>,
    gateway_ip: IpAddress,
    shared_vip: Option<IpAddress>,
    dscp: u32,
) -> (r: Result<Vec<NativeListener>, ModelError>)
    ensures
        listener.mode != LbMode::Default ==> r == Err::<Vec<NativeListener>, ModelError>(ModelError::NonDefaultMode),
        listener.mode == LbMode::Default ==> match spec_endpoints(targets@, listener.target_port) {
            Err(e) => r == Err::<Vec<NativeListener>, ModelError>(e),
            Ok(es) => if es.len() == 0 {
                r matches Ok(v) && v@.len() == 0
            } else {
                match r {
                    Err(_) => spec_ipv4_addr(gateway_ip) is Err || spec_merge_vips(spec_ipv4_addr(gateway_ip)->Ok_0, listener.vip_ips@, shared_of(shared_vip)) is Err,
                    Ok(v) => spec_ipv4_addr(gateway_ip) is Ok && ({
                        let vips = spec_merge_vips(spec_ipv4_addr(gateway_ip)->Ok_0, listener.vip_ips@, shared_of(shared_vip))->Ok_0;
                        let keys = expand_keys(vips, listener.port, listener.protocols@);
                        &&& spec_merge_vips(spec_ipv4_addr(gateway_ip)->Ok_0, listener.vip_ips@, shared_of(shared_vip)) is Ok
                        &&& v@.len() == keys.len()
                        &&& forall|i: int| 0 <= i < keys.len() ==> built_from(#[trigger] v@[i], *listener, keys[i], dscp, es)
                    }),
                }
            },
        },
{
    if listener.mode != LbMode::Default {
        return Err(ModelError::NonDefaultMode);
    }
    let endpoints = match endpoints_of(targets, listener.target_port) {
        Ok(es) => es,
        Err(e) => {
            return Err(e);
        },
    };
    if endpoints.len() == 0 {
        return Ok(Vec::new());
    }
    let vips = match effective_vip_ips(gateway_ip, &listener.vip_ips, shared_vip) {
        Ok(v) => v,
        Err(e) => {
            return Err(e);
        },
    };
    let ghost keys = expand_keys(vips@, listener.port, listener.protocols@);
    let timeout = match listener.inactive_timeout {
        Some(t) => t,
        None => 240,
    };
    let select = listener.select.code();
    let mut out: Vec<NativeListener> = Vec::new();
    let mut i: usize = 0;
    while i < vips.len()
        invariant
            i <= vips@.len(),
            keys == expand_keys(vips@, listener.port, listener.protocols@),
            select == select_code(listener.select),
            timeout == (match listener.inactive_timeout {
                Some(t) => t,
                None => 240u32,
            }),
            out@.len() == expand_keys(vips@.take(i as int), listener.port, listener.protocols@).len(),
            forall|k: int| 0 <= k < out@.len() ==> built_from(#[trigger] out@[k], *listener, expand_keys(vips@.take(i as int), listener.port, listener.protocols@)[k], dscp, endpoints@),
        decreases vips@.len() - i,
    {
        let ghost before = out@;
        let ghost prefix = expand_keys(vips@.take(i as int), listener.port, listener.protocols@);
        assert(vips@.take(i + 1).drop_last() =~= vips@.take(i as int));
        let mut j: usize = 0;
        while j < listener.protocols.len()
            invariant
                i < vips@.len(),
                j <= listener.protocols@.len(),
                select == select_code(listener.select),
                timeout == (match listener.inactive_timeout {
                    Some(t) => t,
                    None => 240u32,
                }),
                out@.len() == before.len() + j,
                before.len() == prefix.len(),
                forall|k: int| 0 <= k < before.len() ==> built_from(#[trigger] out@[k], *listener, prefix[k], dscp, endpoints@),
                forall|k: int| 0 <= k < before.len() ==> out@[k] == before[k],
                forall|t: int| 0 <= t < j ==> built_from(#[trigger] out@[before.len() + t], *listener,
                    NativeListenerKey { vip_ip: vips@[i as int], vip_port: listener.port, protocol: native_protocol(listener.protocols@[t]) }, dscp, endpoints@),
            decreases listener.protocols@.len() - j,
        {
            let protocol = match listener.protocols[j] {
                Protocol::Tcp => NativeProtocol::Tcp,
                Protocol::Udp => NativeProtocol::Udp,
            };
            let n = NativeListener {
                name: listener.name.clone(),
                key: NativeListenerKey { vip_ip: vips[i], vip_port: listener.port, protocol },
                select,
                inactive_timeout_secs: timeout,
                dscp,
                endpoints: endpoints.clone(),
            };
            out.push(n);
            j = j + 1;
        }
        let ghost next = expand_keys(vips@.take(i + 1), listener.port, listener.protocols@);
        assert forall|k: int| 0 <= k < out@.len() implies built_from(#[trigger] out@[k], *listener, next[k], dscp, endpoints@) by {
            if k >= before.len() {
                let t = k - before.len();
                assert(out@[before.len() + t] == out@[k]);
            }
        }
        i = i + 1;
    }
    assert(vips@.take(i as int) =~= vips@);
    Ok(out)
}

pub open spec fn shared_of(shared_vip: Option<IpAddress>) -> Option<u32> {
    match shared_vip {
        Some(ip) => match spec_ipv4_addr(ip) {
            Ok(v) => Some(v),
            Err(_) => None,
        },
        None => None,
    }
}

} // verus!
