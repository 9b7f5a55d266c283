//! Kernel tuning of the datapath hosts: forwarding must be on, capacity knobs
//! are raised to production floors and the FIN timeout lowered to a ceiling,
//! never the other way round.

use vstd::prelude::*;

verus! {

pub const IPV4_FORWARD: &'static str = "/proc/sys/net/ipv4/ip_forward";
pub const SOMAXCONN: &'static str = "/proc/sys/net/core/somaxconn";
pub const NETDEV_MAX_BACKLOG: &'static str = "/proc/sys/net/core/netdev_max_backlog";
pub const RMEM_MAX: &'static str = "/proc/sys/net/core/rmem_max";
pub const WMEM_MAX: &'static str = "/proc/sys/net/core/wmem_max";
pub const TCP_MAX_SYN_BACKLOG: &'static str = "/proc/sys/net/ipv4/tcp_max_syn_backlog";
pub const TCP_FIN_TIMEOUT: &'static str = "/proc/sys/net/ipv4/tcp_fin_timeout";
pub const NF_CONNTRACK_MAX: &'static str = "/proc/sys/net/netfilter/nf_conntrack_max";

pub const TARGET_SOMAXCONN: u64 = 65_535;
pub const TARGET_NETDEV_MAX_BACKLOG: u64 = 250_000;
pub const TARGET_SOCKET_BUFFER_MAX: u64 = 134_217_728;
pub const TARGET_TCP_MAX_SYN_BACKLOG: u64 = 65_535;
pub const TARGET_TCP_FIN_TIMEOUT: u64 = 15;
pub const TARGET_NF_CONNTRACK_MAX: u64 = 262_144;

/// How a knob is tuned: raised to a floor, or lowered to a ceiling.
#[derive(Clone, Copy, Debug, PartialEq, Eq)]
pub enum SysctlRule {
    Floor(u64),
    Ceiling(u64),
}

/// The value to write for a knob currently at `current`, if any.
pub open spec fn spec_next_value(rule: SysctlRule, current: u64) -> Option<u64> {
    match rule {
        SysctlRule::Floor(floor) => if current < floor {
            Some(floor)
        } else {
            None
        },
        SysctlRule::Ceiling(ceiling) => if current > ceiling {
            Some(ceiling)
        } else {
            None
        },
    }
}

pub fn next_value(rule: SysctlRule, current: u64) -> (r: Option<u64>)
    ensures
        r == spec_next_value(rule, current),
{
    match rule {
        SysctlRule::Floor(floor) => if current < floor {
            Some(floor)
        } else {
            None
        },
        SysctlRule::Ceiling(ceiling) => if current > ceiling {
            Some(ceiling)
        } else {
            None
        },
    }
}

/// Law: tuning never lowers a floored knob nor raises a ceilinged one, and a
/// second pass over the tuned value writes nothing.
pub proof fn tuning_is_monotone_and_idempotent(rule: SysctlRule, current: u64)
    ensures
        spec_next_value(rule, current) matches Some(v) ==> match rule {
            SysctlRule::Floor(_) => v > current,
            SysctlRule::Ceiling(_) => v < current,
        },
        spec_next_value(rule, current) matches Some(v) ==> spec_next_value(rule, v) is None,
{
}

/// One knob of a tuning plan.
#[derive(Clone, Copy, Debug, PartialEq, Eq)]
pub struct TuningStep {
    pub path: &'static str,
    pub rule: SysctlRule,
}

/// What a datapath host must do: enable IPv4 forwarding (fatal when it
/// fails) and apply the capacity steps (best effort, in order).
#[derive(Clone, Debug)]
pub struct DatapathTuning {
    pub require_ipv4_forwarding: bool,
    pub steps: Vec<TuningStep>,
}

/// The rules of the tuning plan, in the order they are applied.
pub open spec fn spec_tuning_rules() -> Seq<SysctlRule> {
    seq![
        SysctlRule::Floor(TARGET_SOMAXCONN),
        SysctlRule::Floor(TARGET_NETDEV_MAX_BACKLOG),
        SysctlRule::Floor(TARGET_SOCKET_BUFFER_MAX),
        SysctlRule::Floor(TARGET_SOCKET_BUFFER_MAX),
        SysctlRule::Floor(TARGET_TCP_MAX_SYN_BACKLOG),
        SysctlRule::Ceiling(TARGET_TCP_FIN_TIMEOUT),
        SysctlRule::Floor(TARGET_NF_CONNTRACK_MAX),
    ]
}

/// The knobs of the tuning plan, in the order they are applied.
pub open spec fn spec_tuning_paths() -> Seq<Seq<char>> {
    seq![
        SOMAXCONN@,
        NETDEV_MAX_BACKLOG@,
        RMEM_MAX@,
        WMEM_MAX@,
        TCP_MAX_SYN_BACKLOG@,
        TCP_FIN_TIMEOUT@,
        NF_CONNTRACK_MAX@,
    ]
}

fn datapath_tuning() -> (t: DatapathTuning)
    ensures
        t.require_ipv4_forwarding,
        t.steps@.len() == 7,
        forall|i: int| 0 <= i < 7 ==> (#[trigger] t.steps@[i]).rule == spec_tuning_rules()[i] && t.steps@[i].path@ == spec_tuning_paths()[i],
{
    let mut steps: Vec<TuningStep> = Vec::new();
    steps.push(TuningStep { path: SOMAXCONN, rule: SysctlRule::Floor(TARGET_SOMAXCONN) });
    steps.push(TuningStep { path: NETDEV_MAX_BACKLOG, rule: SysctlRule::Floor(TARGET_NETDEV_MAX_BACKLOG) });
    steps.push(TuningStep { path: RMEM_MAX, rule: SysctlRule::Floor(TARGET_SOCKET_BUFFER_MAX) });
    steps.push(TuningStep { path: WMEM_MAX, rule: SysctlRule::Floor(TARGET_SOCKET_BUFFER_MAX) });
    steps.push(TuningStep { path: TCP_MAX_SYN_BACKLOG, rule: SysctlRule::Floor(TARGET_TCP_MAX_SYN_BACKLOG) });
    steps.push(TuningStep { path: TCP_FIN_TIMEOUT, rule: SysctlRule::Ceiling(TARGET_TCP_FIN_TIMEOUT) });
    steps.push(TuningStep { path: NF_CONNTRACK_MAX, rule: SysctlRule::Floor(TARGET_NF_CONNTRACK_MAX) });
    DatapathTuning { require_ipv4_forwarding: true, steps }
}

/// Tuning plan of a gateway host.
pub fn ensure_gateway_datapath_tuning() -> (t: DatapathTuning)
    ensures
        t.require_ipv4_forwarding,
        t.steps@.len() == 7,
        forall|i: int| 0 <= i < 7 ==> (#[trigger] t.steps@[i]).rule == spec_tuning_rules()[i] && t.steps@[i].path@ == spec_tuning_paths()[i],
{
    datapath_tuning()
}

/// Tuning plan of a backend host: the same knobs, since replies may cross
/// host bridges before policy routing returns them.
pub fn ensure_backend_datapath_tuning() -> (t: DatapathTuning)
    ensures
        t.require_ipv4_forwarding,
        t.steps@.len() == 7,
        forall|i: int| 0 <= i < 7 ==> (#[trigger] t.steps@[i]).rule == spec_tuning_rules()[i] && t.steps@[i].path@ == spec_tuning_paths()[i],
{
    datapath_tuning()
}

/// Forwarding must be enabled unless the kernel already reports `1`.
pub fn forwarding_needs_enable(current: &str) -> (r: bool)
    ensures
        r == (crate::text::trim(current@) != seq!['1']),
{
    let t = crate::text::trimmed(current);
    let one: Vec<char> = vec!['1'];
    assert(one@ =~= seq!['1']);
    !crate::text::chars_eq(&t, &one)
}

} // verus!
