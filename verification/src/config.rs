//! Configuration records of listeners and target groups.

use vstd::prelude::*;
use crate::route_msg::IpAddress;

verus! {

/// Transport protocol of a listener.
#[derive(Clone, Copy, Debug, Default, PartialEq, Eq, Structural)]
pub enum Protocol {
    #[default]
    Tcp,
    Udp,
}

/// Lower-case name of a protocol.
pub open spec fn protocol_name(p: Protocol) -> Seq<char> {
    match p {
        Protocol::Tcp => "tcp"@,
        Protocol::Udp => "udp"@,
    }
}

impl Protocol {
    pub fn as_str(&self) -> (s: &'static str)
        ensures
            s@ == protocol_name(*self),
    {
        match self {
            Protocol::Tcp => "tcp",
            Protocol::Udp => "udp",
        }
    }
}

/// A backend member of a target group.
#[derive(Clone, Debug, Default, PartialEq, Eq)]
pub struct BackendTarget {
    pub backend: Option<String>,
    pub address: String,
    pub weight: u32,
}

/// A group of backends with its health probe settings.
#[derive(Clone, Debug, Default, PartialEq, Eq)]
pub struct TargetGroup {
    pub name: String,
    pub monitor: bool,
    pub probe_type: Option<String>,
    pub probe_port: Option<u16>,
    pub probe_req: Option<String>,
    pub probe_resp: Option<String>,
    pub probe_status: Option<u16>,
    pub probe_skip_tls_verify: bool,
    pub period_secs: Option<u32>,
    pub retries: Option<u32>,
    pub targets: Vec<BackendTarget>,
}

/// How a listener picks a backend.
#[derive(Clone, Copy, Debug, Default, PartialEq, Eq, Structural)]
pub enum LbSelect {
    #[default]
    Rr,
    Hash,
    Priority,
    Persist,
    Lc,
}

/// The datapath code of a selection policy.
pub open spec fn select_code(s: LbSelect) -> u32 {
    match s {
        LbSelect::Rr => 0,
        LbSelect::Hash => 1,
        LbSelect::Priority => 2,
        LbSelect::Persist => 3,
        LbSelect::Lc => 4,
    }
}

impl LbSelect {
    pub fn code(&self) -> (r: u32)
        ensures
            r == select_code(*self),
    {
        match self {
            LbSelect::Rr => 0,
            LbSelect::Hash => 1,
            LbSelect::Priority => 2,
            LbSelect::Persist => 3,
            LbSelect::Lc => 4,
        }
    }
}

/// How a listener forwards traffic; the native datapath does plain DNAT
/// (`Default`) only.
#[derive(Clone, Copy, Debug, Default, PartialEq, Eq, Structural)]
pub enum LbMode {
    #[default]
    Default,
    Onearm,
    Fullnat,
    Dsr,
    Fullproxy,
    Hostonearm,
}

/// The datapath code of a forwarding mode.
pub open spec fn mode_code(m: LbMode) -> u32 {
    match m {
        LbMode::Default => 0,
        LbMode::Onearm => 1,
        LbMode::Fullnat => 2,
        LbMode::Dsr => 3,
        LbMode::Fullproxy => 4,
        LbMode::Hostonearm => 5,
    }
}

impl LbMode {
    pub fn code(&self) -> (r: u32)
        ensures
            r == mode_code(*self),
    {
        match self {
            LbMode::Default => 0,
            LbMode::Onearm => 1,
            LbMode::Fullnat => 2,
            LbMode::Dsr => 3,
            LbMode::Fullproxy => 4,
            LbMode::Hostonearm => 5,
        }
    }
}

/// A business listener: a VIP port forwarded to a target group.
#[derive(Clone, Debug, Default, PartialEq, Eq)]
pub struct Listener {
    pub name: String,
    pub port: u16,
    pub target_port: u16,
    pub target_group: String,
    pub vip_ips: Vec<IpAddress>,
    pub protocols: Vec<Protocol>,
    pub select: LbSelect,
    pub mode: LbMode,
    pub inactive_timeout: Option<u32>,
}

} // verus!
