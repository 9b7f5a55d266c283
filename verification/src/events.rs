//! Structured event kinds published for HA and datapath operations.

use vstd::prelude::*;

verus! {

pub const HA_PAIR_SUCCEEDED: &'static str = "ha_pair_succeeded";
pub const HA_PAIR_FAILED: &'static str = "ha_pair_failed";
pub const HA_UNPAIRED: &'static str = "ha_unpaired";
pub const HA_SWITCHOVER_STARTED: &'static str = "ha_switchover_started";
pub const HA_SWITCHOVER_SUCCEEDED: &'static str = "ha_switchover_succeeded";
pub const HA_SWITCHOVER_FAILED: &'static str = "ha_switchover_failed";
pub const HA_STATE_CHANGED: &'static str = "ha_state_changed";
pub const HA_SPLIT_BRAIN_DETECTED: &'static str = "ha_split_brain_detected";
pub const HA_DUAL_BACKUP_DETECTED: &'static str = "ha_dual_backup_detected";
pub const BFD_STATE_CHANGED: &'static str = "bfd_state_changed";
pub const VIP_GARP_SENT: &'static str = "vip_garp_sent";
pub const VIP_GARP_FAILED: &'static str = "vip_garp_failed";
pub const DATAPATH_DEGRADED: &'static str = "datapath_degraded";
pub const DATAPATH_RECOVERED: &'static str = "datapath_recovered";

/// Severity of an event.
#[derive(Debug, Clone, Copy, Default, PartialEq, Eq)]
pub enum Severity {
    #[default]
    Info,
    Warning,
    Critical,
}

/// Every event kind, in a fixed order.
pub open spec fn spec_all_kinds() -> Seq<Seq<char>> {
    seq![
        HA_PAIR_SUCCEEDED@,
        HA_PAIR_FAILED@,
        HA_UNPAIRED@,
        HA_SWITCHOVER_STARTED@,
        HA_SWITCHOVER_SUCCEEDED@,
        HA_SWITCHOVER_FAILED@,
        HA_STATE_CHANGED@,
        HA_SPLIT_BRAIN_DETECTED@,
        HA_DUAL_BACKUP_DETECTED@,
        BFD_STATE_CHANGED@,
        VIP_GARP_SENT@,
        VIP_GARP_FAILED@,
        DATAPATH_DEGRADED@,
        DATAPATH_RECOVERED@,
    ]
}

pub fn all_kinds() -> (r: Vec<&'static str>)
    ensures
        r@.len() == 14,
        forall|i: int| 0 <= i < 14 ==> (#[trigger] r@[i])@ == spec_all_kinds()[i],
{
    let mut v: Vec<&'static str> = Vec::new();
    v.push(HA_PAIR_SUCCEEDED);
    v.push(HA_PAIR_FAILED);
    v.push(HA_UNPAIRED);
    v.push(HA_SWITCHOVER_STARTED);
    v.push(HA_SWITCHOVER_SUCCEEDED);
    v.push(HA_SWITCHOVER_FAILED);
    v.push(HA_STATE_CHANGED);
    v.push(HA_SPLIT_BRAIN_DETECTED);
    v.push(HA_DUAL_BACKUP_DETECTED);
    v.push(BFD_STATE_CHANGED);
    v.push(VIP_GARP_SENT);
    v.push(VIP_GARP_FAILED);
    v.push(DATAPATH_DEGRADED);
    v.push(DATAPATH_RECOVERED);
    v
}

/// Whole seconds since the Unix epoch on the system clock (`SystemTime::now`);
/// zero when the clock reads before the epoch. Nothing is promised of the value.
#[verifier::external_body]
pub fn now_unix() -> (r: u64) {
    std::time::SystemTime::now().duration_since(std::time::UNIX_EPOCH).map(|d| d.as_secs()).unwrap_or(0)
}

} // verus!
