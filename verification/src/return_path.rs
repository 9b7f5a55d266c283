//! What the backend does to its return-path nft table: load the ruleset
//! when it has return ports, drop the table when it has none, and reload a
//! missing table when healing.

use vstd::prelude::*;

verus! {

/// One step on the agent-owned nft table.
#[derive(Clone, Copy, Debug, PartialEq, Eq, Structural)]
pub enum NftStep {
    /// Delete the table.
    DeleteTable,
    /// Load the full ruleset, replacing the table.
    LoadRuleset,
    /// Leave the table as it is.
    Keep,
}

/// The return path this agent manages (the nft table).
#[derive(Clone, Copy, Debug, PartialEq, Eq, Structural)]
pub struct ManagedReturnPath;

/// Applying the return path loads the ruleset, or deletes the table when
/// there are no return ports.
pub fn apply(has_return_ports: bool) -> (r: NftStep)
    ensures
        r == (if has_return_ports {
            NftStep::LoadRuleset
        } else {
            NftStep::DeleteTable
        }),
{
    if has_return_ports {
        NftStep::LoadRuleset
    } else {
        NftStep::DeleteTable
    }
}

/// As `apply`; the managed return path is the same whatever was managed
/// before.
pub fn apply_managed_reusing(has_return_ports: bool, existing: Option<ManagedReturnPath>) -> (r: (NftStep, ManagedReturnPath))
    ensures
        r.0 == (if has_return_ports {
            NftStep::LoadRuleset
        } else {
            NftStep::DeleteTable
        }),
{
    (apply(has_return_ports), ManagedReturnPath)
}

/// What healing does: a step on the nft table, then policy routing.
#[derive(Clone, Copy, Debug, PartialEq, Eq, Structural)]
pub struct HealPlan {
    pub nft: NftStep,
    /// Policy routing is ensured once the nft step has succeeded.
    pub then_policy_routing: bool,
}

/// Healing deletes the table when there are no return ports, reloads it
/// when it is missing, and otherwise leaves it; policy routing is ensured
/// after the nft step, whose error (a failed reload) is returned instead.
pub fn heal(has_return_ports: bool, table_exists: bool) -> (r: HealPlan)
    ensures
        r.nft == (if !has_return_ports {
            NftStep::DeleteTable
        } else if !table_exists {
            NftStep::LoadRuleset
        } else {
            NftStep::Keep
        }),
        r.then_policy_routing,
{
    let nft = if !has_return_ports {
        NftStep::DeleteTable
    } else if !table_exists {
        NftStep::LoadRuleset
    } else {
        NftStep::Keep
    };
    HealPlan { nft, then_policy_routing: true }
}

} // verus!
