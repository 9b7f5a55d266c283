use edge_lb::return_path::{apply, apply_managed_reusing, heal, ManagedReturnPath, NftStep};

#[test]
fn return_ports_decide_between_loading_and_deleting() {
    assert_eq!(apply(true), NftStep::LoadRuleset);
    assert_eq!(apply(false), NftStep::DeleteTable);
    assert_eq!(apply_managed_reusing(false, Some(ManagedReturnPath)).0, NftStep::DeleteTable);
    assert_eq!(apply_managed_reusing(true, None).0, NftStep::LoadRuleset);
}

#[test]
fn healing_reloads_only_a_missing_table() {
    assert_eq!(heal(true, false).nft, NftStep::LoadRuleset);
    assert!(heal(true, false).then_policy_routing);
    assert_eq!(heal(true, true).nft, NftStep::Keep);
    assert!(heal(true, true).then_policy_routing);
    assert_eq!(heal(false, true).nft, NftStep::DeleteTable);
    assert!(heal(false, true).then_policy_routing);
}
