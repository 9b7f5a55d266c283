use edge_lb::automation::{
    delete_template, matched_nodes, plan_template, template, upsert_template, AutomationConfig,
    AutomationTemplate, FilterCondition, FilterField, FilterOp, MatchedNode, NodeFilter,
    NodeScope, TargetGroupTemplate,
};

fn node(name: &str, underlay_ip: &str) -> MatchedNode {
    MatchedNode {
        name: name.to_string(),
        underlay_ip: underlay_ip.to_string(),
        public_ip: "auto".to_string(),
        underlay_ip_source: Some("udp_source".to_string()),
        public_ip_source: Some("stun".to_string()),
    }
}

#[test]
fn plan_template_creates_one_target_group_with_matched_targets() {
    let template = AutomationTemplate {
        name: "template-targets-a".to_string(),
        node_scope: NodeScope::Filtered,
        node_filter: Some(NodeFilter {
            conditions: vec![FilterCondition {
                field: FilterField::Name,
                op: FilterOp::Prefix,
                value: "backend-".to_string(),
            }],
        }),
        target_group: TargetGroupTemplate {
            name: "targets-a".to_string(),
            monitor: true,
            probe_type: Some("http".to_string()),
        },
    };

    let planned = plan_template(
        &template,
        &[node("backend-a", "192.168.0.14"), node("other", "192.168.0.15")],
    );

    assert_eq!(planned.name, "targets-a");
    assert_eq!(planned.template, "template-targets-a");
    assert!(planned.monitor);
    assert_eq!(planned.probe_type, "http");
    assert_eq!(planned.targets.len(), 1);
    assert_eq!(planned.targets[0].underlay_ip, "192.168.0.14");
}

#[test]
fn negative_filter_ops_work() {
    let template = AutomationTemplate {
        node_scope: NodeScope::Filtered,
        node_filter: Some(NodeFilter {
            conditions: vec![
                FilterCondition {
                    field: FilterField::Name,
                    op: FilterOp::NotPrefix,
                    value: "skip-".to_string(),
                },
                FilterCondition {
                    field: FilterField::UnderlayIp,
                    op: FilterOp::NotInCidr,
                    value: "192.168.1.0/24".to_string(),
                },
            ],
        }),
        ..AutomationTemplate::default()
    };

    let matched = matched_nodes(
        &template,
        &[
            node("backend-a", "192.168.0.14"),
            node("skip-a", "192.168.0.15"),
            node("backend-b", "192.168.1.14"),
        ],
    );

    assert_eq!(matched.len(), 1);
    assert_eq!(matched[0].name, "backend-a");
}

#[test]
fn unnamed_target_group_is_named_after_the_template() {
    let template = AutomationTemplate { name: "web".to_string(), ..AutomationTemplate::default() };
    let planned = plan_template(&template, &[node("a", "10.0.0.1")]);
    assert_eq!(planned.name, "web-targets");
    assert_eq!(planned.probe_type, "none");
    assert_eq!(planned.targets.len(), 1);
}

#[test]
fn regex_and_cidr_filters_select_nodes() {
    let template = AutomationTemplate {
        node_scope: NodeScope::Filtered,
        node_filter: Some(NodeFilter {
            conditions: vec![
                FilterCondition { field: FilterField::Name, op: FilterOp::Regex, value: "^be-[0-9]+$".to_string() },
                FilterCondition { field: FilterField::UnderlayIp, op: FilterOp::InCidr, value: "10.0.0.0/8".to_string() },
            ],
        }),
        ..AutomationTemplate::default()
    };
    let matched = matched_nodes(
        &template,
        &[node("be-1", "10.1.2.3"), node("be-x", "10.1.2.4"), node("be-2", "192.168.0.1")],
    );
    assert_eq!(matched.len(), 1);
    assert_eq!(matched[0].name, "be-1");
}

#[test]
fn upsert_replaces_by_old_name_and_delete_removes_by_name() {
    let a = AutomationTemplate { name: "a".to_string(), ..AutomationTemplate::default() };
    let b = AutomationTemplate { name: "b".to_string(), ..AutomationTemplate::default() };
    let (cfg, _) = upsert_template(AutomationConfig::default(), None, a);
    let (cfg, stored) = upsert_template(cfg, Some("a"), b);
    assert_eq!(stored.name, "b");
    assert_eq!(cfg.templates.len(), 1);
    assert!(template(&cfg, "b").is_some());
    assert!(template(&cfg, "a").is_none());
    let (cfg, changed) = delete_template(cfg, "b");
    assert!(changed);
    assert!(cfg.templates.is_empty());
    let (_, changed) = delete_template(cfg, "b");
    assert!(!changed);
}
