use edge_lb::router::{canonical_path, load_options, LoadOptions, Method};

#[test]
fn v1_listener_config_paths_dispatch_to_listener_config_handlers() {
    assert_eq!(canonical_path("/api/v1/listener-configs"), Some("/api/listener-configs".to_string()));
    assert_eq!(
        canonical_path("/api/v1/listener-configs/tcp-80"),
        Some("/api/listener-configs/tcp-80".to_string())
    );
    assert_eq!(
        canonical_path("/api/v1/listener-configs/export"),
        Some("/api/listener-configs/export".to_string())
    );
}

#[test]
fn v1_public_resources_are_normalized() {
    assert_eq!(canonical_path("/api/v1/automations"), Some("/api/automation-templates".to_string()));
    assert_eq!(canonical_path("/api/v1/nodes/backends"), Some("/api/backend-nodes".to_string()));
    assert_eq!(canonical_path("/api/v1/operations/failover"), Some("/api/failover".to_string()));
    assert_eq!(canonical_path("/api/v1/automation-templates"), None);
    assert_eq!(
        canonical_path("/api/v1/ha/peer/automation-templates/active"),
        Some("/api/ha/peer/automation-templates/active".to_string())
    );
    assert_eq!(canonical_path("/api/v1/ha/peer/automations/active"), None);
    assert_eq!(canonical_path("/api/v1/backend-nodes"), None);
    assert_eq!(canonical_path("/api/v1/apply"), None);
}

#[test]
fn frontend_v1_resource_surface_has_canonical_paths() {
    let paths = [
        "/api/v1/status",
        "/api/v1/target-groups",
        "/api/v1/target-groups/export",
        "/api/v1/target-groups/import",
        "/api/v1/listener-configs",
        "/api/v1/listener-configs/export",
        "/api/v1/listener-configs/tcp-udp-443",
        "/api/v1/nodes/gateways",
        "/api/v1/nodes/backends",
        "/api/v1/nodes/backend-subscriptions",
        "/api/v1/ha/config",
        "/api/v1/ha/status",
        "/api/v1/notifications",
        "/api/v1/automations",
        "/api/v1/operations/apply",
    ];

    for path in paths {
        assert!(
            canonical_path(path).is_some_and(|path| path.starts_with("/api/")),
            "v1 path was not normalized: {path}"
        );
    }
}

#[test]
fn automation_items_keep_their_name() {
    assert_eq!(
        canonical_path("/api/v1/automations/web"),
        Some("/api/automation-templates/web".to_string())
    );
    assert_eq!(canonical_path("/other"), None);
}

#[test]
fn listing_listeners_loads_proxy_state_and_subscriptions() {
    assert_eq!(
        load_options(Method::Get, "/api/v1/listener-configs"),
        LoadOptions { hydrate_proxy: true, merge_backend_subscriptions: true }
    );
    assert_eq!(
        load_options(Method::Get, "/api/v1/nodes/backends"),
        LoadOptions { hydrate_proxy: false, merge_backend_subscriptions: true }
    );
    assert_eq!(
        load_options(Method::Put, "/api/v1/ha/peer/proxy-config/replica"),
        LoadOptions { hydrate_proxy: false, merge_backend_subscriptions: false }
    );
    assert_eq!(load_options(Method::Get, "/api/v1/unknown"), LoadOptions::default());
}
