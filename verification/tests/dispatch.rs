use edge_lb::dispatch::{route, Handler, HandlerKind, RouteError};
use edge_lb::router::Method;

fn handler(kind: HandlerKind, name: &str) -> Result<Handler, RouteError> {
    Ok(Handler { kind, name: name.to_string() })
}

#[test]
fn exact_routes_take_no_name() {
    assert_eq!(route(Method::Get, "/api/v1/status"), handler(HandlerKind::Status, ""));
    assert_eq!(route(Method::Put, "/api/v1/config"), handler(HandlerKind::PutConfig, ""));
    assert_eq!(route(Method::Get, "/api/v1/nodes/backends"), handler(HandlerKind::BackendNodes, ""));
    assert_eq!(route(Method::Delete, "/api/v1/ha/pair"), handler(HandlerKind::HaUnpair, ""));
    assert_eq!(route(Method::Get, "/api/v1/automations"), handler(HandlerKind::ListAutomations, ""));
    assert_eq!(
        route(Method::Get, "/api/v1/listener-configs/export"),
        handler(HandlerKind::ExportListenerConfigs, "")
    );
}

#[test]
fn paths_outside_v1_are_refused() {
    let e = route(Method::Get, "/api/status").unwrap_err();
    assert_eq!(e, RouteError::NotV1);
    assert_eq!(e.status(), 404);
    assert_eq!(e.message(), "API path must use /api/v1");
    assert_eq!(route(Method::Get, "/api/v1"), Err(RouteError::NotV1));
}

#[test]
fn unknown_public_paths_are_named_in_the_answer() {
    let e = route(Method::Get, "/api/v1/status/extra").unwrap_err();
    assert_eq!(e, RouteError::UnknownPath("/api/v1/status/extra".to_string()));
    assert_eq!(e.status(), 404);
    assert_eq!(e.message(), "unknown API path: /api/v1/status/extra");
}

#[test]
fn target_groups_are_updated_and_deleted_by_name() {
    assert_eq!(route(Method::Put, "/api/v1/target-groups/web"), handler(HandlerKind::UpdateTargetGroup, "web"));
    assert_eq!(route(Method::Delete, "/api/v1/target-groups/web"), handler(HandlerKind::DeleteTargetGroup, "web"));
    let e = route(Method::Get, "/api/v1/target-groups/web").unwrap_err();
    assert_eq!(e, RouteError::NoSuchPath("/api/target-groups/web".to_string()));
    assert_eq!(e.status(), 404);
    assert_eq!(e.message(), "no such API path: /api/target-groups/web");
}

#[test]
fn named_resources_dispatch_by_method() {
    assert_eq!(route(Method::Put, "/api/v1/listener-configs/tcp-80"), handler(HandlerKind::UpdateListenerConfig, "tcp-80"));
    assert_eq!(route(Method::Delete, "/api/v1/listener-configs/tcp-80"), handler(HandlerKind::DeleteListenerConfig, "tcp-80"));
    assert_eq!(route(Method::Get, "/api/v1/notifications/n1"), handler(HandlerKind::GetNotification, "n1"));
    assert_eq!(route(Method::Put, "/api/v1/notifications/n1"), handler(HandlerKind::SaveNotification, ""));
    assert_eq!(route(Method::Post, "/api/v1/notifications/n1/test"), handler(HandlerKind::TestNotification, "n1"));
    assert_eq!(route(Method::Post, "/api/v1/automations/a1/test"), handler(HandlerKind::TestAutomation, "a1"));
    assert_eq!(route(Method::Delete, "/api/v1/automations/a1"), handler(HandlerKind::DeleteAutomation, "a1"));
}

#[test]
fn wrong_methods_get_405() {
    let e = route(Method::Put, "/api/v1/listener-configs/export").unwrap_err();
    assert_eq!(e, RouteError::MethodNotAllowed);
    assert_eq!(e.status(), 405);
    assert_eq!(e.message(), "method not allowed");
    assert_eq!(route(Method::Get, "/api/v1/listener-configs/tcp-80"), Err(RouteError::MethodNotAllowed));
    assert_eq!(route(Method::Get, "/api/v1/notifications/n1/test"), Err(RouteError::MethodNotAllowed));
    assert_eq!(route(Method::Put, "/api/v1/automations/export"), Err(RouteError::MethodNotAllowed));
    assert_eq!(route(Method::Other, "/api/v1/notifications/n1"), Err(RouteError::MethodNotAllowed));
}
