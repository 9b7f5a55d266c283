//! Dispatch of an API request to its handler: the exact routes, the routes
//! that carry a resource name, and the 404 and 405 answers.

use vstd::prelude::*;
use vstd::string::*;
use crate::router::{Method, spec_canonical_path, canonical_path};
use crate::text::{has_prefix, chars_of, chars_eq, starts_with, slice_chars, string_of, extend_chars};

verus! {

/// The handler a request goes to.
#[derive(Clone, Copy, Debug, PartialEq, Eq, Structural)]
pub enum HandlerKind {
    Status,
    GetConfig,
    PutConfig,
    ListTargetGroups,
    ExportTargetGroups,
    ImportTargetGroups,
    CreateTargetGroup,
    ListListenerConfigs,
    ExportListenerConfigs,
    ImportListenerConfigs,
    CreateListenerConfig,
    GatewayNodes,
    BackendNodes,
    BackendSubscriptions,
    Apply,
    Cleanup,
    Failover,
    Verify,
    GetHaConfig,
    PutHaConfig,
    HaStatus,
    HaPeerStatus,
    HaPeerActivate,
    PeerNotificationsActive,
    PeerNotificationsReplica,
    PeerProxyConfigActive,
    PeerProxyConfigReplica,
    HaPair,
    HaUnpair,
    HaFailover,
    HaRefreshDatapath,
    ListNotifications,
    ReplaceNotifications,
    SaveNotification,
    ListAutomations,
    CreateAutomation,
    ExportAutomations,
    ImportAutomations,
    PeerAutomationsActive,
    PeerAutomationsReplica,
    Metrics,
    UpdateTargetGroup,
    DeleteTargetGroup,
    UpdateListenerConfig,
    DeleteListenerConfig,
    TestNotification,
    GetNotification,
    DeleteNotification,
    TestAutomation,
    UpdateAutomation,
    DeleteAutomation,
}

/// A handler and the resource name it is given (blank when it takes none).
#[derive(Clone, Debug, PartialEq, Eq)]
pub struct Handler {
    pub kind: HandlerKind,
    pub name: String,
}

/// Why a request has no handler.
#[derive(Clone, Debug, PartialEq, Eq)]
pub enum RouteError {
    /// The path is not under `/api/v1/` (404).
    NotV1,
    /// The public path names no resource (404).
    UnknownPath(String),
    /// The resource takes no request of this method (405).
    MethodNotAllowed,
    /// The handler path has no route (404).
    NoSuchPath(String),
}

/// The routes matched on method and exact handler path, in order.
pub open spec fn exact_routes() -> Seq<(Method, Seq<char>, HandlerKind)> {
    seq![
        (Method::Get, "/api/status"@, HandlerKind::Status),
        (Method::Get, "/api/config"@, HandlerKind::GetConfig),
        (Method::Put, "/api/config"@, HandlerKind::PutConfig),
        (Method::Get, "/api/target-groups"@, HandlerKind::ListTargetGroups),
        (Method::Get, "/api/target-groups/export"@, HandlerKind::ExportTargetGroups),
        (Method::Post, "/api/target-groups/import"@, HandlerKind::ImportTargetGroups),
        (Method::Post, "/api/target-groups"@, HandlerKind::CreateTargetGroup),
        (Method::Get, "/api/listener-configs"@, HandlerKind::ListListenerConfigs),
        (Method::Get, "/api/listener-configs/export"@, HandlerKind::ExportListenerConfigs),
        (Method::Post, "/api/listener-configs/import"@, HandlerKind::ImportListenerConfigs),
        (Method::Post, "/api/listener-configs"@, HandlerKind::CreateListenerConfig),
        (Method::Get, "/api/gateway-nodes"@, HandlerKind::GatewayNodes),
        (Method::Get, "/api/backend-nodes"@, HandlerKind::BackendNodes),
        (Method::Get, "/api/control-backend-subscriptions"@, HandlerKind::BackendSubscriptions),
        (Method::Post, "/api/apply"@, HandlerKind::Apply),
        (Method::Post, "/api/cleanup"@, HandlerKind::Cleanup),
        (Method::Post, "/api/failover"@, HandlerKind::Failover),
        (Method::Post, "/api/verify"@, HandlerKind::Verify),
        (Method::Get, "/api/ha/config"@, HandlerKind::GetHaConfig),
        (Method::Put, "/api/ha/config"@, HandlerKind::PutHaConfig),
        (Method::Get, "/api/ha/status"@, HandlerKind::HaStatus),
        (Method::Get, "/api/ha/peer/status"@, HandlerKind::HaPeerStatus),
        (Method::Post, "/api/ha/peer/activate"@, HandlerKind::HaPeerActivate),
        (Method::Put, "/api/ha/peer/notifications/active"@, HandlerKind::PeerNotificationsActive),
        (Method::Put, "/api/ha/peer/notifications/replica"@, HandlerKind::PeerNotificationsReplica),
        (Method::Post, "/api/ha/peer/proxy-config/active"@, HandlerKind::PeerProxyConfigActive),
        (Method::Post, "/api/ha/peer/proxy-config/replica"@, HandlerKind::PeerProxyConfigReplica),
        (Method::Post, "/api/ha/pair"@, HandlerKind::HaPair),
        (Method::Delete, "/api/ha/pair"@, HandlerKind::HaUnpair),
        (Method::Post, "/api/ha/failover"@, HandlerKind::HaFailover),
        (Method::Post, "/api/ha/refresh-datapath"@, HandlerKind::HaRefreshDatapath),
        (Method::Get, "/api/notifications"@, HandlerKind::ListNotifications),
        (Method::Put, "/api/notifications"@, HandlerKind::ReplaceNotifications),
        (Method::Post, "/api/notifications"@, HandlerKind::SaveNotification),
        (Method::Get, "/api/automation-templates"@, HandlerKind::ListAutomations),
        (Method::Post, "/api/automation-templates"@, HandlerKind::CreateAutomation),
        (Method::Get, "/api/automation-templates/export"@, HandlerKind::ExportAutomations),
        (Method::Post, "/api/automation-templates/import"@, HandlerKind::ImportAutomations),
        (Method::Put, "/api/ha/peer/automation-templates/active"@, HandlerKind::PeerAutomationsActive),
        (Method::Put, "/api/ha/peer/automation-templates/replica"@, HandlerKind::PeerAutomationsReplica),
        (Method::Get, "/api/metrics"@, HandlerKind::Metrics),
    ]
}

pub open spec fn exact_lookup(method: Method, p: Seq<char>, from: int) -> Option<HandlerKind>
    decreases exact_routes().len() - from,
{
    if from < 0 || from >= exact_routes().len() {
        None
    } else if exact_routes()[from].0 == method && exact_routes()[from].1 == p {
        Some(exact_routes()[from].2)
    } else {
        exact_lookup(method, p, from + 1)
    }
}

fn exact_table() -> (v: Vec<(Method, &'static str, HandlerKind)>)
    ensures
        v@.len() == exact_routes().len(),
        forall|i: int| 0 <= i < v@.len() ==> (#[trigger] v@[i]).0 == exact_routes()[i].0 && v@[i].1@ == exact_routes()[i].1 && v@[i].2 == exact_routes()[i].2,
{
    let mut v: Vec<(Method, &'static str, HandlerKind)> = Vec::new();
    v.push((Method::Get, "/api/status", HandlerKind::Status));
    v.push((Method::Get, "/api/config", HandlerKind::GetConfig));
    v.push((Method::Put, "/api/config", HandlerKind::PutConfig));
    v.push((Method::Get, "/api/target-groups", HandlerKind::ListTargetGroups));
    v.push((Method::Get, "/api/target-groups/export", HandlerKind::ExportTargetGroups));
    v.push((Method::Post, "/api/target-groups/import", HandlerKind::ImportTargetGroups));
    v.push((Method::Post, "/api/target-groups", HandlerKind::CreateTargetGroup));
    v.push((Method::Get, "/api/listener-configs", HandlerKind::ListListenerConfigs));
    v.push((Method::Get, "/api/listener-configs/export", HandlerKind::ExportListenerConfigs));
    v.push((Method::Post, "/api/listener-configs/import", HandlerKind::ImportListenerConfigs));
    v.push((Method::Post, "/api/listener-configs", HandlerKind::CreateListenerConfig));
    v.push((Method::Get, "/api/gateway-nodes", HandlerKind::GatewayNodes));
    v.push((Method::Get, "/api/backend-nodes", HandlerKind::BackendNodes));
    v.push((Method::Get, "/api/control-backend-subscriptions", HandlerKind::BackendSubscriptions));
    v.push((Method::Post, "/api/apply", HandlerKind::Apply));
    v.push((Method::Post, "/api/cleanup", HandlerKind::Cleanup));
    v.push((Method::Post, "/api/failover", HandlerKind::Failover));
    v.push((Method::Post, "/api/verify", HandlerKind::Verify));
    v.push((Method::Get, "/api/ha/config", HandlerKind::GetHaConfig));
    v.push((Method::Put, "/api/ha/config", HandlerKind::PutHaConfig));
    v.push((Method::Get, "/api/ha/status", HandlerKind::HaStatus));
    v.push((Method::Get, "/api/ha/peer/status", HandlerKind::HaPeerStatus));
    v.push((Method::Post, "/api/ha/peer/activate", HandlerKind::HaPeerActivate));
    v.push((Method::Put, "/api/ha/peer/notifications/active", HandlerKind::PeerNotificationsActive));
    v.push((Method::Put, "/api/ha/peer/notifications/replica", HandlerKind::PeerNotificationsReplica));
    v.push((Method::Post, "/api/ha/peer/proxy-config/active", HandlerKind::PeerProxyConfigActive));
    v.push((Method::Post, "/api/ha/peer/proxy-config/replica", HandlerKind::PeerProxyConfigReplica));
    v.push((Method::Post, "/api/ha/pair", HandlerKind::HaPair));
    v.push((Method::Delete, "/api/ha/pair", HandlerKind::HaUnpair));
    v.push((Method::Post, "/api/ha/failover", HandlerKind::HaFailover));
    v.push((Method::Post, "/api/ha/refresh-datapath", HandlerKind::HaRefreshDatapath));
    v.push((Method::Get, "/api/notifications", HandlerKind::ListNotifications));
    v.push((Method::Put, "/api/notifications", HandlerKind::ReplaceNotifications));
    v.push((Method::Post, "/api/notifications", HandlerKind::SaveNotification));
    v.push((Method::Get, "/api/automation-templates", HandlerKind::ListAutomations));
    v.push((Method::Post, "/api/automation-templates", HandlerKind::CreateAutomation));
    v.push((Method::Get, "/api/automation-templates/export", HandlerKind::ExportAutomations));
    v.push((Method::Post, "/api/automation-templates/import", HandlerKind::ImportAutomations));
    v.push((Method::Put, "/api/ha/peer/automation-templates/active", HandlerKind::PeerAutomationsActive));
    v.push((Method::Put, "/api/ha/peer/automation-templates/replica", HandlerKind::PeerAutomationsReplica));
    v.push((Method::Get, "/api/metrics", HandlerKind::Metrics));
    v
}

/// `s` with every leading copy of `p` removed.
pub open spec fn strip_all(s: Seq<char>, p: Seq<char>) -> Seq<char>
    decreases s.len(),
{
    if p.len() > 0 && has_prefix(s, p) {
        strip_all(s.skip(p.len() as int), p)
    } else {
        s
    }
}

pub open spec fn has_suffix(s: Seq<char>, x: Seq<char>) -> bool {
    s.len() >= x.len() && s.skip(s.len() - x.len()) == x
}

/// Why a request has no handler, by value.
pub enum RouteErrorView {
    NotV1,
    UnknownPath(Seq<char>),
    MethodNotAllowed,
    NoSuchPath(Seq<char>),
}

impl View for RouteError {
    type V = RouteErrorView;

    open spec fn view(&self) -> RouteErrorView {
        match self {
            RouteError::NotV1 => RouteErrorView::NotV1,
            RouteError::UnknownPath(p) => RouteErrorView::UnknownPath(p@),
            RouteError::MethodNotAllowed => RouteErrorView::MethodNotAllowed,
            RouteError::NoSuchPath(p) => RouteErrorView::NoSuchPath(p@),
        }
    }
}

impl View for Handler {
    type V = (HandlerKind, Seq<char>);

    open spec fn view(&self) -> (HandlerKind, Seq<char>) {
        (self.kind, self.name@)
    }
}

pub open spec fn route_result_view(r: Result<Handler, RouteError>) -> Result<(HandlerKind, Seq<char>), RouteErrorView> {
    match r {
        Ok(h) => Ok(h@),
        Err(e) => Err(e@),
    }
}

/// Where a request on a handler path that carries a resource name goes:
/// listener configs, notifications and automation templates; any other
/// path has no route.
pub open spec fn named_route(method: Method, p: Seq<char>) -> Result<(HandlerKind, Seq<char>), RouteErrorView> {
    let lc = "/api/listener-configs/"@;
    let nt = "/api/notifications/"@;
    let at = "/api/automation-templates/"@;
    let test = "/test"@;
    if has_prefix(p, lc) {
        let name = p.skip(lc.len() as int);
        if name == "export"@ {
            Err(RouteErrorView::MethodNotAllowed)
        } else if method == Method::Put {
            Ok((HandlerKind::UpdateListenerConfig, name))
        } else if method == Method::Delete {
            Ok((HandlerKind::DeleteListenerConfig, name))
        } else {
            Err(RouteErrorView::MethodNotAllowed)
        }
    } else if has_prefix(p, nt) {
        let rest = p.skip(nt.len() as int);
        if has_suffix(rest, test) {
            if method == Method::Post {
                Ok((HandlerKind::TestNotification, rest.take(rest.len() - test.len())))
            } else {
                Err(RouteErrorView::MethodNotAllowed)
            }
        } else if method == Method::Get {
            Ok((HandlerKind::GetNotification, rest))
        } else if method == Method::Put {
            Ok((HandlerKind::SaveNotification, Seq::<char>::empty()))
        } else if method == Method::Delete {
            Ok((HandlerKind::DeleteNotification, rest))
        } else {
            Err(RouteErrorView::MethodNotAllowed)
        }
    } else if has_prefix(p, at) {
        let rest = p.skip(at.len() as int);
        if rest == "export"@ || rest == "import"@ {
            Err(RouteErrorView::MethodNotAllowed)
        } else if has_suffix(rest, test) {
            if method == Method::Post {
                Ok((HandlerKind::TestAutomation, rest.take(rest.len() - test.len())))
            } else {
                Err(RouteErrorView::MethodNotAllowed)
            }
        } else if method == Method::Put {
            Ok((HandlerKind::UpdateAutomation, rest))
        } else if method == Method::Delete {
            Ok((HandlerKind::DeleteAutomation, rest))
        } else {
            Err(RouteErrorView::MethodNotAllowed)
        }
    } else {
        Err(RouteErrorView::NoSuchPath(p))
    }
}

/// Where a request goes: only `/api/v1/` paths are served; the public path
/// is mapped to its handler path, which is matched first exactly on method
/// and path, then as a target group to update or delete, then as another
/// named resource.
pub open spec fn spec_route(method: Method, path: Seq<char>) -> Result<(HandlerKind, Seq<char>), RouteErrorView> {
    if !has_prefix(path, "/api/v1/"@) {
        Err(RouteErrorView::NotV1)
    } else {
        match spec_canonical_path(path) {
            None => Err(RouteErrorView::UnknownPath(path)),
            Some(p) => match exact_lookup(method, p, 0) {
                Some(k) => Ok((k, Seq::<char>::empty())),
                None => {
                    let tg = "/api/target-groups/"@;
                    if (method == Method::Put || method == Method::Delete) && has_prefix(p, tg) {
                        let kind = if method == Method::Put {
                            HandlerKind::UpdateTargetGroup
                        } else {
                            HandlerKind::DeleteTargetGroup
                        };
                        Ok((kind, strip_all(p, tg)))
                    } else {
                        named_route(method, p)
                    }
                },
            },
        }
    }
}

/// The HTTP status of a refused request.
pub open spec fn spec_route_status(e: RouteErrorView) -> u16 {
    match e {
        RouteErrorView::MethodNotAllowed => 405,
        _ => 404,
    }
}

/// The error message of a refused request.
pub open spec fn spec_route_message(e: RouteErrorView) -> Seq<char> {
    match e {
        RouteErrorView::NotV1 => "API path must use /api/v1"@,
        RouteErrorView::UnknownPath(p) => "unknown API path: "@ + p,
        RouteErrorView::MethodNotAllowed => "method not allowed"@,
        RouteErrorView::NoSuchPath(p) => "no such API path: "@ + p,
    }
}

impl RouteError {
    pub fn status(&self) -> (r: u16)
        ensures
            r == spec_route_status(self@),
    {
        match self {
            RouteError::MethodNotAllowed => 405,
            _ => 404,
        }
    }

    pub fn message(&self) -> (r: String)
        ensures
            r@ == spec_route_message(self@),
    {
        match self {
            RouteError::NotV1 => String::from_str("API path must use /api/v1"),
            RouteError::UnknownPath(p) => {
                let mut out = chars_of("unknown API path: ");
                extend_chars(&mut out, &chars_of(p.as_str()));
                string_of(&out)
            },
            RouteError::MethodNotAllowed => String::from_str("method not allowed"),
            RouteError::NoSuchPath(p) => {
                let mut out = chars_of("no such API path: ");
                extend_chars(&mut out, &chars_of(p.as_str()));
                string_of(&out)
            },
        }
    }
}

fn exact_match(method: Method, p: &Vec<char>) -> (r: Option<HandlerKind>)
    ensures
        r == exact_lookup(method, p@, 0),
{
    let table = exact_table();
    let mut i: usize = 0;
    while i < table.len()
        invariant
            table@.len() == exact_routes().len(),
            forall|j: int| 0 <= j < table@.len() ==> (#[trigger] table@[j]).0 == exact_routes()[j].0 && table@[j].1@ == exact_routes()[j].1 && table@[j].2 == exact_routes()[j].2,
            0 <= i <= table@.len(),
            exact_lookup(method, p@, 0) == exact_lookup(method, p@, i as int),
        decreases table@.len() - i,
    {
        let (m, s, k) = table[i];
        if m == method && chars_eq(&chars_of(s), p) {
            return Some(k);
        }
        i = i + 1;
    }
    None
}

fn strip_all_chars(s: &Vec<char>, p: &Vec<char>) -> (r: Vec<char>)
    ensures
        r@ == strip_all(s@, p@),
{
    let mut cur = slice_chars(s, 0, s.len());
    assert(cur@ =~= s@);
    while p.len() > 0 && starts_with(&cur, p)
        invariant
            strip_all(cur@, p@) == strip_all(s@, p@),
        decreases cur@.len(),
    {
        let next = slice_chars(&cur, p.len(), cur.len());
        assert(next@ =~= cur@.skip(p@.len() as int));
        cur = next;
    }
    cur
}

/// `rest` without a trailing `/test`, when it has one.
fn without_test_suffix(rest: &Vec<char>) -> (r: Option<Vec<char>>)
    ensures
        has_suffix(rest@, "/test"@) ==> (r matches Some(x) && x@ == rest@.take(rest@.len() - "/test"@.len())),
        !has_suffix(rest@, "/test"@) ==> r is None,
{
    let t = chars_of("/test");
    if rest.len() >= t.len() {
        let tail = slice_chars(rest, rest.len() - t.len(), rest.len());
        assert(tail@ =~= rest@.skip(rest@.len() - t@.len()));
        if chars_eq(&tail, &t) {
            let head = slice_chars(rest, 0, rest.len() - t.len());
            assert(head@ =~= rest@.take(rest@.len() - t@.len()));
            return Some(head);
        }
    }
    None
}

fn route_named(method: Method, p: &Vec<char>) -> (r: Result<Handler, RouteError>)
    ensures
        route_result_view(r) == named_route(method, p@),
{
    let lc = chars_of("/api/listener-configs/");
    if starts_with(p, &lc) {
        let name = slice_chars(p, lc.len(), p.len());
        assert(name@ =~= p@.skip(lc@.len() as int));
        if chars_eq(&name, &chars_of("export")) {
            return Err(RouteError::MethodNotAllowed);
        }
        return match method {
            Method::Put => Ok(Handler { kind: HandlerKind::UpdateListenerConfig, name: string_of(&name) }),
            Method::Delete => Ok(Handler { kind: HandlerKind::DeleteListenerConfig, name: string_of(&name) }),
            _ => Err(RouteError::MethodNotAllowed),
        };
    }
    let nt = chars_of("/api/notifications/");
    if starts_with(p, &nt) {
        let rest = slice_chars(p, nt.len(), p.len());
        assert(rest@ =~= p@.skip(nt@.len() as int));
        if let Some(id) = without_test_suffix(&rest) {
            return match method {
                Method::Post => Ok(Handler { kind: HandlerKind::TestNotification, name: string_of(&id) }),
                _ => Err(RouteError::MethodNotAllowed),
            };
        }
        return match method {
            Method::Get => Ok(Handler { kind: HandlerKind::GetNotification, name: string_of(&rest) }),
            Method::Put => Ok(Handler { kind: HandlerKind::SaveNotification, name: string_of(&Vec::new()) }),
            Method::Delete => Ok(Handler { kind: HandlerKind::DeleteNotification, name: string_of(&rest) }),
            _ => Err(RouteError::MethodNotAllowed),
        };
    }
    let at = chars_of("/api/automation-templates/");
    if starts_with(p, &at) {
        let rest = slice_chars(p, at.len(), p.len());
        assert(rest@ =~= p@.skip(at@.len() as int));
        if chars_eq(&rest, &chars_of("export")) || chars_eq(&rest, &chars_of("import")) {
            return Err(RouteError::MethodNotAllowed);
        }
        if let Some(name) = without_test_suffix(&rest) {
            return match method {
                Method::Post => Ok(Handler { kind: HandlerKind::TestAutomation, name: string_of(&name) }),
                _ => Err(RouteError::MethodNotAllowed),
            };
        }
        return match method {
            Method::Put => Ok(Handler { kind: HandlerKind::UpdateAutomation, name: string_of(&rest) }),
            Method::Delete => Ok(Handler { kind: HandlerKind::DeleteAutomation, name: string_of(&rest) }),
            _ => Err(RouteError::MethodNotAllowed),
        };
    }
    Err(RouteError::NoSuchPath(string_of(p)))
}

/// The handler of an API request, or why it has none.
pub fn route(method: Method, path: &str) -> (r: Result<Handler, RouteError>)
    ensures
        route_result_view(r) == spec_route(method, path@),
{
    let cs = chars_of(path);
    if !starts_with(&cs, &chars_of("/api/v1/")) {
        return Err(RouteError::NotV1);
    }
    let canonical = match canonical_path(path) {
        None => {
            return Err(RouteError::UnknownPath(String::from_str(path)));
        },
        Some(c) => c,
    };
    let p = chars_of(canonical.as_str());
    match exact_match(method, &p) {
        Some(k) => Ok(Handler { kind: k, name: string_of(&Vec::new()) }),
        None => {
            let tg = chars_of("/api/target-groups/");
            if (method == Method::Put || method == Method::Delete) && starts_with(&p, &tg) {
                let name = strip_all_chars(&p, &tg);
                let kind = if method == Method::Put {
                    HandlerKind::UpdateTargetGroup
                } else {
                    HandlerKind::DeleteTargetGroup
                };
                Ok(Handler { kind, name: string_of(&name) })
            } else {
                route_named(method, &p)
            }
        },
    }
}


/// No fixed handler route is a notification member, whatever the method.
proof fn lemma_no_fixed_route_for_notification(method: Method, p: Seq<char>)
    requires
        has_prefix(p, "/api/notifications/"@),
    ensures
        exact_lookup(method, p, 0) is None,
{
    reveal_strlit("/api/notifications/");
    reveal_strlit("/api/apply");
    reveal_strlit("/api/automation-templates");
    reveal_strlit("/api/automation-templates/export");
    reveal_strlit("/api/automation-templates/import");
    reveal_strlit("/api/backend-nodes");
    reveal_strlit("/api/cleanup");
    reveal_strlit("/api/config");
    reveal_strlit("/api/control-backend-subscriptions");
    reveal_strlit("/api/failover");
    reveal_strlit("/api/gateway-nodes");
    reveal_strlit("/api/ha/config");
    reveal_strlit("/api/ha/failover");
    reveal_strlit("/api/ha/pair");
    reveal_strlit("/api/ha/peer/activate");
    reveal_strlit("/api/ha/peer/automation-templates/active");
    reveal_strlit("/api/ha/peer/automation-templates/replica");
    reveal_strlit("/api/ha/peer/notifications/active");
    reveal_strlit("/api/ha/peer/notifications/replica");
    reveal_strlit("/api/ha/peer/proxy-config/active");
    reveal_strlit("/api/ha/peer/proxy-config/replica");
    reveal_strlit("/api/ha/peer/status");
    reveal_strlit("/api/ha/refresh-datapath");
    reveal_strlit("/api/ha/status");
    reveal_strlit("/api/listener-configs");
    reveal_strlit("/api/listener-configs/export");
    reveal_strlit("/api/listener-configs/import");
    reveal_strlit("/api/metrics");
    reveal_strlit("/api/notifications");
    reveal_strlit("/api/status");
    reveal_strlit("/api/target-groups");
    reveal_strlit("/api/target-groups/export");
    reveal_strlit("/api/target-groups/import");
    reveal_strlit("/api/verify");
    reveal_with_fuel(exact_lookup, 44);
    assert(p.subrange(0, 19) == "/api/notifications/"@);
    assert(p[5] == p.subrange(0, 19)[5]);
    assert(p[5] == 'n');
    assert(p.len() >= 19);
}

/// The public path of a notification and its handler path.
proof fn lemma_notification_paths(id: Seq<char>)
    ensures
        has_prefix("/api/v1/notifications/"@ + id, "/api/v1/"@),
        spec_canonical_path("/api/v1/notifications/"@ + id) == Some("/api/notifications/"@ + id),
        has_prefix("/api/notifications/"@ + id, "/api/notifications/"@),
        !has_prefix("/api/notifications/"@ + id, "/api/target-groups/"@),
        !has_prefix("/api/notifications/"@ + id, "/api/listener-configs/"@),
        ("/api/notifications/"@ + id).skip("/api/notifications/"@.len() as int) == id,
{
    reveal_strlit("/api/v1/notifications/");
    reveal_strlit("/api/v1/");
    reveal_strlit("/api/v1");
    reveal_strlit("/notifications/");
    reveal_strlit("/automations");
    reveal_strlit("/automations/");
    reveal_strlit("/target-groups/");
    reveal_strlit("/listener-configs/");
    reveal_strlit("/api");
    reveal_strlit("/api/notifications/");
    reveal_strlit("/api/target-groups/");
    reveal_strlit("/api/listener-configs/");
    let path = "/api/v1/notifications/"@ + id;
    assert(path.subrange(0, 8) =~= "/api/v1/"@);
    assert(path.subrange(0, 7) =~= "/api/v1"@);
    let rest = path.skip(7);
    assert(rest =~= "/notifications/"@ + id);
    assert(rest.subrange(0, 15) =~= "/notifications/"@);
    crate::router::lemma_notification_member_not_fixed(rest);
    assert(rest[1] == 'n');
    assert(rest != "/automations"@);
    assert(!has_prefix(rest, "/automations/"@)) by {
        if has_prefix(rest, "/automations/"@) {
            assert(rest.subrange(0, 13)[1] == rest[1]);
        }
    }
    assert(crate::router::named_collection(rest));
    assert("/api"@ + rest =~= "/api/notifications/"@ + id);
    let p = "/api/notifications/"@ + id;
    assert(p.subrange(0, 19) =~= "/api/notifications/"@);
    assert(p[5] == 'n');
    assert(!has_prefix(p, "/api/target-groups/"@)) by {
        if has_prefix(p, "/api/target-groups/"@) {
            assert(p.subrange(0, 19)[5] == p[5]);
        }
    }
    assert(!has_prefix(p, "/api/listener-configs/"@)) by {
        if has_prefix(p, "/api/listener-configs/"@) {
            assert(p.subrange(0, 22)[5] == p[5]);
        }
    }
    assert(p.skip(19) =~= id);
}

/// Law: a DELETE on `/api/v1/notifications/<id>` deletes that notification,
/// for every id that is not a test request (one ending in `/test`).
pub proof fn deleting_a_notification_routes_to_its_handler(id: Seq<char>)
    requires
        !has_suffix(id, "/test"@),
    ensures
        spec_route(Method::Delete, "/api/v1/notifications/"@ + id) == Ok::<(HandlerKind, Seq<char>), RouteErrorView>(
            (HandlerKind::DeleteNotification, id),
        ),
{
    lemma_notification_paths(id);
    lemma_no_fixed_route_for_notification(Method::Delete, "/api/notifications/"@ + id);
}

/// Law: the other requests on a notification reach their handlers: GET reads
/// it, PUT saves notifications, and POST on `<id>/test` tests it.
pub proof fn notification_requests_route_to_their_handlers(id: Seq<char>)
    ensures
        !has_suffix(id, "/test"@) ==> spec_route(Method::Get, "/api/v1/notifications/"@ + id)
            == Ok::<(HandlerKind, Seq<char>), RouteErrorView>((HandlerKind::GetNotification, id)),
        !has_suffix(id, "/test"@) ==> spec_route(Method::Put, "/api/v1/notifications/"@ + id)
            == Ok::<(HandlerKind, Seq<char>), RouteErrorView>((HandlerKind::SaveNotification, Seq::<char>::empty())),
        spec_route(Method::Post, "/api/v1/notifications/"@ + id + "/test"@)
            == Ok::<(HandlerKind, Seq<char>), RouteErrorView>((HandlerKind::TestNotification, id)),
{
    lemma_notification_paths(id);
    lemma_no_fixed_route_for_notification(Method::Get, "/api/notifications/"@ + id);
    lemma_no_fixed_route_for_notification(Method::Put, "/api/notifications/"@ + id);
    let t = id + "/test"@;
    lemma_notification_paths(t);
    lemma_no_fixed_route_for_notification(Method::Post, "/api/notifications/"@ + t);
    assert("/api/v1/notifications/"@ + id + "/test"@ =~= "/api/v1/notifications/"@ + t);
    reveal_strlit("/test");
    assert(t.skip(t.len() - 5) =~= "/test"@);
    assert(t.take(t.len() - 5) =~= id);
}


/// The fixed handler routes that take PUT or DELETE all name a path whose
/// sixth character is `c`, `h` or `n`.
proof fn lemma_no_fixed_put_or_delete(method: Method, p: Seq<char>)
    requires
        method == Method::Put || method == Method::Delete,
        p.len() >= 6,
        p[5] != 'c' && p[5] != 'h' && p[5] != 'n',
    ensures
        exact_lookup(method, p, 0) is None,
{
    reveal_strlit("/api/apply");
    reveal_strlit("/api/automation-templates");
    reveal_strlit("/api/automation-templates/export");
    reveal_strlit("/api/automation-templates/import");
    reveal_strlit("/api/backend-nodes");
    reveal_strlit("/api/cleanup");
    reveal_strlit("/api/config");
    reveal_strlit("/api/control-backend-subscriptions");
    reveal_strlit("/api/failover");
    reveal_strlit("/api/gateway-nodes");
    reveal_strlit("/api/ha/config");
    reveal_strlit("/api/ha/failover");
    reveal_strlit("/api/ha/pair");
    reveal_strlit("/api/ha/peer/activate");
    reveal_strlit("/api/ha/peer/automation-templates/active");
    reveal_strlit("/api/ha/peer/automation-templates/replica");
    reveal_strlit("/api/ha/peer/notifications/active");
    reveal_strlit("/api/ha/peer/notifications/replica");
    reveal_strlit("/api/ha/peer/proxy-config/active");
    reveal_strlit("/api/ha/peer/proxy-config/replica");
    reveal_strlit("/api/ha/peer/status");
    reveal_strlit("/api/ha/refresh-datapath");
    reveal_strlit("/api/ha/status");
    reveal_strlit("/api/listener-configs");
    reveal_strlit("/api/listener-configs/export");
    reveal_strlit("/api/listener-configs/import");
    reveal_strlit("/api/metrics");
    reveal_strlit("/api/notifications");
    reveal_strlit("/api/status");
    reveal_strlit("/api/target-groups");
    reveal_strlit("/api/target-groups/export");
    reveal_strlit("/api/target-groups/import");
    reveal_strlit("/api/verify");
    reveal_with_fuel(exact_lookup, 44);
}

/// The sixth character of a path with a known prefix.
proof fn lemma_char_of_prefix(p: Seq<char>, prefix: Seq<char>, k: int)
    requires
        has_prefix(p, prefix),
        0 <= k < prefix.len(),
    ensures
        p[k] == prefix[k],
{
    assert(p.subrange(0, prefix.len() as int)[k] == p[k]);
}

/// Law: PUT and DELETE on a listener config by name update and delete that
/// listener config, for every name but the `export` and `import` routes.
pub proof fn listener_config_requests_route_to_their_handlers(name: Seq<char>)
    requires
        name != "export"@,
        name != "import"@,
    ensures
        spec_route(Method::Put, "/api/v1/listener-configs/"@ + name)
            == Ok::<(HandlerKind, Seq<char>), RouteErrorView>((HandlerKind::UpdateListenerConfig, name)),
        spec_route(Method::Delete, "/api/v1/listener-configs/"@ + name)
            == Ok::<(HandlerKind, Seq<char>), RouteErrorView>((HandlerKind::DeleteListenerConfig, name)),
{
    reveal_strlit("/api/v1/listener-configs/");
    reveal_strlit("/api/v1/");
    reveal_strlit("/api/v1");
    reveal_strlit("/listener-configs/");
    reveal_strlit("/automations");
    reveal_strlit("/automations/");
    reveal_strlit("/api");
    reveal_strlit("/api/listener-configs/");
    reveal_strlit("/api/target-groups/");
    let path = "/api/v1/listener-configs/"@ + name;
    assert(path.subrange(0, 8) =~= "/api/v1/"@);
    assert(path.subrange(0, 7) =~= "/api/v1"@);
    let rest = path.skip(7);
    assert(rest =~= "/listener-configs/"@ + name);
    crate::router::lemma_collection_member_not_fixed("/listener-configs/"@, name);
    assert(rest.subrange(0, 18) =~= "/listener-configs/"@);
    lemma_char_of_prefix(rest, "/listener-configs/"@, 1);
    assert(rest != "/automations"@);
    assert(!has_prefix(rest, "/automations/"@)) by {
        if has_prefix(rest, "/automations/"@) {
            lemma_char_of_prefix(rest, "/automations/"@, 1);
        }
    }
    let p = "/api/listener-configs/"@ + name;
    assert("/api"@ + rest =~= p);
    assert(p.subrange(0, 22) =~= "/api/listener-configs/"@);
    lemma_char_of_prefix(p, "/api/listener-configs/"@, 5);
    lemma_no_fixed_put_or_delete(Method::Put, p);
    lemma_no_fixed_put_or_delete(Method::Delete, p);
    assert(!has_prefix(p, "/api/target-groups/"@)) by {
        if has_prefix(p, "/api/target-groups/"@) {
            lemma_char_of_prefix(p, "/api/target-groups/"@, 5);
        }
    }
    assert(p.skip(22) =~= name);
}

/// Law: PUT and DELETE on a target group by name update and delete that
/// target group, for every name but the `export` and `import` routes and
/// names that themselves repeat the handler prefix.
pub proof fn target_group_requests_route_to_their_handlers(name: Seq<char>)
    requires
        name != "export"@,
        name != "import"@,
        !has_prefix(name, "/api/target-groups/"@),
    ensures
        spec_route(Method::Put, "/api/v1/target-groups/"@ + name)
            == Ok::<(HandlerKind, Seq<char>), RouteErrorView>((HandlerKind::UpdateTargetGroup, name)),
        spec_route(Method::Delete, "/api/v1/target-groups/"@ + name)
            == Ok::<(HandlerKind, Seq<char>), RouteErrorView>((HandlerKind::DeleteTargetGroup, name)),
{
    reveal_strlit("/api/v1/target-groups/");
    reveal_strlit("/api/v1/");
    reveal_strlit("/api/v1");
    reveal_strlit("/target-groups/");
    reveal_strlit("/automations");
    reveal_strlit("/automations/");
    reveal_strlit("/api");
    reveal_strlit("/api/target-groups/");
    let path = "/api/v1/target-groups/"@ + name;
    assert(path.subrange(0, 8) =~= "/api/v1/"@);
    assert(path.subrange(0, 7) =~= "/api/v1"@);
    let rest = path.skip(7);
    assert(rest =~= "/target-groups/"@ + name);
    crate::router::lemma_collection_member_not_fixed("/target-groups/"@, name);
    assert(rest.subrange(0, 15) =~= "/target-groups/"@);
    lemma_char_of_prefix(rest, "/target-groups/"@, 1);
    assert(rest != "/automations"@);
    assert(!has_prefix(rest, "/automations/"@)) by {
        if has_prefix(rest, "/automations/"@) {
            lemma_char_of_prefix(rest, "/automations/"@, 1);
        }
    }
    let p = "/api/target-groups/"@ + name;
    assert("/api"@ + rest =~= p);
    assert(p.subrange(0, 19) =~= "/api/target-groups/"@);
    lemma_char_of_prefix(p, "/api/target-groups/"@, 5);
    lemma_no_fixed_put_or_delete(Method::Put, p);
    lemma_no_fixed_put_or_delete(Method::Delete, p);
    assert(p.skip(19) =~= name);
    assert(has_prefix(p, "/api/target-groups/"@));
    assert(strip_all(p, "/api/target-groups/"@) == strip_all(name, "/api/target-groups/"@));
    assert(strip_all(name, "/api/target-groups/"@) == name);
}

/// Law: PUT and DELETE on an automation template by id update and delete
/// that template, for every id but `export`, `import` and test requests
/// (ids ending in `/test`).
pub proof fn automation_requests_route_to_their_handlers(id: Seq<char>)
    requires
        id != "export"@,
        id != "import"@,
        !has_suffix(id, "/test"@),
    ensures
        spec_route(Method::Put, "/api/v1/automations/"@ + id)
            == Ok::<(HandlerKind, Seq<char>), RouteErrorView>((HandlerKind::UpdateAutomation, id)),
        spec_route(Method::Delete, "/api/v1/automations/"@ + id)
            == Ok::<(HandlerKind, Seq<char>), RouteErrorView>((HandlerKind::DeleteAutomation, id)),
{
    reveal_strlit("/api/v1/automations/");
    reveal_strlit("/api/v1/");
    reveal_strlit("/api/v1");
    reveal_strlit("/automations");
    reveal_strlit("/automations/");
    reveal_strlit("/api/automation-templates/");
    reveal_strlit("/api/target-groups/");
    reveal_strlit("/api/listener-configs/");
    reveal_strlit("/api/notifications/");
    let path = "/api/v1/automations/"@ + id;
    assert(path.subrange(0, 8) =~= "/api/v1/"@);
    assert(path.subrange(0, 7) =~= "/api/v1"@);
    let rest = path.skip(7);
    assert(rest =~= "/automations/"@ + id);
    assert(rest.len() >= 13);
    assert(rest != "/automations"@);
    assert(rest.subrange(0, 13) =~= "/automations/"@);
    assert(rest.skip(13) =~= id);
    let p = "/api/automation-templates/"@ + id;
    assert(p.subrange(0, 26) =~= "/api/automation-templates/"@);
    lemma_char_of_prefix(p, "/api/automation-templates/"@, 5);
    lemma_no_fixed_put_or_delete(Method::Put, p);
    lemma_no_fixed_put_or_delete(Method::Delete, p);
    assert(!has_prefix(p, "/api/target-groups/"@)) by {
        if has_prefix(p, "/api/target-groups/"@) {
            lemma_char_of_prefix(p, "/api/target-groups/"@, 5);
        }
    }
    assert(!has_prefix(p, "/api/listener-configs/"@)) by {
        if has_prefix(p, "/api/listener-configs/"@) {
            lemma_char_of_prefix(p, "/api/listener-configs/"@, 5);
        }
    }
    assert(!has_prefix(p, "/api/notifications/"@)) by {
        if has_prefix(p, "/api/notifications/"@) {
            lemma_char_of_prefix(p, "/api/notifications/"@, 5);
        }
    }
    assert(p.skip(26) =~= id);
}

} // verus!
