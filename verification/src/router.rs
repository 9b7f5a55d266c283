//! The public `/api/v1` resource surface and its mapping onto the internal
//! handler paths.

use vstd::prelude::*;
use vstd::string::*;
use crate::text::has_prefix;

verus! {

/// Public resource paths under `/api/v1` and the handler path of each.
pub open spec fn v1_routes() -> Seq<(Seq<char>, Seq<char>)> {
    seq![
        ("/status"@, "/api/status"@),
        ("/config"@, "/api/config"@),
        ("/target-groups"@, "/api/target-groups"@),
        ("/target-groups/export"@, "/api/target-groups/export"@),
        ("/target-groups/import"@, "/api/target-groups/import"@),
        ("/listener-configs"@, "/api/listener-configs"@),
        ("/listener-configs/export"@, "/api/listener-configs/export"@),
        ("/listener-configs/import"@, "/api/listener-configs/import"@),
        ("/nodes/gateways"@, "/api/gateway-nodes"@),
        ("/nodes/backends"@, "/api/backend-nodes"@),
        ("/nodes/backend-subscriptions"@, "/api/control-backend-subscriptions"@),
        ("/operations/apply"@, "/api/apply"@),
        ("/operations/cleanup"@, "/api/cleanup"@),
        ("/operations/failover"@, "/api/failover"@),
        ("/operations/verify"@, "/api/verify"@),
        ("/ha/config"@, "/api/ha/config"@),
        ("/ha/status"@, "/api/ha/status"@),
        ("/ha/peer/status"@, "/api/ha/peer/status"@),
        ("/ha/peer/activate"@, "/api/ha/peer/activate"@),
        ("/ha/peer/notifications/active"@, "/api/ha/peer/notifications/active"@),
        ("/ha/peer/notifications/replica"@, "/api/ha/peer/notifications/replica"@),
        ("/ha/peer/proxy-config/active"@, "/api/ha/peer/proxy-config/active"@),
        ("/ha/peer/proxy-config/replica"@, "/api/ha/peer/proxy-config/replica"@),
        ("/ha/peer/automation-templates/active"@, "/api/ha/peer/automation-templates/active"@),
        ("/ha/peer/automation-templates/replica"@, "/api/ha/peer/automation-templates/replica"@),
        ("/ha/pair"@, "/api/ha/pair"@),
        ("/ha/failover"@, "/api/ha/failover"@),
        ("/ha/refresh-datapath"@, "/api/ha/refresh-datapath"@),
        ("/notifications"@, "/api/notifications"@),
        ("/metrics"@, "/api/metrics"@),
    ]
}

fn v1_route_table() -> (v: Vec<(&'static str, &'static str)>)
    ensures
        v@.len() == v1_routes().len(),
        forall|i: int| 0 <= i < v@.len() ==> (#[trigger] v@[i]).0@ == v1_routes()[i].0 && v@[i].1@ == v1_routes()[i].1,
{
    let mut v: Vec<(&'static str, &'static str)> = Vec::new();
    v.push(("/status", "/api/status"));
    v.push(("/config", "/api/config"));
    v.push(("/target-groups", "/api/target-groups"));
    v.push(("/target-groups/export", "/api/target-groups/export"));
    v.push(("/target-groups/import", "/api/target-groups/import"));
    v.push(("/listener-configs", "/api/listener-configs"));
    v.push(("/listener-configs/export", "/api/listener-configs/export"));
    v.push(("/listener-configs/import", "/api/listener-configs/import"));
    v.push(("/nodes/gateways", "/api/gateway-nodes"));
    v.push(("/nodes/backends", "/api/backend-nodes"));
    v.push(("/nodes/backend-subscriptions", "/api/control-backend-subscriptions"));
    v.push(("/operations/apply", "/api/apply"));
    v.push(("/operations/cleanup", "/api/cleanup"));
    v.push(("/operations/failover", "/api/failover"));
    v.push(("/operations/verify", "/api/verify"));
    v.push(("/ha/config", "/api/ha/config"));
    v.push(("/ha/status", "/api/ha/status"));
    v.push(("/ha/peer/status", "/api/ha/peer/status"));
    v.push(("/ha/peer/activate", "/api/ha/peer/activate"));
    v.push(("/ha/peer/notifications/active", "/api/ha/peer/notifications/active"));
    v.push(("/ha/peer/notifications/replica", "/api/ha/peer/notifications/replica"));
    v.push(("/ha/peer/proxy-config/active", "/api/ha/peer/proxy-config/active"));
    v.push(("/ha/peer/proxy-config/replica", "/api/ha/peer/proxy-config/replica"));
    v.push(("/ha/peer/automation-templates/active", "/api/ha/peer/automation-templates/active"));
    v.push(("/ha/peer/automation-templates/replica", "/api/ha/peer/automation-templates/replica"));
    v.push(("/ha/pair", "/api/ha/pair"));
    v.push(("/ha/failover", "/api/ha/failover"));
    v.push(("/ha/refresh-datapath", "/api/ha/refresh-datapath"));
    v.push(("/notifications", "/api/notifications"));
    v.push(("/metrics", "/api/metrics"));
    v
}

/// The handler path of the first public route equal to `rest`.
pub open spec fn route_lookup(rest: Seq<char>, i: int) -> Option<Seq<char>>
    decreases v1_routes().len() - i,
{
    if i < 0 || i >= v1_routes().len() {
        None
    } else if v1_routes()[i].0 == rest {
        Some(v1_routes()[i].1)
    } else {
        route_lookup(rest, i + 1)
    }
}

/// Collections whose members are addressed by name under `/api/v1`.
pub open spec fn named_collection(rest: Seq<char>) -> bool {
    has_prefix(rest, "/target-groups/"@) || has_prefix(rest, "/listener-configs/"@) || has_prefix(rest, "/notifications/"@)
}

/// Internal handler path of a public path; `None` for anything outside the
/// `/api/v1` surface.
pub open spec fn spec_canonical_path(path: Seq<char>) -> Option<Seq<char>> {
    if !has_prefix(path, "/api/v1"@) {
        None
    } else {
        let rest = path.skip("/api/v1"@.len() as int);
        if rest.len() == 0 {
            None
        } else if rest == "/automations"@ {
            Some("/api/automation-templates"@)
        } else if has_prefix(rest, "/automations/"@) {
            Some("/api/automation-templates/"@ + rest.skip("/automations/"@.len() as int))
        } else {
            match route_lookup(rest, 0) {
                Some(t) => Some(t),
                None => if named_collection(rest) {
                    Some("/api"@ + rest)
                } else {
                    None
                },
            }
        }
    }
}

fn lookup_route(rest: &Vec<char>) -> (r: Option<&'static str>)
    ensures
        r matches Some(t) ==> route_lookup(rest@, 0) == Some(t@),
        r is None ==> route_lookup(rest@, 0) is None,
{
    let table = v1_route_table();
    let mut i: usize = 0;
    while i < table.len()
        invariant
            table@.len() == v1_routes().len(),
            forall|j: int| 0 <= j < table@.len() ==> (#[trigger] table@[j]).0@ == v1_routes()[j].0 && table@[j].1@ == v1_routes()[j].1,
            0 <= i <= table@.len(),
            route_lookup(rest@, 0) == route_lookup(rest@, i as int),
        decreases table@.len() - i,
    {
        let (from, to) = table[i];
        let from_chars = crate::text::chars_of(from);
        if crate::text::chars_eq(&from_chars, rest) {
            return Some(to);
        }
        i = i + 1;
    }
    None
}

fn starts_with_str(s: &Vec<char>, p: &str) -> (r: bool)
    ensures
        r == has_prefix(s@, p@),
{
    let pc = crate::text::chars_of(p);
    crate::text::starts_with(s, &pc)
}

/// The internal handler path of a public `/api/v1` path.
pub fn canonical_path(path: &str) -> (r: Option<String>)
    ensures
        r matches Some(s) ==> spec_canonical_path(path@) == Some(s@),
        r is None ==> spec_canonical_path(path@) is None,
{
    let cs = crate::text::chars_of(path);
    if !starts_with_str(&cs, "/api/v1") {
        return None;
    }
    let plen = crate::text::chars_of("/api/v1").len();
    let rest = crate::text::slice_chars(&cs, plen, cs.len());
    assert(rest@ == path@.skip("/api/v1"@.len() as int));
    if rest.len() == 0 {
        return None;
    }
    let automations = crate::text::chars_of("/automations");
    if crate::text::chars_eq(&rest, &automations) {
        return Some(String::from_str("/api/automation-templates"));
    }
    if starts_with_str(&rest, "/automations/") {
        let alen = crate::text::chars_of("/automations/").len();
        let tail = crate::text::slice_chars(&rest, alen, rest.len());
        let mut out = crate::text::chars_of("/api/automation-templates/");
        crate::text::extend_chars(&mut out, &tail);
        return Some(crate::text::string_of(&out));
    }
    match lookup_route(&rest) {
        Some(t) => Some(String::from_str(t)),
        None => {
            if starts_with_str(&rest, "/target-groups/") || starts_with_str(&rest, "/listener-configs/")
                || starts_with_str(&rest, "/notifications/") {
                let mut out = crate::text::chars_of("/api");
                crate::text::extend_chars(&mut out, &rest);
                Some(crate::text::string_of(&out))
            } else {
                None
            }
        },
    }
}

/// HTTP method of an API request.
#[derive(Clone, Copy, Debug, PartialEq, Eq, Structural)]
pub enum Method {
    Get,
    Post,
    Put,
    Delete,
    Other,
}

/// Which extra state a request needs before its handler runs.
#[derive(Clone, Copy, Debug, Default, PartialEq, Eq)]
pub struct LoadOptions {
    pub hydrate_proxy: bool,
    pub merge_backend_subscriptions: bool,
}

/// State a request needs, decided on its handler path: proxy state for the
/// proxy resources (reads of the listed collections, writes that are not peer
/// replication), backend subscriptions for those and for the node and
/// operation endpoints that act on backends.
pub open spec fn spec_load_options(method: Method, path: Seq<char>) -> LoadOptions {
    match spec_canonical_path(path) {
        None => LoadOptions { hydrate_proxy: false, merge_backend_subscriptions: false },
        Some(p) => {
            let proxy_read = method == Method::Get && (p == "/api/target-groups"@ || p == "/api/listener-configs"@ || p == "/api/ha/status"@);
            let peer_write = has_prefix(p, "/api/ha/peer/proxy-config"@) || has_prefix(p, "/api/ha/peer/automation-templates"@)
                || has_prefix(p, "/api/ha/peer/notifications"@);
            let proxy_write = (method == Method::Post || method == Method::Put || method == Method::Delete)
                && (has_prefix(p, "/api/listener-configs"@) || has_prefix(p, "/api/target-groups"@) || has_prefix(p, "/api/automation-templates"@))
                && !peer_write;
            let needs_backend = (method == Method::Get && p == "/api/backend-nodes"@) || (method == Method::Post && (p == "/api/apply"@
                || p == "/api/ha/refresh-datapath"@ || p == "/api/verify"@));
            LoadOptions {
                hydrate_proxy: proxy_read || proxy_write,
                merge_backend_subscriptions: needs_backend || proxy_read || proxy_write,
            }
        },
    }
}

fn is_path(p: &Vec<char>, s: &str) -> (r: bool)
    ensures
        r == (p@ == s@),
{
    let sc = crate::text::chars_of(s);
    crate::text::chars_eq(p, &sc)
}

pub fn load_options(method: Method, path: &str) -> (r: LoadOptions)
    ensures
        r == spec_load_options(method, path@),
{
    let canonical = match canonical_path(path) {
        None => return LoadOptions { hydrate_proxy: false, merge_backend_subscriptions: false },
        Some(c) => c,
    };
    let p = crate::text::chars_of(canonical.as_str());
    let is_get = matches!(method, Method::Get);
    let is_post = matches!(method, Method::Post);
    let is_write = matches!(method, Method::Post | Method::Put | Method::Delete);
    let proxy_read = is_get && (is_path(&p, "/api/target-groups") || is_path(&p, "/api/listener-configs") || is_path(&p, "/api/ha/status"));
    let peer_write = starts_with_str(&p, "/api/ha/peer/proxy-config") || starts_with_str(&p, "/api/ha/peer/automation-templates")
        || starts_with_str(&p, "/api/ha/peer/notifications");
    let proxy_write = is_write && (starts_with_str(&p, "/api/listener-configs") || starts_with_str(&p, "/api/target-groups")
        || starts_with_str(&p, "/api/automation-templates")) && !peer_write;
    let needs_backend = (is_get && is_path(&p, "/api/backend-nodes")) || (is_post && (is_path(&p, "/api/apply")
        || is_path(&p, "/api/ha/refresh-datapath") || is_path(&p, "/api/verify")));
    LoadOptions {
        hydrate_proxy: proxy_read || proxy_write,
        merge_backend_subscriptions: needs_backend || proxy_read || proxy_write,
    }
}


/// No public route is a member of the notification collection: such a path
/// is never one of the fixed routes.
pub proof fn lemma_notification_member_not_fixed(rest: Seq<char>)
    requires
        has_prefix(rest, "/notifications/"@),
    ensures
        route_lookup(rest, 0) is None,
{
    reveal_strlit("/notifications/");
    reveal_strlit("/status");
    reveal_strlit("/config");
    reveal_strlit("/target-groups");
    reveal_strlit("/target-groups/export");
    reveal_strlit("/target-groups/import");
    reveal_strlit("/listener-configs");
    reveal_strlit("/listener-configs/export");
    reveal_strlit("/listener-configs/import");
    reveal_strlit("/nodes/gateways");
    reveal_strlit("/nodes/backends");
    reveal_strlit("/nodes/backend-subscriptions");
    reveal_strlit("/operations/apply");
    reveal_strlit("/operations/cleanup");
    reveal_strlit("/operations/failover");
    reveal_strlit("/operations/verify");
    reveal_strlit("/ha/config");
    reveal_strlit("/ha/status");
    reveal_strlit("/ha/peer/status");
    reveal_strlit("/ha/peer/activate");
    reveal_strlit("/ha/peer/notifications/active");
    reveal_strlit("/ha/peer/notifications/replica");
    reveal_strlit("/ha/peer/proxy-config/active");
    reveal_strlit("/ha/peer/proxy-config/replica");
    reveal_strlit("/ha/peer/automation-templates/active");
    reveal_strlit("/ha/peer/automation-templates/replica");
    reveal_strlit("/ha/pair");
    reveal_strlit("/ha/failover");
    reveal_strlit("/ha/refresh-datapath");
    reveal_strlit("/notifications");
    reveal_strlit("/metrics");
    reveal_with_fuel(route_lookup, 32);
    assert(rest.subrange(0, 15) == "/notifications/"@);
    assert(rest[1] == rest.subrange(0, 15)[1]);
    assert(rest[3] == rest.subrange(0, 15)[3]);
    assert(rest.len() >= 15);
    assert(rest[1] == 'n' && rest[3] == 't');
}


/// A member of the listener-config or target-group collection other than
/// `export` and `import` is not one of the fixed public routes.
pub proof fn lemma_collection_member_not_fixed(prefix: Seq<char>, name: Seq<char>)
    requires
        prefix == "/listener-configs/"@ || prefix == "/target-groups/"@,
        name != "export"@,
        name != "import"@,
    ensures
        route_lookup(prefix + name, 0) is None,
{
    reveal_strlit("/listener-configs/");
    reveal_strlit("/target-groups/");
    reveal_strlit("export");
    reveal_strlit("import");
    reveal_strlit("/status");
    reveal_strlit("/config");
    reveal_strlit("/target-groups");
    reveal_strlit("/target-groups/export");
    reveal_strlit("/target-groups/import");
    reveal_strlit("/listener-configs");
    reveal_strlit("/listener-configs/export");
    reveal_strlit("/listener-configs/import");
    reveal_strlit("/nodes/gateways");
    reveal_strlit("/nodes/backends");
    reveal_strlit("/nodes/backend-subscriptions");
    reveal_strlit("/operations/apply");
    reveal_strlit("/operations/cleanup");
    reveal_strlit("/operations/failover");
    reveal_strlit("/operations/verify");
    reveal_strlit("/ha/config");
    reveal_strlit("/ha/status");
    reveal_strlit("/ha/peer/status");
    reveal_strlit("/ha/peer/activate");
    reveal_strlit("/ha/peer/notifications/active");
    reveal_strlit("/ha/peer/notifications/replica");
    reveal_strlit("/ha/peer/proxy-config/active");
    reveal_strlit("/ha/peer/proxy-config/replica");
    reveal_strlit("/ha/peer/automation-templates/active");
    reveal_strlit("/ha/peer/automation-templates/replica");
    reveal_strlit("/ha/pair");
    reveal_strlit("/ha/failover");
    reveal_strlit("/ha/refresh-datapath");
    reveal_strlit("/notifications");
    reveal_strlit("/metrics");
    let rest = prefix + name;
    let k = prefix.len() as int;
    assert(rest.skip(k) =~= name);
    assert(rest.len() >= 15);
    assert(rest[1] == prefix[1] && rest[2] == prefix[2] && rest[k - 1] == '/');
    let e1 = prefix + "export"@;
    let e2 = prefix + "import"@;
    assert(e1.skip(k) =~= "export"@);
    assert(e2.skip(k) =~= "import"@);
    assert(rest != e1);
    assert(rest != e2);
    assert("/listener-configs/"@ + "export"@ =~= "/listener-configs/export"@);
    assert("/listener-configs/"@ + "import"@ =~= "/listener-configs/import"@);
    assert("/target-groups/"@ + "export"@ =~= "/target-groups/export"@);
    assert("/target-groups/"@ + "import"@ =~= "/target-groups/import"@);
    reveal_with_fuel(route_lookup, 32);
}

} // verus!
