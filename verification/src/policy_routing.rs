//! Decisions of backend policy routing: which routes a return table must
//! hold, which dumped routes and rules are stale, and which rules to add.

use vstd::prelude::*;
use crate::route::{PolicyRule, spec_rule_is_ours_family, rule_key, rule_is_stale_ours, rule_is_ours_family, EDGE_CURRENT_TABLE_BASE, EDGE_TABLE_LIMIT};
use crate::route_msg::{IpAddress, RouteEntry};
use crate::netlink::{AF_INET, AF_INET6};

verus! {

/// Address family of an address.
pub open spec fn spec_family(ip: IpAddress) -> u8 {
    match ip {
        IpAddress::V4(_) => AF_INET,
        IpAddress::V6(_) => AF_INET6,
    }
}

pub fn family(ip: IpAddress) -> (r: u8)
    ensures
        r == spec_family(ip),
{
    match ip {
        IpAddress::V4(_) => AF_INET,
        IpAddress::V6(_) => AF_INET6,
    }
}

/// Prefix length of a host route to an address.
pub open spec fn spec_prefix_len(ip: IpAddress) -> u8 {
    match ip {
        IpAddress::V4(_) => 32,
        IpAddress::V6(_) => 128,
    }
}

pub fn prefix_len(ip: IpAddress) -> (r: u8)
    ensures
        r == spec_prefix_len(ip),
{
    match ip {
        IpAddress::V4(_) => 32,
        IpAddress::V6(_) => 128,
    }
}

/// The default route of a return table: via the owning gateway's overlay
/// address, out of the VXLAN device.
pub open spec fn spec_default_entry(table: u32, gateway_overlay: IpAddress, oif: u32) -> RouteEntry {
    RouteEntry {
        family: spec_family(gateway_overlay),
        table,
        dst_len: 0,
        dst: None,
        gateway: Some(gateway_overlay),
        oif: Some(oif),
        prefsrc: None,
    }
}

pub fn default_entry(table: u32, gateway_overlay: IpAddress, oif: u32) -> (r: RouteEntry)
    ensures
        r == spec_default_entry(table, gateway_overlay, oif),
{
    RouteEntry {
        family: family(gateway_overlay),
        table,
        dst_len: 0,
        dst: None,
        gateway: Some(gateway_overlay),
        oif: Some(oif),
        prefsrc: None,
    }
}

/// A host route to a gateway's underlay address out of the underlay device,
/// with the local underlay address as preferred source.
pub open spec fn spec_host_entry(table: u32, dst: IpAddress, oif: u32, preferred_src: IpAddress) -> RouteEntry {
    RouteEntry {
        family: spec_family(dst),
        table,
        dst_len: spec_prefix_len(dst),
        dst: Some(dst),
        gateway: None,
        oif: Some(oif),
        prefsrc: Some(preferred_src),
    }
}

pub fn host_entry(table: u32, dst: IpAddress, oif: u32, preferred_src: IpAddress) -> (r: RouteEntry)
    ensures
        r == spec_host_entry(table, dst, oif, preferred_src),
{
    RouteEntry {
        family: family(dst),
        table,
        dst_len: prefix_len(dst),
        dst: Some(dst),
        gateway: None,
        oif: Some(oif),
        prefsrc: Some(preferred_src),
    }
}

/// The shape of the routes edge-lb creates: a default route out of the VXLAN
/// device, or a host route out of the underlay device with the local
/// underlay address as preferred source.
pub open spec fn spec_ours_by_shape(e: RouteEntry, vxlan_ifindex: u32, underlay_ifindex: u32, local_underlay: IpAddress) -> bool {
    (e.dst_len == 0 && e.dst is None && e.oif == Some(vxlan_ifindex))
        || (e.oif == Some(underlay_ifindex)
            && e.dst_len == spec_prefix_len(
            match e.dst {
                Some(d) => d,
                None => IpAddress::V4(0),
            },
        ) && e.prefsrc == Some(local_underlay))
}

pub fn entry_is_ours_by_shape(entry: &RouteEntry, vxlan_ifindex: u32, underlay_ifindex: u32, local_underlay: IpAddress) -> (r: bool)
    ensures
        r == spec_ours_by_shape(*entry, vxlan_ifindex, underlay_ifindex, local_underlay),
{
    let dst = match entry.dst {
        Some(d) => d,
        None => IpAddress::V4(0),
    };
    (entry.dst_len == 0 && entry.dst.is_none() && entry.oif == Some(vxlan_ifindex))
        || (entry.oif == Some(underlay_ifindex) && entry.dst_len == prefix_len(dst) && entry.prefsrc == Some(local_underlay))
}

/// The return path towards one gateway: its addresses and the mark and
/// table that steer replies to it.
#[derive(Clone, Copy, Debug, PartialEq, Eq, Structural)]
pub struct ReturnRoute {
    pub gateway_underlay: IpAddress,
    pub gateway_overlay: IpAddress,
    pub mark: u32,
    pub table: u32,
}

/// What a converged return table holds: the default route via the owning
/// gateway, then a host route per gateway underlay address, in order.
pub open spec fn spec_expected_entries(route: ReturnRoute, gateways: Seq<IpAddress>, vxlan_ifindex: u32, underlay_ifindex: u32, local_underlay: IpAddress) -> Seq<RouteEntry> {
    seq![spec_default_entry(route.table, route.gateway_overlay, vxlan_ifindex)]
        + gateways.map_values(|g: IpAddress| spec_host_entry(route.table, g, underlay_ifindex, local_underlay))
}

pub fn expected_table_entries(route: &ReturnRoute, gateways: &[IpAddress], vxlan_ifindex: u32, underlay_ifindex: u32, local_underlay: IpAddress) -> (r: Vec<RouteEntry>)
    ensures
        r@ == spec_expected_entries(*route, gateways@, vxlan_ifindex, underlay_ifindex, local_underlay),
{
    let mut entries: Vec<RouteEntry> = Vec::new();
    entries.push(default_entry(route.table, route.gateway_overlay, vxlan_ifindex));
    let mut i: usize = 0;
    while i < gateways.len()
        invariant
            i <= gateways@.len(),
            entries@ == seq![spec_default_entry(route.table, route.gateway_overlay, vxlan_ifindex)]
                + gateways@.take(i as int).map_values(|g: IpAddress| spec_host_entry(route.table, g, underlay_ifindex, local_underlay)),
        decreases gateways@.len() - i,
    {
        entries.push(host_entry(route.table, gateways[i], underlay_ifindex, local_underlay));
        assert(gateways@.take(i + 1).map_values(|g: IpAddress| spec_host_entry(route.table, g, underlay_ifindex, local_underlay))
            =~= gateways@.take(i as int).map_values(|g: IpAddress| spec_host_entry(route.table, g, underlay_ifindex, local_underlay)).push(
            spec_host_entry(route.table, gateways@[i as int], underlay_ifindex, local_underlay),
        ));
        i = i + 1;
    }
    assert(gateways@.take(i as int) =~= gateways@);
    entries
}

fn contains_route(s: &Vec<RouteEntry>, e: &RouteEntry) -> (r: bool)
    ensures
        r == s@.contains(*e),
{
    let mut i: usize = 0;
    while i < s.len()
        invariant
            i <= s@.len(),
            forall|j: int| 0 <= j < i ==> s@[j] != *e,
        decreases s@.len() - i,
    {
        if s[i] == *e {
            assert(s@[i as int] == *e);
            return true;
        }
        i = i + 1;
    }
    false
}

/// Whether a table is wholly owned: an edge-lb table converged without the
/// shape guard.
pub open spec fn spec_fully_owned(table: u32, shape_guard: bool) -> bool {
    !shape_guard && EDGE_CURRENT_TABLE_BASE <= table < EDGE_TABLE_LIMIT
}

/// A dumped route is stale when it is not expected and either the table is
/// wholly owned or the route has the edge-lb shape.
pub open spec fn stale_route(e: RouteEntry, expected: Seq<RouteEntry>, fully_owned: bool, vxlan_ifindex: u32, underlay_ifindex: u32, local_underlay: IpAddress) -> bool {
    !expected.contains(e) && (fully_owned || spec_ours_by_shape(e, vxlan_ifindex, underlay_ifindex, local_underlay))
}

/// The work that converges one table: the stale routes to delete, in dump
/// order, and the expected routes that are missing, in expected order.
pub struct TablePlan {
    pub delete: Vec<RouteEntry>,
    pub add: Vec<RouteEntry>,
}

pub fn plan_table(
    table: u32,
    current: &Vec<RouteEntry>,
    expected: &Vec<RouteEntry>,
    shape_guard: bool,
    vxlan_ifindex: u32,
    underlay_ifindex: u32,
    local_underlay: IpAddress,
) -> (r: TablePlan)
    ensures
        r.delete@ == current@.filter(
            |e: RouteEntry| stale_route(e, expected@, spec_fully_owned(table, shape_guard), vxlan_ifindex, underlay_ifindex, local_underlay),
        ),
        r.add@ == expected@.filter(|e: RouteEntry| !current@.contains(e)),
{
    let fully_owned = !shape_guard && EDGE_CURRENT_TABLE_BASE <= table && table < EDGE_TABLE_LIMIT;
    let ghost f = |e: RouteEntry| stale_route(e, expected@, spec_fully_owned(table, shape_guard), vxlan_ifindex, underlay_ifindex, local_underlay);
    let mut delete: Vec<RouteEntry> = Vec::new();
    let mut i: usize = 0;
    while i < current.len()
        invariant
            i <= current@.len(),
            fully_owned == spec_fully_owned(table, shape_guard),
            f == (|e: RouteEntry| stale_route(e, expected@, spec_fully_owned(table, shape_guard), vxlan_ifindex, underlay_ifindex, local_underlay)),
            delete@ == current@.take(i as int).filter(f),
        decreases current@.len() - i,
    {
        let e = current[i];
        assert(current@.take(i + 1).drop_last() =~= current@.take(i as int));
        proof {
            reveal(Seq::filter);
        }
        let stale = !contains_route(expected, &e) && (fully_owned || entry_is_ours_by_shape(&e, vxlan_ifindex, underlay_ifindex, local_underlay));
        if stale {
            delete.push(e);
        }
        i = i + 1;
    }
    assert(current@.take(i as int) =~= current@);
    let ghost g = |e: RouteEntry| !current@.contains(e);
    let mut add: Vec<RouteEntry> = Vec::new();
    let mut j: usize = 0;
    while j < expected.len()
        invariant
            j <= expected@.len(),
            g == (|e: RouteEntry| !current@.contains(e)),
            add@ == expected@.take(j as int).filter(g),
        decreases expected@.len() - j,
    {
        let e = expected[j];
        assert(expected@.take(j + 1).drop_last() =~= expected@.take(j as int));
        proof {
            reveal(Seq::filter);
        }
        if !contains_route(current, &e) {
            add.push(e);
        }
        j = j + 1;
    }
    assert(expected@.take(j as int) =~= expected@);
    TablePlan { delete, add }
}

/// The (mark, table) pairs the return routes ask for.
pub open spec fn spec_desired_keys(routes: Seq<ReturnRoute>) -> Seq<(u32, u32)> {
    routes.map_values(|r: ReturnRoute| (r.mark, r.table))
}

pub fn desired_keys(routes: &Vec<ReturnRoute>) -> (r: Vec<(u32, u32)>)
    ensures
        r@ == spec_desired_keys(routes@),
{
    let mut keys: Vec<(u32, u32)> = Vec::new();
    let mut i: usize = 0;
    while i < routes.len()
        invariant
            i <= routes@.len(),
            keys@ == spec_desired_keys(routes@.take(i as int)),
        decreases routes@.len() - i,
    {
        keys.push((routes[i].mark, routes[i].table));
        assert(spec_desired_keys(routes@.take(i + 1)) =~= spec_desired_keys(routes@.take(i as int)).push(
            (routes@[i as int].mark, routes@[i as int].table),
        ));
        i = i + 1;
    }
    assert(routes@.take(i as int) =~= routes@);
    keys
}

/// The tables of some rules, each once, in order of first appearance.
pub open spec fn distinct_tables(s: Seq<PolicyRule>) -> Seq<u32>
    decreases s.len(),
{
    if s.len() == 0 {
        seq![]
    } else {
        let d = distinct_tables(s.drop_last());
        if d.contains(s.last().table) {
            d
        } else {
            d.push(s.last().table)
        }
    }
}

fn contains_u32(s: &Vec<u32>, x: u32) -> (r: bool)
    ensures
        r == s@.contains(x),
{
    let mut i: usize = 0;
    while i < s.len()
        invariant
            i <= s@.len(),
            forall|j: int| 0 <= j < i ==> s@[j] != x,
        decreases s@.len() - i,
    {
        if s[i] == x {
            assert(s@[i as int] == x);
            return true;
        }
        i = i + 1;
    }
    false
}

pub fn tables_of(rules: &Vec<PolicyRule>) -> (r: Vec<u32>)
    ensures
        r@ == distinct_tables(rules@),
{
    let mut out: Vec<u32> = Vec::new();
    let mut i: usize = 0;
    while i < rules.len()
        invariant
            i <= rules@.len(),
            out@ == distinct_tables(rules@.take(i as int)),
        decreases rules@.len() - i,
    {
        assert(rules@.take(i + 1).drop_last() =~= rules@.take(i as int));
        let t = rules[i].table;
        if !contains_u32(&out, t) {
            out.push(t);
        }
        i = i + 1;
    }
    assert(rules@.take(i as int) =~= rules@);
    out
}

/// A request for the rule `fwmark mark/mask lookup table`, tried first at `priority`.
#[derive(Clone, Copy, Debug, PartialEq, Eq, Structural)]
pub struct RuleRequest {
    pub priority: u32,
    pub mark: u32,
    pub mask: u32,
    pub table: u32,
}

/// Some dumped rule already steers `mark` to `table`.
pub open spec fn has_rule_for(rules: Seq<PolicyRule>, mark: u32, table: u32) -> bool {
    exists|j: int| 0 <= j < rules.len() && rules[j].mark == Some(mark) && #[trigger] rules[j].table == table
}

/// The rules to add: for the route at index `i` whose mark and table no
/// dumped rule covers, an exact-mark rule tried first at `base + i`.
pub open spec fn missing_rules(rules: Seq<PolicyRule>, routes: Seq<ReturnRoute>, base: u32) -> Seq<RuleRequest>
    decreases routes.len(),
{
    if routes.len() == 0 {
        seq![]
    } else {
        let rest = missing_rules(rules, routes.drop_last(), base);
        let rt = routes.last();
        if has_rule_for(rules, rt.mark, rt.table) {
            rest
        } else {
            rest.push(RuleRequest { priority: (base + routes.len() - 1) as u32, mark: rt.mark, mask: u32::MAX, table: rt.table })
        }
    }
}

fn find_rule_for(rules: &Vec<PolicyRule>, mark: u32, table: u32) -> (r: bool)
    ensures
        r == has_rule_for(rules@, mark, table),
{
    let mut i: usize = 0;
    while i < rules.len()
        invariant
            i <= rules@.len(),
            forall|j: int| 0 <= j < i ==> !(rules@[j].mark == Some(mark) && rules@[j].table == table),
        decreases rules@.len() - i,
    {
        if rules[i].mark == Some(mark) && rules[i].table == table {
            return true;
        }
        i = i + 1;
    }
    false
}

/// Whether an edge-lb rule is stale against the desired keys.
pub open spec fn stale_rule(r: PolicyRule, desired: Seq<(u32, u32)>) -> bool {
    spec_rule_is_ours_family(r) && !desired.contains(rule_key(r))
}

/// The rule work of one convergence: the stale edge-lb rules to delete (in
/// dump order), their tables (each once), and the rules to add.
pub struct RulePlan {
    pub delete: Vec<PolicyRule>,
    pub stale_tables: Vec<u32>,
    pub add: Vec<RuleRequest>,
}

pub fn plan_rules(rules: &Vec<PolicyRule>, routes: &Vec<ReturnRoute>, base: u32) -> (r: RulePlan)
    requires
        base + routes@.len() <= u32::MAX,
    ensures
        r.delete@ == rules@.filter(|x: PolicyRule| stale_rule(x, spec_desired_keys(routes@))),
        r.stale_tables@ == distinct_tables(r.delete@),
        r.add@ == missing_rules(rules@, routes@, base),
{
    let desired = desired_keys(routes);
    let ghost f = |x: PolicyRule| stale_rule(x, spec_desired_keys(routes@));
    let mut delete: Vec<PolicyRule> = Vec::new();
    let mut i: usize = 0;
    while i < rules.len()
        invariant
            i <= rules@.len(),
            desired@ == spec_desired_keys(routes@),
            f == (|x: PolicyRule| stale_rule(x, spec_desired_keys(routes@))),
            delete@ == rules@.take(i as int).filter(f),
        decreases rules@.len() - i,
    {
        let rule = rules[i];
        assert(rules@.take(i + 1).drop_last() =~= rules@.take(i as int));
        proof {
            reveal(Seq::filter);
        }
        if rule_is_stale_ours(&rule, desired.as_slice()) {
            delete.push(rule);
        }
        i = i + 1;
    }
    assert(rules@.take(i as int) =~= rules@);
    let stale_tables = tables_of(&delete);
    let mut add: Vec<RuleRequest> = Vec::new();
    let mut k: usize = 0;
    while k < routes.len()
        invariant
            k <= routes@.len(),
            base + routes@.len() <= u32::MAX,
            add@ == missing_rules(rules@, routes@.take(k as int), base),
        decreases routes@.len() - k,
    {
        assert(routes@.take(k + 1).drop_last() =~= routes@.take(k as int));
        let rt = routes[k];
        if !find_rule_for(rules, rt.mark, rt.table) {
            add.push(RuleRequest { priority: base + k as u32, mark: rt.mark, mask: u32::MAX, table: rt.table });
        }
        k = k + 1;
    }
    assert(routes@.take(k as int) =~= routes@);
    RulePlan { delete, stale_tables, add }
}

/// A table to clear after its rules went away, and whether foreign routes
/// in it are kept (shape guard).
pub open spec fn spec_clear_work(tables: Seq<u32>) -> Seq<(u32, bool)> {
    tables.map_values(|t: u32| (t, !(EDGE_CURRENT_TABLE_BASE <= t < EDGE_TABLE_LIMIT)))
}

/// The whole of one dump-driven convergence: the stale edge-lb rules to
/// delete, the tables to clear (with their shape guard), the tables to
/// converge to their expected entries (one per return route, in order), and
/// the rules to add.
pub struct RouteReconcilePlan {
    pub delete: Vec<PolicyRule>,
    pub clear: Vec<(u32, bool)>,
    pub converge: Vec<u32>,
    pub add: Vec<RuleRequest>,
}

/// Decide a convergence from a rule dump and the return routes. Stale
/// edge-lb rules are always deleted. With no return routes, every table
/// that such a rule pointed at is cleared, shape-guarded outside the
/// edge-lb range, and nothing is converged or added; otherwise each route's
/// table is converged and the routes whose mark and table no dumped rule
/// covers get a rule, tried first at `base` plus the route's index.
pub fn route_reconcile_plan(rules: &Vec<PolicyRule>, routes: &Vec<ReturnRoute>, base: u32) -> (p: RouteReconcilePlan)
    requires
        base + routes@.len() <= u32::MAX,
    ensures
        p.delete@ == rules@.filter(|x: PolicyRule| stale_rule(x, spec_desired_keys(routes@))),
        routes@.len() == 0 ==> {
            &&& p.clear@ == spec_clear_work(distinct_tables(p.delete@))
            &&& p.converge@.len() == 0
            &&& p.add@.len() == 0
        },
        routes@.len() > 0 ==> {
            &&& p.clear@.len() == 0
            &&& p.converge@ == routes@.map_values(|r: ReturnRoute| r.table)
            &&& p.add@ == missing_rules(rules@, routes@, base)
        },
{
    let plan = plan_rules(rules, routes, base);
    let RulePlan { delete, stale_tables, add } = plan;
    let mut clear: Vec<(u32, bool)> = Vec::new();
    let mut converge: Vec<u32> = Vec::new();
    if routes.len() == 0 {
        let mut i: usize = 0;
        while i < stale_tables.len()
            invariant
                i <= stale_tables@.len(),
                clear@ == spec_clear_work(stale_tables@.take(i as int)),
            decreases stale_tables@.len() - i,
        {
            let t = stale_tables[i];
            clear.push((t, clear_with_shape_guard(t)));
            assert(spec_clear_work(stale_tables@.take(i + 1)) =~= spec_clear_work(stale_tables@.take(i as int)).push(
                (t, !(EDGE_CURRENT_TABLE_BASE <= t < EDGE_TABLE_LIMIT)),
            ));
            i = i + 1;
        }
        assert(stale_tables@.take(i as int) =~= stale_tables@);
        return RouteReconcilePlan { delete, clear, converge, add: Vec::new() };
    }
    let mut k: usize = 0;
    while k < routes.len()
        invariant
            k <= routes@.len(),
            converge@ == routes@.take(k as int).map_values(|r: ReturnRoute| r.table),
        decreases routes@.len() - k,
    {
        converge.push(routes[k].table);
        assert(routes@.take(k + 1).map_values(|r: ReturnRoute| r.table) =~= routes@.take(k as int).map_values(
            |r: ReturnRoute| r.table,
        ).push(routes@[k as int].table));
        k = k + 1;
    }
    assert(routes@.take(k as int) =~= routes@);
    RouteReconcilePlan { delete, clear, converge, add }
}

/// Teardown: every edge-lb rule is deleted and each of their tables is
/// cleared, shape-guarded.
pub fn plan_cleanup(rules: &Vec<PolicyRule>) -> (r: (Vec<PolicyRule>, Vec<u32>))
    ensures
        r.0@ == rules@.filter(|x: PolicyRule| spec_rule_is_ours_family(x)),
        r.1@ == distinct_tables(r.0@),
{
    let ghost f = |x: PolicyRule| spec_rule_is_ours_family(x);
    let mut ours: Vec<PolicyRule> = Vec::new();
    let mut i: usize = 0;
    while i < rules.len()
        invariant
            i <= rules@.len(),
            f == (|x: PolicyRule| spec_rule_is_ours_family(x)),
            ours@ == rules@.take(i as int).filter(f),
        decreases rules@.len() - i,
    {
        let rule = rules[i];
        assert(rules@.take(i + 1).drop_last() =~= rules@.take(i as int));
        proof {
            reveal(Seq::filter);
        }
        if rule_is_ours_family(&rule) {
            ours.push(rule);
        }
        i = i + 1;
    }
    assert(rules@.take(i as int) =~= rules@);
    let tables = tables_of(&ours);
    (ours, tables)
}

/// A table cleared after its rules went away keeps foreign routes unless it
/// lies in the edge-lb range.
pub fn clear_with_shape_guard(table: u32) -> (r: bool)
    ensures
        r == !(EDGE_CURRENT_TABLE_BASE <= table < EDGE_TABLE_LIMIT),
{
    !(EDGE_CURRENT_TABLE_BASE <= table && table < EDGE_TABLE_LIMIT)
}

/// Whether the configured rule (`fwmark mark/mask lookup table`) is in a dump.
pub fn policy_rule_present(rules: &Vec<PolicyRule>, mark: u32, mask: u32, table: u32) -> (r: bool)
    ensures
        r == exists|j: int| 0 <= j < rules@.len() && rules@[j].mark == Some(mark) && rules@[j].mask == Some(mask) && #[trigger] rules@[j].table == table,
{
    let mut i: usize = 0;
    while i < rules.len()
        invariant
            i <= rules@.len(),
            forall|j: int| 0 <= j < i ==> !(rules@[j].mark == Some(mark) && rules@[j].mask == Some(mask) && rules@[j].table == table),
        decreases rules@.len() - i,
    {
        if rules[i].mark == Some(mark) && rules[i].mask == Some(mask) && rules[i].table == table {
            return true;
        }
        i = i + 1;
    }
    false
}

} // verus!
