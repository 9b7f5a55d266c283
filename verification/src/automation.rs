//! Automation templates: which discovered backend nodes a template selects,
//! the target group it plans from them, and the template list edits.

use vstd::prelude::*;
use vstd::string::*;
use crate::text::{trim, has_prefix, has_infix};
use crate::ipnet::{parsed_ipv4, spec_parse_net};

verus! {

/// A discovered backend node as automation sees it.
#[derive(Clone, Debug, Default, PartialEq, Eq)]
pub struct MatchedNode {
    pub name: String,
    pub underlay_ip: String,
    pub public_ip: String,
    pub underlay_ip_source: Option<String>,
    pub public_ip_source: Option<String>,
}

#[derive(Clone, Copy, Debug, PartialEq, Eq)]
pub enum FilterField {
    Name,
    UnderlayIp,
    PublicIp,
    UnderlayIpSource,
    PublicIpSource,
}

#[derive(Clone, Copy, Debug, PartialEq, Eq)]
pub enum FilterOp {
    Equals,
    NotEquals,
    Prefix,
    NotPrefix,
    Contains,
    NotContains,
    Regex,
    InCidr,
    NotInCidr,
}

#[derive(Clone, Debug, PartialEq, Eq)]
pub struct FilterCondition {
    pub field: FilterField,
    pub op: FilterOp,
    pub value: String,
}

/// Conditions that all must hold for a node to be selected.
#[derive(Clone, Debug, Default, PartialEq, Eq)]
pub struct NodeFilter {
    pub conditions: Vec<FilterCondition>,
}

#[derive(Clone, Copy, Debug, Default, PartialEq, Eq)]
pub enum NodeScope {
    #[default]
    All,
    Filtered,
}

/// The target group a template produces.
#[derive(Clone, Debug, Default, PartialEq, Eq)]
pub struct TargetGroupTemplate {
    pub name: String,
    pub monitor: bool,
    pub probe_type: Option<String>,
}

#[derive(Clone, Debug, Default, PartialEq, Eq)]
pub struct AutomationTemplate {
    pub name: String,
    pub node_scope: NodeScope,
    pub node_filter: Option<NodeFilter>,
    pub target_group: TargetGroupTemplate,
}

#[derive(Clone, Debug, Default, PartialEq, Eq)]
pub struct AutomationConfig {
    pub templates: Vec<AutomationTemplate>,
}

/// The target group planned from a template and the nodes it selects.
#[derive(Clone, Debug, PartialEq, Eq)]
pub struct PlannedTargetGroup {
    pub template: String,
    pub name: String,
    pub monitor: bool,
    pub probe_type: String,
    pub targets: Vec<MatchedNode>,
}

pub open spec fn opt_view(o: Option<String>) -> Option<Seq<char>> {
    match o {
        Some(s) => Some(s@),
        None => None,
    }
}

/// A node by the texts it carries.
pub open spec fn node_view(n: MatchedNode) -> (Seq<char>, Seq<char>, Seq<char>, Option<Seq<char>>, Option<Seq<char>>) {
    (n.name@, n.underlay_ip@, n.public_ip@, opt_view(n.underlay_ip_source), opt_view(n.public_ip_source))
}

pub open spec fn nodes_view(ns: Seq<MatchedNode>) -> Seq<(Seq<char>, Seq<char>, Seq<char>, Option<Seq<char>>, Option<Seq<char>>)> {
    ns.map_values(|n: MatchedNode| node_view(n))
}

fn clone_opt(o: &Option<String>) -> (r: Option<String>)
    ensures
        opt_view(r) == opt_view(*o),
{
    match o {
        Some(s) => Some(s.clone()),
        None => None,
    }
}

fn clone_node(n: &MatchedNode) -> (r: MatchedNode)
    ensures
        node_view(r) == node_view(*n),
{
    MatchedNode {
        name: n.name.clone(),
        underlay_ip: n.underlay_ip.clone(),
        public_ip: n.public_ip.clone(),
        underlay_ip_source: clone_opt(&n.underlay_ip_source),
        public_ip_source: clone_opt(&n.public_ip_source),
    }
}

/// The text of a node that a filter field reads; a missing source reads empty.
pub open spec fn field_text(n: MatchedNode, f: FilterField) -> Seq<char> {
    match f {
        FilterField::Name => n.name@,
        FilterField::UnderlayIp => n.underlay_ip@,
        FilterField::PublicIp => n.public_ip@,
        FilterField::UnderlayIpSource => match n.underlay_ip_source {
            Some(s) => s@,
            None => Seq::empty(),
        },
        FilterField::PublicIpSource => match n.public_ip_source {
            Some(s) => s@,
            None => Seq::empty(),
        },
    }
}

pub fn field_value(node: &MatchedNode, field: FilterField) -> (r: Vec<char>)
    ensures
        r@ == field_text(*node, field),
{
    match field {
        FilterField::Name => crate::text::chars_of(node.name.as_str()),
        FilterField::UnderlayIp => crate::text::chars_of(node.underlay_ip.as_str()),
        FilterField::PublicIp => crate::text::chars_of(node.public_ip.as_str()),
        FilterField::UnderlayIpSource => match &node.underlay_ip_source {
            Some(s) => crate::text::chars_of(s.as_str()),
            None => Vec::new(),
        },
        FilterField::PublicIpSource => match &node.public_ip_source {
            Some(s) => crate::text::chars_of(s.as_str()),
            None => Vec::new(),
        },
    }
}

/// Whether a pattern compiles as a regular expression (`regex` syntax).
pub uninterp spec fn regex_compiles(pattern: Seq<char>) -> bool;

/// Whether a compiled pattern matches somewhere in a text.
pub uninterp spec fn regex_matches(pattern: Seq<char>, text: Seq<char>) -> bool;

/// `regex::Regex::new(pattern)`, then `Regex::is_match(text)` when it
/// compiled; `None` when it did not.
#[verifier::external_body]
fn regex_is_match(pattern: &str, text: &str) -> (r: Option<bool>)
    ensures
        r is None <==> !regex_compiles(pattern@),
        r matches Some(m) ==> m == regex_matches(pattern@, text@),
{
    match regex::Regex::new(pattern) {
        Ok(re) => Some(re.is_match(text)),
        Err(_) => None,
    }
}

/// An IPv4 address lies in a CIDR; `None` when the CIDR does not parse.
pub open spec fn spec_ipv4_in_cidr(ip: u32, cidr: Seq<char>) -> Option<bool> {
    match spec_parse_net(cidr) {
        Some(net) => Some(net.spec_contains_ip(ip)),
        None => None,
    }
}

pub fn ipv4_in_cidr(ip: u32, cidr: &[char]) -> (r: Option<bool>)
    ensures
        r == spec_ipv4_in_cidr(ip, cidr@),
{
    match crate::ipnet::Ipv4Net::parse_chars(cidr) {
        Some(net) => Some(net.contains_ip(ip)),
        None => None,
    }
}

/// One condition holds for a node. A condition that cannot be evaluated (a
/// pattern that does not compile, an address or CIDR that does not parse
/// where one is needed) does not hold; a node address that is not IPv4 lies
/// in no CIDR.
pub open spec fn cond_holds(n: MatchedNode, c: FilterCondition) -> bool {
    let current = field_text(n, c.field);
    let want = trim(c.value@);
    match c.op {
        FilterOp::Equals => current == want,
        FilterOp::NotEquals => current != want,
        FilterOp::Prefix => has_prefix(current, want),
        FilterOp::NotPrefix => !has_prefix(current, want),
        FilterOp::Contains => has_infix(current, want),
        FilterOp::NotContains => !has_infix(current, want),
        FilterOp::Regex => regex_compiles(want) && regex_matches(want, current),
        FilterOp::InCidr => match parsed_ipv4(current) {
            Some(ip) => spec_ipv4_in_cidr(ip, want) == Some(true),
            None => false,
        },
        FilterOp::NotInCidr => match parsed_ipv4(current) {
            Some(ip) => spec_ipv4_in_cidr(ip, want) == Some(false),
            None => true,
        },
    }
}

fn condition_holds(node: &MatchedNode, c: &FilterCondition) -> (r: bool)
    ensures
        r == cond_holds(*node, *c),
{
    let current = field_value(node, c.field);
    let want = crate::text::trimmed(c.value.as_str());
    match c.op {
        FilterOp::Equals => crate::text::chars_eq(&current, &want),
        FilterOp::NotEquals => !crate::text::chars_eq(&current, &want),
        FilterOp::Prefix => crate::text::starts_with(&current, &want),
        FilterOp::NotPrefix => !crate::text::starts_with(&current, &want),
        FilterOp::Contains => crate::text::contains_chars(&current, &want),
        FilterOp::NotContains => !crate::text::contains_chars(&current, &want),
        FilterOp::Regex => {
            let p = crate::text::string_of(&want);
            let t = crate::text::string_of(&current);
            match regex_is_match(p.as_str(), t.as_str()) {
                Some(m) => m,
                None => false,
            }
        },
        FilterOp::InCidr => match crate::ipnet::parse_ipv4_chars(&current) {
            Some(ip) => match ipv4_in_cidr(ip, &want) {
                Some(inside) => inside,
                None => false,
            },
            None => false,
        },
        FilterOp::NotInCidr => match crate::ipnet::parse_ipv4_chars(&current) {
            Some(ip) => match ipv4_in_cidr(ip, &want) {
                Some(inside) => !inside,
                None => false,
            },
            None => true,
        },
    }
}

/// A node passes a filter when every condition holds.
pub open spec fn node_matches(n: MatchedNode, f: NodeFilter) -> bool {
    forall|i: int| 0 <= i < f.conditions@.len() ==> cond_holds(n, #[trigger] f.conditions@[i])
}

pub fn matches_node(node: &MatchedNode, filter: &NodeFilter) -> (r: bool)
    ensures
        r == node_matches(*node, *filter),
{
    let mut i: usize = 0;
    while i < filter.conditions.len()
        invariant
            0 <= i <= filter.conditions@.len(),
            forall|j: int| 0 <= j < i ==> cond_holds(*node, #[trigger] filter.conditions@[j]),
        decreases filter.conditions@.len() - i,
    {
        if !condition_holds(node, &filter.conditions[i]) {
            return false;
        }
        i = i + 1;
    }
    true
}

/// The nodes among the first `n` that pass a filter, in order.
pub open spec fn passing(nodes: Seq<MatchedNode>, f: NodeFilter, n: int) -> Seq<(Seq<char>, Seq<char>, Seq<char>, Option<Seq<char>>, Option<Seq<char>>)>
    decreases n,
{
    if n <= 0 {
        Seq::empty()
    } else if node_matches(nodes[n - 1], f) {
        passing(nodes, f, n - 1).push(node_view(nodes[n - 1]))
    } else {
        passing(nodes, f, n - 1)
    }
}

/// The nodes a template selects: all of them for the `All` scope or without
/// a filter, otherwise those that pass the filter, in order.
pub open spec fn spec_matched_nodes(t: AutomationTemplate, nodes: Seq<MatchedNode>) -> Seq<(Seq<char>, Seq<char>, Seq<char>, Option<Seq<char>>, Option<Seq<char>>)> {
    if t.node_scope == NodeScope::All || t.node_filter is None {
        nodes_view(nodes)
    } else {
        passing(nodes, t.node_filter->0, nodes.len() as int)
    }
}

fn clone_nodes(nodes: &[MatchedNode]) -> (r: Vec<MatchedNode>)
    ensures
        nodes_view(r@) == nodes_view(nodes@),
{
    let mut out: Vec<MatchedNode> = Vec::new();
    let mut i: usize = 0;
    while i < nodes.len()
        invariant
            0 <= i <= nodes@.len(),
            out@.len() == i,
            forall|j: int| 0 <= j < i ==> node_view(#[trigger] out@[j]) == node_view(nodes@[j]),
        decreases nodes@.len() - i,
    {
        let c = clone_node(&nodes[i]);
        out.push(c);
        i = i + 1;
    }
    assert(nodes_view(out@) =~= nodes_view(nodes@));
    out
}

pub fn matched_nodes(template: &AutomationTemplate, nodes: &[MatchedNode]) -> (r: Vec<MatchedNode>)
    ensures
        nodes_view(r@) == spec_matched_nodes(*template, nodes@),
{
    if matches!(template.node_scope, NodeScope::All) {
        return clone_nodes(nodes);
    }
    let filter = match &template.node_filter {
        None => return clone_nodes(nodes),
        Some(f) => f,
    };
    let mut out: Vec<MatchedNode> = Vec::new();
    let mut i: usize = 0;
    while i < nodes.len()
        invariant
            0 <= i <= nodes@.len(),
            template.node_filter == Some(*filter),
            nodes_view(out@) == passing(nodes@, *filter, i as int),
        decreases nodes@.len() - i,
    {
        if matches_node(&nodes[i], filter) {
            let c = clone_node(&nodes[i]);
            out.push(c);
            assert(nodes_view(out@) =~= passing(nodes@, *filter, i + 1));
        }
        i = i + 1;
    }
    out
}

/// Name of the planned target group: the template's target-group name when
/// it is not blank, otherwise the template name followed by `-targets`.
pub open spec fn spec_generated_target_group_name(t: AutomationTemplate) -> Seq<char> {
    if trim(t.target_group.name@).len() > 0 {
        trim(t.target_group.name@)
    } else {
        t.name@ + "-targets"@
    }
}

pub fn generated_target_group_name(template: &AutomationTemplate) -> (r: String)
    ensures
        r@ == spec_generated_target_group_name(*template),
{
    let t = crate::text::trimmed(template.target_group.name.as_str());
    if t.len() > 0 {
        crate::text::string_of(&t)
    } else {
        let mut out = template.name.clone();
        out.append("-targets");
        out
    }
}

/// Plan the target group of a template over the discovered nodes.
pub fn plan_template(template: &AutomationTemplate, nodes: &[MatchedNode]) -> (r: PlannedTargetGroup)
    ensures
        r.template@ == template.name@,
        r.name@ == spec_generated_target_group_name(*template),
        r.monitor == template.target_group.monitor,
        r.probe_type@ == match template.target_group.probe_type {
            Some(p) => p@,
            None => "none"@,
        },
        nodes_view(r.targets@) == spec_matched_nodes(*template, nodes@),
{
    let targets = matched_nodes(template, nodes);
    let probe_type = match &template.target_group.probe_type {
        Some(p) => p.clone(),
        None => String::from_str("none"),
    };
    PlannedTargetGroup {
        template: template.name.clone(),
        name: generated_target_group_name(template),
        monitor: template.target_group.monitor,
        probe_type,
        targets,
    }
}

pub open spec fn cond_view(c: FilterCondition) -> (FilterField, FilterOp, Seq<char>) {
    (c.field, c.op, c.value@)
}

/// A template by the values it carries.
pub open spec fn template_view(t: AutomationTemplate) -> (Seq<char>, NodeScope, Option<Seq<(FilterField, FilterOp, Seq<char>)>>, (Seq<char>, bool, Option<Seq<char>>)) {
    (
        t.name@,
        t.node_scope,
        match t.node_filter {
            Some(f) => Some(f.conditions@.map_values(|c: FilterCondition| cond_view(c))),
            None => None,
        },
        (t.target_group.name@, t.target_group.monitor, opt_view(t.target_group.probe_type)),
    )
}

fn clone_filter(f: &NodeFilter) -> (r: NodeFilter)
    ensures
        r.conditions@.map_values(|c: FilterCondition| cond_view(c)) == f.conditions@.map_values(|c: FilterCondition| cond_view(c)),
{
    let mut out: Vec<FilterCondition> = Vec::new();
    let mut i: usize = 0;
    while i < f.conditions.len()
        invariant
            0 <= i <= f.conditions@.len(),
            out@.len() == i,
            forall|j: int| 0 <= j < i ==> cond_view(#[trigger] out@[j]) == cond_view(f.conditions@[j]),
        decreases f.conditions@.len() - i,
    {
        let c = &f.conditions[i];
        out.push(FilterCondition { field: c.field, op: c.op, value: c.value.clone() });
        i = i + 1;
    }
    let r = NodeFilter { conditions: out };
    assert(r.conditions@.map_values(|c: FilterCondition| cond_view(c)) =~= f.conditions@.map_values(|c: FilterCondition| cond_view(c)));
    r
}

pub fn clone_template(t: &AutomationTemplate) -> (r: AutomationTemplate)
    ensures
        template_view(r) == template_view(*t),
{
    AutomationTemplate {
        name: t.name.clone(),
        node_scope: t.node_scope,
        node_filter: match &t.node_filter {
            Some(f) => Some(clone_filter(f)),
            None => None,
        },
        target_group: TargetGroupTemplate {
            name: t.target_group.name.clone(),
            monitor: t.target_group.monitor,
            probe_type: clone_opt(&t.target_group.probe_type),
        },
    }
}

/// Index of the first template with the given name.
pub open spec fn first_named(ts: Seq<AutomationTemplate>, name: Seq<char>, k: int) -> bool {
    0 <= k < ts.len() && ts[k].name@ == name && forall|j: int| 0 <= j < k ==> ts[j].name@ != name
}

fn find_template(ts: &Vec<AutomationTemplate>, name: &str) -> (r: Option<usize>)
    ensures
        r matches Some(k) ==> first_named(ts@, name@, k as int),
        r is None ==> forall|j: int| 0 <= j < ts@.len() ==> ts@[j].name@ != name@,
{
    let mut i: usize = 0;
    while i < ts.len()
        invariant
            0 <= i <= ts@.len(),
            forall|j: int| 0 <= j < i ==> ts@[j].name@ != name@,
        decreases ts@.len() - i,
    {
        let a = crate::text::chars_of(ts[i].name.as_str());
        let b = crate::text::chars_of(name);
        if crate::text::chars_eq(&a, &b) {
            return Some(i);
        }
        i = i + 1;
    }
    None
}

/// The templates after storing `t` under `key`: the first template named
/// `key` is replaced, or, when none is, `t` is appended.
pub open spec fn upserted(ts: Seq<AutomationTemplate>, key: Seq<char>, t: AutomationTemplate) -> Seq<AutomationTemplate> {
    if exists|k: int| first_named(ts, key, k) {
        ts.update(choose|k: int| first_named(ts, key, k), t)
    } else {
        ts.push(t)
    }
}

/// The name under which an upsert looks for the template to replace.
pub open spec fn upsert_key(old_name: Option<&str>, t: AutomationTemplate) -> Seq<char> {
    match old_name {
        Some(k) => k@,
        None => t.name@,
    }
}

/// Replace the first template named `old_name` (or, without one, named like
/// `template`) by `template`, or append it; hand the stored template back.
pub fn upsert_template(config: AutomationConfig, old_name: Option<&str>, template: AutomationTemplate) -> (r: (AutomationConfig, AutomationTemplate))
    ensures
        r.0.templates@ == upserted(config.templates@, upsert_key(old_name, template), template),
        template_view(r.1) == template_view(template),
{
    let mut cfg = config;
    let stored = clone_template(&template);
    let key_owned: String = match old_name {
        Some(k) => String::from_str(k),
        None => template.name.clone(),
    };
    let ghost key = key_owned@;
    assert(key == upsert_key(old_name, template));
    let ghost old_ts = cfg.templates@;
    match find_template(&cfg.templates, key_owned.as_str()) {
        Some(k) => {
            proof {
                assert(first_named(old_ts, key, k as int));
                let c = choose|k2: int| first_named(old_ts, key, k2);
                assert(first_named(old_ts, key, c));
                assert(c == k as int);
            }
            cfg.templates.set(k, template);
            assert(cfg.templates@ == upserted(old_ts, key, template));
        },
        None => {
            assert(!exists|k2: int| first_named(old_ts, key, k2));
            cfg.templates.push(template);
            assert(cfg.templates@ == upserted(old_ts, key, template));
        },
    }
    (cfg, stored)
}

/// Remove every template with the given name; report whether any was removed.
pub fn delete_template(config: AutomationConfig, name: &str) -> (r: (AutomationConfig, bool))
    ensures
        r.0.templates@ == config.templates@.filter(|t: AutomationTemplate| t.name@ != name@),
        r.1 == (r.0.templates@.len() != config.templates@.len()),
{
    let before = config.templates.len();
    let mut kept: Vec<AutomationTemplate> = Vec::new();
    let mut rest = config.templates;
    let ghost all = rest@;
    // Move the templates out in order, keeping those with other names.
    let mut reversed: Vec<AutomationTemplate> = Vec::new();
    while rest.len() > 0
        invariant
            reversed@.len() + rest@.len() == all.len(),
            rest@ == all.take(rest@.len() as int),
            forall|j: int| 0 <= j < reversed@.len() ==> #[trigger] reversed@[j] == all[all.len() - 1 - j],
        decreases rest@.len(),
    {
        let t = rest.pop().unwrap();
        reversed.push(t);
        assert(rest@ =~= all.take(rest@.len() as int));
    }
    let ghost mut done: int = 0;
    while reversed.len() > 0
        invariant
            reversed@.len() + done == all.len(),
            0 <= done <= all.len(),
            forall|j: int| 0 <= j < reversed@.len() ==> #[trigger] reversed@[j] == all[all.len() - 1 - j],
            kept@ == all.take(done).filter(|t: AutomationTemplate| t.name@ != name@),
        decreases reversed@.len(),
    {
        let t = reversed.pop().unwrap();
        assert(t == all[done]);
        proof {
            assert(all.take(done + 1).drop_last() =~= all.take(done));
            reveal(Seq::filter);
        }
        let same = crate::text::chars_eq(&crate::text::chars_of(t.name.as_str()), &crate::text::chars_of(name));
        if !same {
            kept.push(t);
        }
        proof {
            done = done + 1;
        }
    }
    assert(all.take(all.len() as int) =~= all);
    let changed = kept.len() != before;
    (AutomationConfig { templates: kept }, changed)
}

/// The first template with the given name.
pub fn template<'a>(config: &'a AutomationConfig, name: &str) -> (r: Option<&'a AutomationTemplate>)
    ensures
        r matches Some(t) ==> exists|k: int| first_named(config.templates@, name@, k) && config.templates@[k] == *t,
        r is None ==> forall|j: int| 0 <= j < config.templates@.len() ==> config.templates@[j].name@ != name@,
{
    match find_template(&config.templates, name) {
        Some(k) => Some(&config.templates[k]),
        None => None,
    }
}

} // verus!
