//! The role sections of a node's configuration file: a gateway or backend
//! may give its control-plane, network and API settings in a section of its
//! role, and those sections are folded into the top-level settings.

use vstd::prelude::*;
use vstd::string::*;
use crate::route_msg::IpAddress;
use crate::overlay::GatewayNode;
use crate::ha::{last_index_of, rfind_char};
use crate::registry::{spec_parse_ip, parse_ip_address};
use crate::text::{trim, lower, trimmed, lower_chars, chars_of, chars_eq, slice_chars, parse_u32_spec, parse_u32_dec,
    decimal, decimal_chars, extend_chars, string_of};

verus! {

#[derive(Clone, Copy, Debug, PartialEq, Eq, Structural)]
pub enum NodeRole {
    Gateway,
    Backend,
}

#[derive(Clone, Copy, Debug, PartialEq, Eq, Structural)]
pub enum ControlPlaneMode {
    File,
    Xds,
}

/// Where a backend learns which gateway is active.
#[derive(Clone, Copy, Debug, PartialEq, Eq, Structural)]
pub enum ActiveSource {
    File,
    Xds,
}

#[derive(Clone, Debug, PartialEq, Eq)]
pub struct ControlPlaneConfig {
    pub enabled: bool,
    pub mode: ControlPlaneMode,
    pub listen: String,
    pub gateway_port: Option<u16>,
    pub token: Option<String>,
    pub trusted_source_cidrs: Vec<String>,
}

#[derive(Clone, Copy, Debug, PartialEq, Eq, Structural)]
pub struct HaSettings {
    pub active_source: ActiveSource,
    pub watch_interval_secs: u64,
}

#[derive(Clone, Debug, PartialEq, Eq)]
pub struct NetworkConfig {
    pub gateway_public_ip: IpAddress,
    pub gateway_ip: IpAddress,
    pub standby_gateway_ip: Option<IpAddress>,
    pub backend_public_ip: Option<IpAddress>,
    pub backend_ip: Option<IpAddress>,
    pub overlay_cidr: String,
    pub underlay_dev: String,
    pub vxlan_dev: String,
    pub vni: u32,
    pub vxlan_port: u16,
    pub vxlan_mtu: u32,
    pub vxlan_mtu_auto: bool,
    pub dscp: u32,
}

#[derive(Clone, Debug, PartialEq, Eq)]
pub struct ApiConfig {
    pub listen: String,
    pub auth_token: Option<String>,
}

/// The xDS server settings of a gateway.
#[derive(Clone, Debug, PartialEq, Eq)]
pub struct GatewayXds {
    pub listen: String,
    pub token: Option<String>,
    pub trusted_source_cidrs: Vec<String>,
}

#[derive(Clone, Copy, Debug, PartialEq, Eq, Structural)]
pub struct ReconcileSection {
    pub interval_secs: u64,
}

#[derive(Clone, Debug, PartialEq, Eq)]
pub struct GatewaySection {
    pub xds: Option<GatewayXds>,
    pub reconcile: Option<ReconcileSection>,
    pub control_plane: Option<ControlPlaneConfig>,
    pub network: Option<NetworkConfig>,
    pub api: Option<ApiConfig>,
}

/// The xDS subscription settings of a backend: the gateways it subscribes
/// to, as `host:port`.
#[derive(Clone, Debug, PartialEq, Eq)]
pub struct BackendXds {
    pub gateways: Vec<String>,
    pub gateway: String,
    pub token: Option<String>,
    pub reconnect_interval_secs: u64,
}

#[derive(Clone, Debug, PartialEq, Eq)]
pub struct ReturnPathSection {
    pub vxlan_dev: String,
    pub ct_mark: String,
    pub fwmark: String,
    pub route_table: String,
    pub route_table_id: u32,
    pub rule_priority: u32,
    pub nft_table: String,
    pub mss: u32,
}

#[derive(Clone, Copy, Debug, PartialEq, Eq, Structural)]
pub struct BackendControl {
    pub source: ActiveSource,
    pub reconnect_interval_secs: u64,
}

#[derive(Clone, Debug, PartialEq, Eq)]
pub struct BackendSection {
    pub xds: Option<BackendXds>,
    pub return_path: Option<ReturnPathSection>,
    pub control: Option<BackendControl>,
    pub control_plane: Option<ControlPlaneConfig>,
    pub network: Option<NetworkConfig>,
    pub api: Option<ApiConfig>,
    pub ct_mark: String,
    pub fwmark: String,
    pub route_table: String,
    pub route_table_id: u32,
    pub rule_priority: u32,
    pub nft_table: String,
    pub mss: u32,
}

/// The parts of a node's configuration file that the role sections fold
/// into.
#[derive(Clone, Debug, PartialEq, Eq)]
pub struct FileConfig {
    pub node_role: NodeRole,
    pub control_plane: ControlPlaneConfig,
    pub ha: HaSettings,
    pub network: NetworkConfig,
    pub api: ApiConfig,
    pub gateway: GatewaySection,
    pub backend: BackendSection,
    pub gateway_nodes: Vec<GatewayNode>,
}

pub open spec fn opt_text(o: Option<String>) -> Option<Seq<char>> {
    match o {
        Some(s) => Some(s@),
        None => None,
    }
}

pub open spec fn texts(v: Seq<String>) -> Seq<Seq<char>> {
    v.map_values(|s: String| s@)
}

/// Control-plane settings by value.
#[verifier::ext_equal]
pub struct ControlPlaneView {
    pub enabled: bool,
    pub mode: ControlPlaneMode,
    pub listen: Seq<char>,
    pub gateway_port: Option<u16>,
    pub token: Option<Seq<char>>,
    pub trusted_source_cidrs: Seq<Seq<char>>,
}

pub open spec fn cp_view(c: ControlPlaneConfig) -> ControlPlaneView {
    ControlPlaneView {
        enabled: c.enabled,
        mode: c.mode,
        listen: c.listen@,
        gateway_port: c.gateway_port,
        token: opt_text(c.token),
        trusted_source_cidrs: texts(c.trusted_source_cidrs@),
    }
}

/// Network settings by value.
#[verifier::ext_equal]
pub struct NetworkView {
    pub gateway_public_ip: IpAddress,
    pub gateway_ip: IpAddress,
    pub standby_gateway_ip: Option<IpAddress>,
    pub backend_public_ip: Option<IpAddress>,
    pub backend_ip: Option<IpAddress>,
    pub overlay_cidr: Seq<char>,
    pub underlay_dev: Seq<char>,
    pub vxlan_dev: Seq<char>,
    pub vni: u32,
    pub vxlan_port: u16,
    pub vxlan_mtu: u32,
    pub vxlan_mtu_auto: bool,
    pub dscp: u32,
}

pub open spec fn net_view(n: NetworkConfig) -> NetworkView {
    NetworkView {
        gateway_public_ip: n.gateway_public_ip,
        gateway_ip: n.gateway_ip,
        standby_gateway_ip: n.standby_gateway_ip,
        backend_public_ip: n.backend_public_ip,
        backend_ip: n.backend_ip,
        overlay_cidr: n.overlay_cidr@,
        underlay_dev: n.underlay_dev@,
        vxlan_dev: n.vxlan_dev@,
        vni: n.vni,
        vxlan_port: n.vxlan_port,
        vxlan_mtu: n.vxlan_mtu,
        vxlan_mtu_auto: n.vxlan_mtu_auto,
        dscp: n.dscp,
    }
}

/// The return-path settings of a backend by value: conntrack mark,
/// routing mark, table name and id, rule priority, nft table, MSS.
pub open spec fn return_view(b: BackendSection) -> (Seq<char>, Seq<char>, Seq<char>, u32, u32, Seq<char>, u32) {
    (b.ct_mark@, b.fwmark@, b.route_table@, b.route_table_id, b.rule_priority, b.nft_table@, b.mss)
}

pub open spec fn section_return_view(r: ReturnPathSection) -> (Seq<char>, Seq<char>, Seq<char>, u32, u32, Seq<char>, u32) {
    (r.ct_mark@, r.fwmark@, r.route_table@, r.route_table_id, r.rule_priority, r.nft_table@, r.mss)
}

pub open spec fn gw_view(g: GatewayNode) -> (Seq<char>, IpAddress, IpAddress, Seq<char>) {
    (g.name@, g.public_ip, g.underlay_ip, g.overlay_ip@)
}

pub open spec fn gw_views(s: Seq<GatewayNode>) -> Seq<(Seq<char>, IpAddress, IpAddress, Seq<char>)> {
    s.map_values(|g: GatewayNode| gw_view(g))
}

/// What folding the role sections decides: control plane, HA source and
/// interval, network, API listen address and token, the backend's
/// return-path settings, and the gateway inventory.
#[verifier::ext_equal]
pub struct FoldedView {
    pub control_plane: ControlPlaneView,
    pub ha: HaSettings,
    pub network: NetworkView,
    pub api: (Seq<char>, Option<Seq<char>>),
    pub backend_return: (Seq<char>, Seq<char>, Seq<char>, u32, u32, Seq<char>, u32),
    pub gateway_nodes: Seq<(Seq<char>, IpAddress, IpAddress, Seq<char>)>,
}

pub open spec fn api_view(a: ApiConfig) -> (Seq<char>, Option<Seq<char>>) {
    (a.listen@, opt_text(a.auth_token))
}

pub open spec fn folded_view(f: FileConfig) -> FoldedView {
    FoldedView {
        control_plane: cp_view(f.control_plane),
        ha: f.ha,
        network: net_view(f.network),
        api: api_view(f.api),
        backend_return: return_view(f.backend),
        gateway_nodes: gw_views(f.gateway_nodes@),
    }
}

/// An underlay device left to discovery: blank or `auto` in any case.
pub open spec fn dev_is_auto(v: Seq<char>) -> bool {
    trim(v).len() == 0 || lower(trim(v)) == "auto"@
}

/// A role section's network replaces the network, keeping a discovered
/// underlay device where the section leaves it to discovery.
pub open spec fn with_network(cur: NetworkView, section: NetworkConfig) -> NetworkView {
    let n = net_view(section);
    if dev_is_auto(n.underlay_dev) && !dev_is_auto(cur.underlay_dev) {
        NetworkView { underlay_dev: cur.underlay_dev, ..n }
    } else {
        n
    }
}

/// `host:port` split at the last colon, with the port a 16-bit number.
pub open spec fn split_host_port(v: Seq<char>) -> Option<(Seq<char>, u16)> {
    if !exists|k: int| last_index_of(v, ':', k) {
        None
    } else {
        let k = choose|k: int| last_index_of(v, ':', k);
        match parse_u32_spec(v.skip(k + 1)) {
            Some(p) if p <= 65535 => Some((v.take(k), p as u16)),
            _ => None,
        }
    }
}

/// The gateway named `gateway-<n>` for the `n`th subscribed gateway.
pub open spec fn numbered_gateway(n: nat, underlay: IpAddress) -> (Seq<char>, IpAddress, IpAddress, Seq<char>) {
    ("gateway-"@ + decimal(n), IpAddress::V4(0), underlay, "10.255.255.1/24"@)
}

/// The gateways a backend subscribes to, as inventory entries, and the
/// control-plane port: the first port given, unless one was set. An entry
/// that is not `host:port` is skipped; one whose host is not an address
/// is skipped after its port counts.
pub open spec fn subscribed_gateways(gs: Seq<Seq<char>>, port: Option<u16>) -> (Seq<(Seq<char>, IpAddress, IpAddress, Seq<char>)>, Option<u16>)
    decreases gs.len(),
{
    if gs.len() == 0 {
        (seq![], port)
    } else {
        let prev = subscribed_gateways(gs.drop_last(), port);
        match split_host_port(gs.last()) {
            None => prev,
            Some((host, p)) => {
                let port2 = if prev.1 is None { Some(p) } else { prev.1 };
                match spec_parse_ip(host) {
                    None => (prev.0, port2),
                    Some(ip) => (prev.0.push(numbered_gateway(gs.len() as nat, ip)), port2),
                }
            },
        }
    }
}

/// The gateways of a backend's xDS section: the list, else the single
/// gateway when it is not blank.
pub open spec fn xds_gateways(x: BackendXds) -> Seq<Seq<char>> {
    if x.gateways@.len() > 0 {
        texts(x.gateways@)
    } else if trim(x.gateway@).len() > 0 {
        seq![x.gateway@]
    } else {
        seq![]
    }
}

/// A gateway's xDS section turns the xDS control plane on with its listen
/// address, token and trusted sources, and the gateway port off.
pub open spec fn gw_xds_step(v: FoldedView, x: Option<GatewayXds>) -> FoldedView {
    match x {
        Some(x) => FoldedView {
            control_plane: ControlPlaneView {
                enabled: true,
                mode: ControlPlaneMode::Xds,
                listen: x.listen@,
                gateway_port: None,
                token: opt_text(x.token),
                trusted_source_cidrs: texts(x.trusted_source_cidrs@),
            },
            ..v
        },
        None => v,
    }
}

/// A reconcile section sets the watch interval.
pub open spec fn reconcile_step(v: FoldedView, r: Option<ReconcileSection>) -> FoldedView {
    match r {
        Some(r) => FoldedView { ha: HaSettings { watch_interval_secs: r.interval_secs, ..v.ha }, ..v },
        None => v,
    }
}

/// A control-plane section replaces the control plane.
pub open spec fn cp_step(v: FoldedView, c: Option<ControlPlaneConfig>) -> FoldedView {
    match c {
        Some(c) => FoldedView { control_plane: cp_view(c), ..v },
        None => v,
    }
}

/// A network section replaces the network, keeping a discovered underlay
/// device.
pub open spec fn network_step(v: FoldedView, n: Option<NetworkConfig>) -> FoldedView {
    match n {
        Some(n) => FoldedView { network: with_network(v.network, n), ..v },
        None => v,
    }
}

/// An API section replaces the API settings.
pub open spec fn api_step(v: FoldedView, a: Option<ApiConfig>) -> FoldedView {
    match a {
        Some(a) => FoldedView { api: api_view(a), ..v },
        None => v,
    }
}

/// A backend's xDS section makes xDS the active source with its reconnect
/// interval, turns the xDS control plane on with its token, and, when the
/// inventory has no gateways, fills it from the gateways it names.
pub open spec fn backend_xds_step(v: FoldedView, x: Option<BackendXds>) -> FoldedView {
    match x {
        Some(x) => {
            let cp = ControlPlaneView { enabled: true, mode: ControlPlaneMode::Xds, token: opt_text(x.token), ..v.control_plane };
            let base = FoldedView {
                control_plane: cp,
                ha: HaSettings { active_source: ActiveSource::Xds, watch_interval_secs: x.reconnect_interval_secs },
                ..v
            };
            let gws = xds_gateways(x);
            if gws.len() > 0 && v.gateway_nodes.len() == 0 {
                let sub = subscribed_gateways(gws, cp.gateway_port);
                FoldedView { control_plane: ControlPlaneView { gateway_port: sub.1, ..cp }, gateway_nodes: sub.0, ..base }
            } else {
                base
            }
        },
        None => v,
    }
}

/// A return-path section sets the VXLAN device and the backend's
/// return-path settings.
pub open spec fn return_step(v: FoldedView, r: Option<ReturnPathSection>) -> FoldedView {
    match r {
        Some(r) => FoldedView {
            network: NetworkView { vxlan_dev: r.vxlan_dev@, ..v.network },
            backend_return: section_return_view(r),
            ..v
        },
        None => v,
    }
}

/// A control section sets the active source and the watch interval.
pub open spec fn control_step(v: FoldedView, c: Option<BackendControl>) -> FoldedView {
    match c {
        Some(c) => FoldedView { ha: HaSettings { active_source: c.source, watch_interval_secs: c.reconnect_interval_secs }, ..v },
        None => v,
    }
}

pub open spec fn gateway_fold(f: FileConfig) -> FoldedView {
    let g = f.gateway;
    api_step(network_step(cp_step(reconcile_step(gw_xds_step(folded_view(f), g.xds), g.reconcile), g.control_plane), g.network), g.api)
}

pub open spec fn backend_fold(f: FileConfig) -> FoldedView {
    let b = f.backend;
    api_step(
        network_step(cp_step(control_step(return_step(backend_xds_step(folded_view(f), b.xds), b.return_path), b.control), b.control_plane), b.network),
        b.api,
    )
}

/// The role and the sections themselves are left as they are.
pub open spec fn same_sections(a: FileConfig, b: FileConfig) -> bool {
    &&& a.node_role == b.node_role
    &&& a.gateway == b.gateway
    &&& a.backend.xds == b.backend.xds
    &&& a.backend.return_path == b.backend.return_path
    &&& a.backend.control == b.backend.control
    &&& a.backend.control_plane == b.backend.control_plane
    &&& a.backend.network == b.backend.network
    &&& a.backend.api == b.backend.api
}

/// The settings after folding in the sections of the node's role.
pub open spec fn spec_apply_role_sections(f: FileConfig) -> FoldedView {
    match f.node_role {
        NodeRole::Gateway => gateway_fold(f),
        NodeRole::Backend => backend_fold(f),
    }
}

fn copy_text(s: &String) -> (r: String)
    ensures
        r@ == s@,
{
    string_of(&chars_of(s.as_str()))
}

fn copy_opt_text(o: &Option<String>) -> (r: Option<String>)
    ensures
        opt_text(r) == opt_text(*o),
{
    match o {
        Some(s) => Some(copy_text(s)),
        None => None,
    }
}

fn copy_texts(v: &Vec<String>) -> (r: Vec<String>)
    ensures
        texts(r@) == texts(v@),
{
    let mut out: Vec<String> = Vec::new();
    let mut i: usize = 0;
    while i < v.len()
        invariant
            0 <= i <= v@.len(),
            out@.len() == i,
            forall|j: int| 0 <= j < i ==> (#[trigger] out@[j])@ == v@[j]@,
        decreases v@.len() - i,
    {
        out.push(copy_text(&v[i]));
        i = i + 1;
    }
    assert(texts(out@) =~= texts(v@));
    out
}

fn copy_control_plane(c: &ControlPlaneConfig) -> (r: ControlPlaneConfig)
    ensures
        cp_view(r) == cp_view(*c),
{
    ControlPlaneConfig {
        enabled: c.enabled,
        mode: c.mode,
        listen: copy_text(&c.listen),
        gateway_port: c.gateway_port,
        token: copy_opt_text(&c.token),
        trusted_source_cidrs: copy_texts(&c.trusted_source_cidrs),
    }
}

fn copy_network(n: &NetworkConfig) -> (r: NetworkConfig)
    ensures
        net_view(r) == net_view(*n),
{
    NetworkConfig {
        gateway_public_ip: n.gateway_public_ip,
        gateway_ip: n.gateway_ip,
        standby_gateway_ip: n.standby_gateway_ip,
        backend_public_ip: n.backend_public_ip,
        backend_ip: n.backend_ip,
        overlay_cidr: copy_text(&n.overlay_cidr),
        underlay_dev: copy_text(&n.underlay_dev),
        vxlan_dev: copy_text(&n.vxlan_dev),
        vni: n.vni,
        vxlan_port: n.vxlan_port,
        vxlan_mtu: n.vxlan_mtu,
        vxlan_mtu_auto: n.vxlan_mtu_auto,
        dscp: n.dscp,
    }
}

fn copy_api(a: &ApiConfig) -> (r: ApiConfig)
    ensures
        api_view(r) == api_view(*a),
{
    ApiConfig { listen: copy_text(&a.listen), auth_token: copy_opt_text(&a.auth_token) }
}

/// An underlay device left to discovery.
pub fn underlay_dev_is_auto(v: &str) -> (r: bool)
    ensures
        r == dev_is_auto(v@),
{
    let t = trimmed(v);
    t.len() == 0 || chars_eq(&lower_chars(&t), &chars_of("auto"))
}

/// Replace the network by a role section's, keeping a discovered underlay
/// device where the section leaves it to discovery.
fn replace_network(net: &mut NetworkConfig, section: &NetworkConfig)
    ensures
        net_view(*final(net)) == with_network(net_view(*old(net)), *section),
{
    let resolved = copy_text(&net.underlay_dev);
    let mut n = copy_network(section);
    if underlay_dev_is_auto(n.underlay_dev.as_str()) && !underlay_dev_is_auto(resolved.as_str()) {
        n.underlay_dev = resolved;
    }
    *net = n;
}

/// `host:port` split at the last colon.
pub fn split_host_port_text(v: &str) -> (r: Option<(String, u16)>)
    ensures
        match split_host_port(v@) {
            Some((h, p)) => r matches Some((h2, p2)) && h2@ == h && p2 == p,
            None => r is None,
        },
{
    let cs = chars_of(v);
    match rfind_char(&cs, ':') {
        None => None,
        Some(k) => {
            assert(last_index_of(cs@, ':', k as int));
            assert(k < cs.len());
            let port_text = slice_chars(&cs, k + 1, cs.len());
            assert(port_text@ =~= v@.skip(k + 1));
            let ghost kk = choose|k2: int| last_index_of(v@, ':', k2);
            assert(kk == k as int) by {
                if kk < k {
                    assert(v@[k as int] == ':');
                } else if kk > k {
                    assert(v@[kk] == ':');
                }
            }
            match parse_u32_dec(&port_text) {
                Some(p) => {
                    if p <= 65535 {
                        let host = slice_chars(&cs, 0, k);
                        assert(host@ =~= v@.take(k as int));
                        Some((string_of(&host), p as u16))
                    } else {
                        None
                    }
                },
                None => None,
            }
        },
    }
}

/// The gateways a backend subscribes to, as inventory entries, and the
/// control-plane port.
fn subscribed_gateway_nodes(gs: &Vec<String>, port: Option<u16>) -> (r: (Vec<GatewayNode>, Option<u16>))
    ensures
        (gw_views(r.0@), r.1) == subscribed_gateways(texts(gs@), port),
{
    let mut nodes: Vec<GatewayNode> = Vec::new();
    let mut p = port;
    let mut i: usize = 0;
    while i < gs.len()
        invariant
            0 <= i <= gs@.len(),
            (gw_views(nodes@), p) == subscribed_gateways(texts(gs@).take(i as int), port),
        decreases gs@.len() - i,
    {
        let ghost before = texts(gs@).take(i as int);
        let ghost after = texts(gs@).take(i + 1);
        assert(after.drop_last() =~= before);
        assert(after.last() == gs@[i as int]@);
        match split_host_port_text(gs[i].as_str()) {
            None => {},
            Some((host, pt)) => {
                if p.is_none() {
                    p = Some(pt);
                }
                match parse_ip_address(host.as_str()) {
                    None => {},
                    Some(ip) => {
                        let mut name = chars_of("gateway-");
                        extend_chars(&mut name, &decimal_chars((i + 1) as u64));
                        let ghost old_nodes = nodes@;
                        nodes.push(GatewayNode {
                            name: string_of(&name),
                            public_ip: IpAddress::V4(0),
                            underlay_ip: ip,
                            overlay_ip: String::from_str("10.255.255.1/24"),
                        });
                        assert(gw_views(nodes@) =~= gw_views(old_nodes).push(numbered_gateway((i + 1) as nat, ip)));
                    },
                }
            },
        }
        i = i + 1;
    }
    assert(texts(gs@).take(gs@.len() as int) =~= texts(gs@));
    (nodes, p)
}

/// The gateways of a backend's xDS section.
fn xds_gateway_list(x: &BackendXds) -> (r: Vec<String>)
    ensures
        texts(r@) == xds_gateways(*x),
{
    if x.gateways.len() > 0 {
        copy_texts(&x.gateways)
    } else if trimmed(x.gateway.as_str()).len() > 0 {
        let mut v: Vec<String> = Vec::new();
        v.push(copy_text(&x.gateway));
        assert(texts(v@) =~= seq![x.gateway@]);
        v
    } else {
        let v: Vec<String> = Vec::new();
        assert(texts(v@) =~= Seq::<Seq<char>>::empty());
        v
    }
}

fn fold_gateway_xds(file: &mut FileConfig)
    ensures
        folded_view(*final(file)) == gw_xds_step(folded_view(*old(file)), old(file).gateway.xds),
        same_sections(*old(file), *final(file)),
{
    let copied = match &file.gateway.xds {
        Some(x) => Some((copy_text(&x.listen), copy_opt_text(&x.token), copy_texts(&x.trusted_source_cidrs))),
        None => None,
    };
    if let Some((listen, token, cidrs)) = copied {
        file.control_plane.enabled = true;
        file.control_plane.mode = ControlPlaneMode::Xds;
        file.control_plane.listen = listen;
        file.control_plane.gateway_port = None;
        file.control_plane.token = token;
        file.control_plane.trusted_source_cidrs = cidrs;
    }
    assert(folded_view(*file) =~~= gw_xds_step(folded_view(*old(file)), old(file).gateway.xds));
}

fn fold_reconcile(file: &mut FileConfig)
    ensures
        folded_view(*final(file)) == reconcile_step(folded_view(*old(file)), old(file).gateway.reconcile),
        same_sections(*old(file), *final(file)),
{
    if let Some(r) = file.gateway.reconcile {
        file.ha.watch_interval_secs = r.interval_secs;
    }
    assert(folded_view(*file) =~~= reconcile_step(folded_view(*old(file)), old(file).gateway.reconcile));
}

pub open spec fn role_cp(f: FileConfig, gateway: bool) -> Option<ControlPlaneConfig> {
    if gateway { f.gateway.control_plane } else { f.backend.control_plane }
}

pub open spec fn role_network(f: FileConfig, gateway: bool) -> Option<NetworkConfig> {
    if gateway { f.gateway.network } else { f.backend.network }
}

pub open spec fn role_api(f: FileConfig, gateway: bool) -> Option<ApiConfig> {
    if gateway { f.gateway.api } else { f.backend.api }
}

fn fold_control_plane(file: &mut FileConfig, gateway: bool)
    ensures
        folded_view(*final(file)) == cp_step(folded_view(*old(file)), role_cp(*old(file), gateway)),
        same_sections(*old(file), *final(file)),
{
    let section = if gateway { &file.gateway.control_plane } else { &file.backend.control_plane };
    let copied = match section {
        Some(c) => Some(copy_control_plane(c)),
        None => None,
    };
    if let Some(c) = copied {
        file.control_plane = c;
    }
    assert(folded_view(*file) =~~= cp_step(folded_view(*old(file)), role_cp(*old(file), gateway)));
}

fn fold_network(file: &mut FileConfig, gateway: bool)
    ensures
        folded_view(*final(file)) == network_step(folded_view(*old(file)), role_network(*old(file), gateway)),
        same_sections(*old(file), *final(file)),
{
    let section = if gateway { &file.gateway.network } else { &file.backend.network };
    let copied = match section {
        Some(n) => Some(copy_network(n)),
        None => None,
    };
    if let Some(n) = copied {
        replace_network(&mut file.network, &n);
    }
    assert(folded_view(*file) =~~= network_step(folded_view(*old(file)), role_network(*old(file), gateway)));
}

fn fold_api(file: &mut FileConfig, gateway: bool)
    ensures
        folded_view(*final(file)) == api_step(folded_view(*old(file)), role_api(*old(file), gateway)),
        same_sections(*old(file), *final(file)),
{
    let section = if gateway { &file.gateway.api } else { &file.backend.api };
    let copied = match section {
        Some(a) => Some(copy_api(a)),
        None => None,
    };
    if let Some(a) = copied {
        file.api = a;
    }
    assert(folded_view(*file) =~~= api_step(folded_view(*old(file)), role_api(*old(file), gateway)));
}

fn fold_backend_xds(file: &mut FileConfig)
    ensures
        folded_view(*final(file)) == backend_xds_step(folded_view(*old(file)), old(file).backend.xds),
        same_sections(*old(file), *final(file)),
{
    let copied = match &file.backend.xds {
        Some(x) => Some((copy_opt_text(&x.token), x.reconnect_interval_secs, xds_gateway_list(x))),
        None => None,
    };
    if let Some((token, secs, gws)) = copied {
        file.ha.active_source = ActiveSource::Xds;
        file.ha.watch_interval_secs = secs;
        file.control_plane.enabled = true;
        file.control_plane.mode = ControlPlaneMode::Xds;
        file.control_plane.token = token;
        if gws.len() > 0 && file.gateway_nodes.len() == 0 {
            let (nodes, port) = subscribed_gateway_nodes(&gws, file.control_plane.gateway_port);
            file.control_plane.gateway_port = port;
            file.gateway_nodes = nodes;
        }
    }
    assert(folded_view(*file) =~~= backend_xds_step(folded_view(*old(file)), old(file).backend.xds));
}

fn fold_return_path(file: &mut FileConfig)
    ensures
        folded_view(*final(file)) == return_step(folded_view(*old(file)), old(file).backend.return_path),
        same_sections(*old(file), *final(file)),
{
    let copied = match &file.backend.return_path {
        Some(r) => Some((
            copy_text(&r.vxlan_dev),
            copy_text(&r.ct_mark),
            copy_text(&r.fwmark),
            copy_text(&r.route_table),
            r.route_table_id,
            r.rule_priority,
            copy_text(&r.nft_table),
            r.mss,
        )),
        None => None,
    };
    if let Some((vx, ct, fw, rt, rt_id, prio, nft, mss)) = copied {
        file.network.vxlan_dev = vx;
        file.backend.ct_mark = ct;
        file.backend.fwmark = fw;
        file.backend.route_table = rt;
        file.backend.route_table_id = rt_id;
        file.backend.rule_priority = prio;
        file.backend.nft_table = nft;
        file.backend.mss = mss;
    }
    assert(folded_view(*file) =~~= return_step(folded_view(*old(file)), old(file).backend.return_path));
}

fn fold_control(file: &mut FileConfig)
    ensures
        folded_view(*final(file)) == control_step(folded_view(*old(file)), old(file).backend.control),
        same_sections(*old(file), *final(file)),
{
    if let Some(c) = file.backend.control {
        file.ha.active_source = c.source;
        file.ha.watch_interval_secs = c.reconnect_interval_secs;
    }
    assert(folded_view(*file) =~~= control_step(folded_view(*old(file)), old(file).backend.control));
}

/// Fold the sections of the node's role into the top-level settings, in
/// order: for a gateway its xDS, reconcile, control-plane, network and API
/// sections; for a backend its xDS, return-path, control, control-plane,
/// network and API sections. The sections themselves stay.
pub fn apply_role_sections(file: &mut FileConfig)
    ensures
        folded_view(*final(file)) == spec_apply_role_sections(*old(file)),
        same_sections(*old(file), *final(file)),
{
    match file.node_role {
        NodeRole::Gateway => {
            fold_gateway_xds(file);
            fold_reconcile(file);
            fold_control_plane(file, true);
            fold_network(file, true);
            fold_api(file, true);
        },
        NodeRole::Backend => {
            fold_backend_xds(file);
            fold_return_path(file);
            fold_control(file);
            fold_control_plane(file, false);
            fold_network(file, false);
            fold_api(file, false);
        },
    }
}

} // verus!
