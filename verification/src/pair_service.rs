//! The gateway side of a pairing call: checking the caller's request and
//! planning what the pairing stores and answers.

use vstd::prelude::*;
use crate::pb;
use crate::text::{trim, trimmed};
use crate::ha::{
    GatewayIdentity, GatewayHaRuntimeConfig, GatewayHaPeerSecrets, HaConfigError, pair_error, slot_error, normalized,
    validation_error, identity_key, paired_with, preferred_spec, spec_token_id, validate_identity_pair,
    ensure_peer_slot_available, normalize_runtime_config, reciprocal_config, new_session_token_secret,
};

verus! {

/// An identity field that must not be blank.
#[derive(Clone, Copy, Debug, PartialEq, Eq, Structural)]
pub enum RequiredField {
    NodeName,
    UnderlayIp,
    OverlayCidr,
    GatewayOverlayIp,
}

/// Why a pairing call is refused.
#[derive(Clone, Debug, PartialEq, Eq)]
pub enum PairRequestError {
    /// This node is not a gateway (permission denied).
    NotGateway,
    /// The call carries no caller identity (invalid argument).
    MissingCaller,
    /// A caller identity field is blank (invalid argument).
    Required(RequiredField),
    /// The caller's VXLAN port does not fit 16 bits (invalid argument).
    VxlanPortRange,
    /// The session token is blank (invalid argument).
    MissingSessionToken,
    /// The two identities cannot pair (invalid argument).
    InvalidPair(HaConfigError),
    /// This gateway is paired with another gateway (failed precondition).
    SlotTaken(HaConfigError),
    /// The caller's HA settings do not make a valid configuration here
    /// (invalid argument).
    Reciprocal(HaConfigError),
}

pub open spec fn blank(s: Seq<char>) -> bool {
    trim(s).len() == 0
}

/// The caller identity of a pairing call: its required fields present and
/// its port in range.
pub open spec fn spec_identity_from_pb(v: pb::GatewayPeerInfo) -> Result<GatewayIdentity, PairRequestError> {
    if blank(v.node_name@) {
        Err(PairRequestError::Required(RequiredField::NodeName))
    } else if blank(v.underlay_ip@) {
        Err(PairRequestError::Required(RequiredField::UnderlayIp))
    } else if blank(v.overlay_cidr@) {
        Err(PairRequestError::Required(RequiredField::OverlayCidr))
    } else if blank(v.gateway_overlay_ip@) {
        Err(PairRequestError::Required(RequiredField::GatewayOverlayIp))
    } else if v.vxlan_port > 65535 {
        Err(PairRequestError::VxlanPortRange)
    } else {
        Ok(GatewayIdentity {
            name: v.node_name,
            underlay_ip: v.underlay_ip,
            public_ip: v.public_ip,
            api_addr: v.api_addr,
            xds_addr: v.xds_addr,
            overlay_cidr: v.overlay_cidr,
            overlay_ip: v.gateway_overlay_ip,
            dscp: v.dscp,
            vni: v.vni,
            vxlan_port: v.vxlan_port as u16,
            mtu: v.mtu,
            version: v.version,
            capabilities: v.capabilities,
        })
    }
}

pub fn identity_from_pb(value: pb::GatewayPeerInfo) -> (r: Result<GatewayIdentity, PairRequestError>)
    ensures
        r == spec_identity_from_pb(value),
{
    if trimmed(value.node_name.as_str()).len() == 0 {
        return Err(PairRequestError::Required(RequiredField::NodeName));
    }
    if trimmed(value.underlay_ip.as_str()).len() == 0 {
        return Err(PairRequestError::Required(RequiredField::UnderlayIp));
    }
    if trimmed(value.overlay_cidr.as_str()).len() == 0 {
        return Err(PairRequestError::Required(RequiredField::OverlayCidr));
    }
    if trimmed(value.gateway_overlay_ip.as_str()).len() == 0 {
        return Err(PairRequestError::Required(RequiredField::GatewayOverlayIp));
    }
    if value.vxlan_port > 65535 {
        return Err(PairRequestError::VxlanPortRange);
    }
    Ok(GatewayIdentity {
        name: value.node_name,
        underlay_ip: value.underlay_ip,
        public_ip: value.public_ip,
        api_addr: value.api_addr,
        xds_addr: value.xds_addr,
        overlay_cidr: value.overlay_cidr,
        overlay_ip: value.gateway_overlay_ip,
        dscp: value.dscp,
        vni: value.vni,
        vxlan_port: value.vxlan_port as u16,
        mtu: value.mtu,
        version: value.version,
        capabilities: value.capabilities,
    })
}

/// A gateway identity as the pairing call carries it.
pub open spec fn spec_identity_to_pb(i: GatewayIdentity) -> pb::GatewayPeerInfo {
    pb::GatewayPeerInfo {
        node_name: i.name,
        underlay_ip: i.underlay_ip,
        public_ip: i.public_ip,
        api_addr: i.api_addr,
        xds_addr: i.xds_addr,
        overlay_cidr: i.overlay_cidr,
        gateway_overlay_ip: i.overlay_ip,
        dscp: i.dscp,
        vni: i.vni,
        vxlan_port: i.vxlan_port as u32,
        mtu: i.mtu,
        version: i.version,
        capabilities: i.capabilities,
    }
}

pub fn identity_to_pb(identity: GatewayIdentity) -> (r: pb::GatewayPeerInfo)
    ensures
        r == spec_identity_to_pb(identity),
{
    pb::GatewayPeerInfo {
        node_name: identity.name,
        underlay_ip: identity.underlay_ip,
        public_ip: identity.public_ip,
        api_addr: identity.api_addr,
        xds_addr: identity.xds_addr,
        overlay_cidr: identity.overlay_cidr,
        gateway_overlay_ip: identity.overlay_ip,
        dscp: identity.dscp,
        vni: identity.vni,
        vxlan_port: identity.vxlan_port as u32,
        mtu: identity.mtu,
        version: identity.version,
        capabilities: identity.capabilities,
    }
}

/// The request checks that come before anything is read: a gateway node,
/// a complete caller identity, a session token that is not blank.
pub open spec fn spec_pair_request(is_gateway: bool, caller: Option<pb::GatewayPeerInfo>, session_token: Seq<char>) -> Result<GatewayIdentity, PairRequestError> {
    if !is_gateway {
        Err(PairRequestError::NotGateway)
    } else {
        match caller {
            None => Err(PairRequestError::MissingCaller),
            Some(c) => match spec_identity_from_pb(c) {
                Err(e) => Err(e),
                Ok(id) => if blank(session_token) {
                    Err(PairRequestError::MissingSessionToken)
                } else {
                    Ok(id)
                },
            },
        }
    }
}

pub fn check_pair_request(is_gateway: bool, caller: Option<pb::GatewayPeerInfo>, session_token: &str) -> (r: Result<GatewayIdentity, PairRequestError>)
    ensures
        r == spec_pair_request(is_gateway, caller, session_token@),
{
    if !is_gateway {
        return Err(PairRequestError::NotGateway);
    }
    let c = match caller {
        None => {
            return Err(PairRequestError::MissingCaller);
        },
        Some(c) => c,
    };
    let id = match identity_from_pb(c) {
        Err(e) => {
            return Err(e);
        },
        Ok(id) => id,
    };
    if trimmed(session_token).len() == 0 {
        return Err(PairRequestError::MissingSessionToken);
    }
    Ok(id)
}

/// What a successful pairing stores and answers: this gateway's HA
/// configuration, the caller's session token, and the response.
pub struct PairPlan {
    pub local_cfg: GatewayHaRuntimeConfig,
    pub secret: GatewayHaPeerSecrets,
    pub response: pb::PairGatewayResponse,
}

/// The self index this gateway takes when the caller's configuration has
/// `caller_index`.
pub open spec fn reciprocal_index(caller_index: u32) -> u32 {
    if caller_index == 0 { 1 } else { 0 }
}

/// Plan a pairing with a checked caller, given this gateway's identity, its
/// stored HA configuration and the caller's HA settings (the default
/// configuration when the call carries none): the identities must pair,
/// this gateway must have no other peer, and the caller's settings, seen
/// from this side, must validate.
pub fn pair_plan(
    local: GatewayIdentity,
    caller: &GatewayIdentity,
    existing: &GatewayHaRuntimeConfig,
    incoming: GatewayHaRuntimeConfig,
    session_token: String,
) -> (r: Result<PairPlan, PairRequestError>)
    ensures
        match pair_error(local, *caller) {
            Some(e) => r == Err::<PairPlan, PairRequestError>(PairRequestError::InvalidPair(e)),
            None => match slot_error(existing.peers@, *caller) {
                Some(e) => r == Err::<PairPlan, PairRequestError>(PairRequestError::SlotTaken(e)),
                None => {
                    let n = normalized(incoming);
                    let idx = reciprocal_index(n.self_index);
                    match validation_error(true, idx, seq![identity_key(*caller)], n.vip, n.bgp) {
                        Some(e) => r == Err::<PairPlan, PairRequestError>(PairRequestError::Reciprocal(e)),
                        None => r matches Ok(plan) && {
                            &&& paired_with(plan.local_cfg, n, *caller, idx, preferred_spec(n.preferred_active))
                            &&& plan.secret.peer_name == caller.name
                            &&& plan.secret.peer_underlay_ip == caller.underlay_ip
                            &&& plan.secret.session_token == session_token
                            &&& plan.secret.session_token_id@ == spec_token_id(session_token@)
                            &&& plan.response.responder == Some(spec_identity_to_pb(local))
                            &&& plan.response.warnings@.len() == 0
                        },
                    }
                },
            },
        },
{
    match validate_identity_pair(&local, caller) {
        Err(e) => {
            return Err(PairRequestError::InvalidPair(e));
        },
        Ok(()) => {},
    }
    match ensure_peer_slot_available(existing, caller) {
        Err(e) => {
            return Err(PairRequestError::SlotTaken(e));
        },
        Ok(()) => {},
    }
    let n = normalize_runtime_config(incoming);
    let local_cfg = match reciprocal_config(&n, &local, caller) {
        Err(e) => {
            return Err(PairRequestError::Reciprocal(e));
        },
        Ok(c) => c,
    };
    let secret = new_session_token_secret(caller, session_token);
    Ok(PairPlan {
        local_cfg,
        secret,
        response: pb::PairGatewayResponse { responder: Some(identity_to_pb(local)), warnings: Vec::new() },
    })
}

} // verus!
