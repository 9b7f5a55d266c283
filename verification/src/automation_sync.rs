//! Saving automation templates under HA: the gateway that holds write
//! authority stores them and replicates to its peer; the other forwards
//! them to it. The plan says what to store, where to send it and what to
//! answer.

use vstd::prelude::*;
use vstd::string::*;
use crate::ha::GatewayHaPeer;
use crate::ha_write::{WriteRole, PeerHttpResponse, same_peer, clone_peer};

verus! {

/// Peer API path that stores a replica of the templates.
pub const REPLICA_PATH: &'static str = "/api/v1/ha/peer/automation-templates/replica";
/// Peer API path that makes the active gateway store the templates.
pub const ACTIVE_PATH: &'static str = "/api/v1/ha/peer/automation-templates/active";

/// The answer to a template save.
#[derive(Clone, Debug, PartialEq, Eq)]
pub struct SyncResult {
    pub status: String,
    pub authority: String,
    pub forwarded_to: Option<String>,
    pub replicated_to: Option<String>,
}

/// What a template save does: whether to store locally, which peer path to
/// send the templates to, and the answer once both succeeded.
#[derive(Clone, Debug, PartialEq, Eq)]
pub struct SyncPlan {
    pub store_locally: bool,
    pub send_to: Option<(GatewayHaPeer, &'static str)>,
    pub result: SyncResult,
}

/// This gateway does not hold write authority.
#[derive(Clone, Copy, Debug, PartialEq, Eq, Structural)]
pub struct NotMaster;

/// The plan of the authoritative gateway: store, replicate to the peer if
/// there is one, answer `saved`.
pub open spec fn master_plan(p: SyncPlan, node_name: Seq<char>, peer: Option<GatewayHaPeer>) -> bool {
    &&& p.store_locally
    &&& p.result.status@ == "saved"@
    &&& p.result.authority@ == node_name
    &&& p.result.forwarded_to is None
    &&& match peer {
        Some(q) => {
            &&& p.send_to matches Some((s, path)) && same_peer(s, q) && path@ == REPLICA_PATH@
            &&& p.result.replicated_to matches Some(n) && n == q.name
        },
        None => p.send_to is None && p.result.replicated_to is None,
    }
}

/// The plan of a gateway without authority: forward to the peer, which
/// answers for it; this gateway receives the replica.
pub open spec fn forward_plan(p: SyncPlan, node_name: Seq<char>, peer: GatewayHaPeer) -> bool {
    &&& !p.store_locally
    &&& p.send_to matches Some((s, path)) && same_peer(s, peer) && path@ == ACTIVE_PATH@
    &&& p.result.status@ == "forwarded"@
    &&& p.result.authority == peer.name
    &&& p.result.forwarded_to == Some(peer.name)
    &&& p.result.replicated_to matches Some(n) && n@ == node_name
}

fn as_master(node_name: &str, peer: &Option<GatewayHaPeer>) -> (r: SyncPlan)
    ensures
        master_plan(r, node_name@, *peer),
{
    let (send_to, replicated_to) = match peer {
        Some(p) => (Some((clone_peer(p), REPLICA_PATH)), Some(p.name.clone())),
        None => (None, None),
    };
    SyncPlan {
        store_locally: true,
        send_to,
        result: SyncResult {
            status: String::from_str("saved"),
            authority: String::from_str(node_name),
            forwarded_to: None,
            replicated_to,
        },
    }
}

/// A template save made through the API of either gateway.
pub fn save_authoritative(role: &WriteRole, node_name: &str) -> (r: SyncPlan)
    ensures
        match *role {
            WriteRole::LocalMaster(peer) => master_plan(r, node_name@, peer),
            WriteRole::Backup(peer) => forward_plan(r, node_name@, peer),
        },
{
    match role {
        WriteRole::LocalMaster(peer) => as_master(node_name, peer),
        WriteRole::Backup(peer) => SyncPlan {
            store_locally: false,
            send_to: Some((clone_peer(peer), ACTIVE_PATH)),
            result: SyncResult {
                status: String::from_str("forwarded"),
                authority: peer.name.clone(),
                forwarded_to: Some(peer.name.clone()),
                replicated_to: Some(String::from_str(node_name)),
            },
        },
    }
}

/// A save forwarded by the peer: only the authoritative gateway takes it.
pub fn save_from_peer_active(role: &WriteRole, node_name: &str) -> (r: Result<SyncPlan, NotMaster>)
    ensures
        match *role {
            WriteRole::LocalMaster(peer) => r matches Ok(p) && master_plan(p, node_name@, peer),
            WriteRole::Backup(_) => r == Err::<SyncPlan, NotMaster>(NotMaster),
        },
{
    match role {
        WriteRole::LocalMaster(peer) => Ok(as_master(node_name, peer)),
        WriteRole::Backup(_) => Err(NotMaster),
    }
}

/// A replica sent by the authoritative peer: store it, send nothing.
pub fn save_from_peer_replica(node_name: &str) -> (r: SyncPlan)
    ensures
        r.store_locally,
        r.send_to is None,
        r.result.status@ == "replica_saved"@,
        r.result.authority@ == node_name@,
        r.result.forwarded_to is None,
        r.result.replicated_to is None,
{
    SyncPlan {
        store_locally: true,
        send_to: None,
        result: SyncResult {
            status: String::from_str("replica_saved"),
            authority: String::from_str(node_name),
            forwarded_to: None,
            replicated_to: None,
        },
    }
}

/// The peer accepted a sync: a 2xx status.
pub fn peer_accepted(status: u16) -> (r: bool)
    ensures
        r == (200 <= status && status < 300),
{
    200 <= status && status < 300
}

/// Why a save that goes through the peer fails.
#[derive(Clone, Debug, PartialEq, Eq)]
pub enum SyncError {
    /// The named peer answered outside 2xx, with this status and body.
    PeerRejected { peer: String, status: u16, body: String },
    /// The request to the peer failed with this error.
    Transport(String),
}

/// What a refused sync says.
pub open spec fn sync_error_message(e: SyncError) -> Seq<char> {
    match e {
        SyncError::PeerRejected { peer, status, body } => "HA peer automation sync "@ + peer@ + " failed with HTTP "@
            + crate::text::decimal(status as nat) + ": "@ + body@,
        SyncError::Transport(e) => e@,
    }
}

impl SyncError {
    pub fn message(&self) -> (r: String)
        ensures
            r@ == sync_error_message(*self),
    {
        match self {
            SyncError::PeerRejected { peer, status, body } => {
                let mut out = crate::text::chars_of("HA peer automation sync ");
                crate::text::extend_chars(&mut out, &crate::text::chars_of(peer.as_str()));
                crate::text::extend_chars(&mut out, &crate::text::chars_of(" failed with HTTP "));
                crate::text::extend_chars(&mut out, &crate::text::decimal_chars(*status as u64));
                crate::text::extend_chars(&mut out, &crate::text::chars_of(": "));
                crate::text::extend_chars(&mut out, &crate::text::chars_of(body.as_str()));
                crate::text::string_of(&out)
            },
            SyncError::Transport(e) => e.clone(),
        }
    }
}

/// The answer to a save once its plan has been carried out, given how the
/// request to the peer went (not read when the plan sends nothing): a plan
/// that sends nothing answers its result; one that sends to the peer
/// answers its result only when the peer accepted (2xx), and fails with
/// the peer's status and body otherwise, or with the request's error.
pub fn finish_sync(plan: SyncPlan, answer: Result<PeerHttpResponse, String>) -> (r: Result<SyncResult, SyncError>)
    ensures
        match plan.send_to {
            None => r == Ok::<SyncResult, SyncError>(plan.result),
            Some((peer, _)) => match answer {
                Err(e) => r == Err::<SyncResult, SyncError>(SyncError::Transport(e)),
                Ok(resp) => if 200 <= resp.status && resp.status < 300 {
                    r == Ok::<SyncResult, SyncError>(plan.result)
                } else {
                    r == Err::<SyncResult, SyncError>(SyncError::PeerRejected { peer: peer.name, status: resp.status, body: resp.body })
                },
            },
        },
{
    match plan.send_to {
        None => Ok(plan.result),
        Some((peer, _)) => match answer {
            Err(e) => Err(SyncError::Transport(e)),
            Ok(resp) => if peer_accepted(resp.status) {
                Ok(plan.result)
            } else {
                Err(SyncError::PeerRejected { peer: peer.name, status: resp.status, body: resp.body })
            },
        },
    }
}

} // verus!
