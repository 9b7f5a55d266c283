//! The backend side of the configuration stream: conflict reports, the
//! memory of the last applied snapshot, and the request that acknowledges
//! a snapshot.

use vstd::prelude::*;
use vstd::string::*;
use crate::pb;

verus! {

/// A host-side conflict found while applying a snapshot.
#[derive(Clone, Debug, PartialEq, Eq)]
pub struct NodeConflict {
    pub severity: String,
    pub kind: String,
    pub subject: String,
    pub detail: String,
}

impl NodeConflict {
    /// A conflict of severity `warning`.
    pub fn warning(kind: String, subject: String, detail: String) -> (r: NodeConflict)
        ensures
            r.severity@ == "warning"@,
            r.kind == kind,
            r.subject == subject,
            r.detail == detail,
    {
        NodeConflict { severity: String::from_str("warning"), kind, subject, detail }
    }
}

/// The last snapshot version applied and the conflicts observed doing so.
#[derive(Clone, Debug, PartialEq, Eq)]
pub struct AppliedSnapshot {
    pub version: String,
    pub conflicts: Vec<NodeConflict>,
}

impl AppliedSnapshot {
    /// The conflicts observed for `version` when it is the one applied; a
    /// different version is a miss, not a clean observation.
    pub fn conflicts_for(&self, version: &str) -> (r: Option<&[NodeConflict]>)
        ensures
            self.version@ == version@ ==> (r matches Some(c) && c@ == self.conflicts@),
            self.version@ != version@ ==> r is None,
    {
        let a = crate::text::chars_of(self.version.as_str());
        let b = crate::text::chars_of(version);
        if crate::text::chars_eq(&a, &b) {
            Some(self.conflicts.as_slice())
        } else {
            None
        }
    }
}

/// What a backend reports of itself on the configuration stream.
#[derive(Clone, Debug, Default, PartialEq, Eq)]
pub struct LocalReport {
    pub node_name: String,
    /// Underlay address of the local backend, empty when unknown.
    pub underlay_ip: String,
    pub public_ip: String,
    pub public_ip_mode: String,
    pub public_ip_source: String,
    pub underlay_ip_mode: String,
    pub underlay_ip_source: String,
}

/// A conflict as the wire carries it.
pub open spec fn wire_of(c: NodeConflict, w: pb::NodeConflict) -> bool {
    w.severity == c.severity && w.kind == c.kind && w.subject == c.subject && w.detail == c.detail
}

/// The request that acknowledges (or rejects) snapshot `version`/`nonce`,
/// carrying the backend's identity and the conflicts it observed.
pub fn discovery_request(local: &LocalReport, version: &str, nonce: &str, ack: bool, conflicts: Vec<NodeConflict>) -> (r: pb::DiscoveryRequest)
    ensures
        r.node_name == local.node_name,
        r.node_role@ == "backend"@,
        r.underlay_ip == local.underlay_ip,
        r.version@ == version@,
        r.response_nonce@ == nonce@,
        r.ack == ack,
        r.error_detail@.len() == 0,
        r.public_ip == local.public_ip,
        r.public_ip_mode == local.public_ip_mode,
        r.public_ip_source == local.public_ip_source,
        r.underlay_ip_mode == local.underlay_ip_mode,
        r.underlay_ip_source == local.underlay_ip_source,
        r.conflicts@.len() == conflicts@.len(),
        forall|i: int| 0 <= i < conflicts@.len() ==> wire_of(conflicts@[i], #[trigger] r.conflicts@[i]),
{
    let mut wire: Vec<pb::NodeConflict> = Vec::new();
    let mut i: usize = 0;
    while i < conflicts.len()
        invariant
            0 <= i <= conflicts@.len(),
            wire@.len() == i,
            forall|j: int| 0 <= j < i ==> wire_of(conflicts@[j], #[trigger] wire@[j]),
        decreases conflicts@.len() - i,
    {
        let c = &conflicts[i];
        wire.push(pb::NodeConflict {
            severity: c.severity.clone(),
            kind: c.kind.clone(),
            subject: c.subject.clone(),
            detail: c.detail.clone(),
        });
        i = i + 1;
    }
    pb::DiscoveryRequest {
        node_name: local.node_name.clone(),
        node_role: String::from_str("backend"),
        underlay_ip: local.underlay_ip.clone(),
        version: String::from_str(version),
        response_nonce: String::from_str(nonce),
        ack,
        error_detail: String::new(),
        public_ip: local.public_ip.clone(),
        public_ip_mode: local.public_ip_mode.clone(),
        public_ip_source: local.public_ip_source.clone(),
        underlay_ip_mode: local.underlay_ip_mode.clone(),
        underlay_ip_source: local.underlay_ip_source.clone(),
        conflicts: wire,
    }
}

/// The request that rejects snapshot `version`/`nonce` with `error`.
pub fn rejection_request(local: &LocalReport, version: &str, nonce: &str, error: String) -> (r: pb::DiscoveryRequest)
    ensures
        r.node_name == local.node_name,
        r.node_role@ == "backend"@,
        r.version@ == version@,
        r.response_nonce@ == nonce@,
        !r.ack,
        r.error_detail == error,
        r.conflicts@.len() == 0,
{
    let mut req = discovery_request(local, version, nonce, false, Vec::new());
    req.error_detail = error;
    req
}

/// A copy of a list of conflicts.
pub fn copy_conflicts(v: &Vec<NodeConflict>) -> (r: Vec<NodeConflict>)
    ensures
        r@ == v@,
{
    let mut out: Vec<NodeConflict> = Vec::new();
    let mut i: usize = 0;
    while i < v.len()
        invariant
            0 <= i <= v@.len(),
            out@ == v@.take(i as int),
        decreases v@.len() - i,
    {
        let c = &v[i];
        let copy = NodeConflict {
            severity: c.severity.clone(),
            kind: c.kind.clone(),
            subject: c.subject.clone(),
            detail: c.detail.clone(),
        };
        out.push(copy);
        assert(v@.take(i + 1) == v@.take(i as int).push(v@[i as int]));
        i = i + 1;
    }
    assert(v@.take(v@.len() as int) == v@);
    out
}

/// What the backend's subscription to a gateway remembers between events.
pub struct SubscribeState {
    pub last_applied: Option<AppliedSnapshot>,
}

/// What the subscription loop observed.
pub enum SubscribeEvent {
    /// Shutdown was requested.
    Shutdown,
    /// Nothing arrived within the poll interval.
    PollTimeout,
    /// The gateway closed the stream.
    StreamClosed,
    /// The stream failed.
    StreamError(String),
    /// A snapshot `version`/`nonce` arrived; merged with the other
    /// gateways' latest snapshots it combines into `combined_version`.
    Snapshot { version: String, nonce: String, combined_version: String },
    /// The combined snapshot was applied, with these conflicts observed.
    Applied { version: String, nonce: String, combined_version: String, conflicts: Vec<NodeConflict> },
    /// Merging, checking or applying the snapshot failed.
    Rejected { version: String, nonce: String, error: String },
}

/// Why the subscription ends with an error.
pub enum SubscribeFailure {
    StreamClosed,
    StreamError(String),
    /// The snapshot was rejected with this error.
    SnapshotRejected(String),
}

/// What the subscription loop does next.
pub enum SubscribeAction {
    /// End the subscription without error.
    Close,
    /// Ask again for the current snapshot: version and nonce empty, ack set,
    /// no conflicts.
    Resubscribe,
    /// Apply the combined snapshot and report the outcome.
    Apply,
    /// Acknowledge `version`/`nonce` with these conflicts.
    Ack { version: String, nonce: String, conflicts: Vec<NodeConflict> },
    /// Reject `version`/`nonce` with `error`, then end with that error.
    Reject { version: String, nonce: String, error: String },
    /// End with an error.
    Fail(SubscribeFailure),
}

/// One step of the subscription: shutdown closes; a silent interval asks
/// again; a snapshot whose combined version is the one last applied is
/// acknowledged with the conflicts observed then, any other is applied;
/// an applied snapshot is remembered and acknowledged; a rejected one is
/// answered with a rejection and ends the subscription.
pub open spec fn subscribe_step(
    before: Option<AppliedSnapshot>,
    ev: SubscribeEvent,
    after: Option<AppliedSnapshot>,
    a: SubscribeAction,
) -> bool {
    match ev {
        SubscribeEvent::Shutdown => after == before && a is Close,
        SubscribeEvent::PollTimeout => after == before && a is Resubscribe,
        SubscribeEvent::StreamClosed => after == before && a == SubscribeAction::Fail(SubscribeFailure::StreamClosed),
        SubscribeEvent::StreamError(e) => after == before && a == SubscribeAction::Fail(SubscribeFailure::StreamError(e)),
        SubscribeEvent::Snapshot { version, nonce, combined_version } => {
            &&& after == before
            &&& match before {
                Some(last) if last.version@ == combined_version@ => (a matches SubscribeAction::Ack { version: v, nonce: n, conflicts: c }
                    && v == version && n == nonce && c@ == last.conflicts@),
                _ => a is Apply,
            }
        },
        SubscribeEvent::Applied { version, nonce, combined_version, conflicts } => {
            &&& after matches Some(last) && last.version == combined_version && last.conflicts@ == conflicts@
            &&& a matches SubscribeAction::Ack { version: v, nonce: n, conflicts: c } && v == version && n == nonce && c@ == conflicts@
        },
        SubscribeEvent::Rejected { version, nonce, error } => {
            after == before && a == SubscribeAction::Reject { version, nonce, error }
        },
    }
}

/// Decide the next step of the subscription from its state and an event.
pub fn on_subscribe_event(st: &mut SubscribeState, ev: SubscribeEvent) -> (r: SubscribeAction)
    ensures
        subscribe_step(old(st).last_applied, ev, final(st).last_applied, r),
{
    match ev {
        SubscribeEvent::Shutdown => SubscribeAction::Close,
        SubscribeEvent::PollTimeout => SubscribeAction::Resubscribe,
        SubscribeEvent::StreamClosed => SubscribeAction::Fail(SubscribeFailure::StreamClosed),
        SubscribeEvent::StreamError(e) => SubscribeAction::Fail(SubscribeFailure::StreamError(e)),
        SubscribeEvent::Snapshot { version, nonce, combined_version } => {
            match &st.last_applied {
                Some(last) => match last.conflicts_for(combined_version.as_str()) {
                    Some(c) => {
                        let mut conflicts: Vec<NodeConflict> = Vec::new();
                        let mut i: usize = 0;
                        while i < c.len()
                            invariant
                                0 <= i <= c@.len(),
                                conflicts@ == c@.take(i as int),
                            decreases c@.len() - i,
                        {
                            let x = &c[i];
                            conflicts.push(NodeConflict {
                                severity: x.severity.clone(),
                                kind: x.kind.clone(),
                                subject: x.subject.clone(),
                                detail: x.detail.clone(),
                            });
                            assert(c@.take(i + 1) == c@.take(i as int).push(c@[i as int]));
                            i = i + 1;
                        }
                        assert(c@.take(c@.len() as int) == c@);
                        SubscribeAction::Ack { version, nonce, conflicts }
                    },
                    None => SubscribeAction::Apply,
                },
                None => SubscribeAction::Apply,
            }
        },
        SubscribeEvent::Applied { version, nonce, combined_version, conflicts } => {
            let kept = copy_conflicts(&conflicts);
            st.last_applied = Some(AppliedSnapshot { version: combined_version, conflicts: kept });
            SubscribeAction::Ack { version, nonce, conflicts }
        },
        SubscribeEvent::Rejected { version, nonce, error } => SubscribeAction::Reject { version, nonce, error },
    }
}

/// Law: once a combined snapshot has been applied, a snapshot that
/// combines to the same version is acknowledged with the conflicts observed
/// when it was applied, and is not applied again.
pub proof fn applied_snapshot_is_not_reapplied(
    before: Option<AppliedSnapshot>,
    applied: SubscribeEvent,
    mid: Option<AppliedSnapshot>,
    a1: SubscribeAction,
    again: SubscribeEvent,
    after: Option<AppliedSnapshot>,
    a2: SubscribeAction,
)
    requires
        applied is Applied,
        subscribe_step(before, applied, mid, a1),
        again matches SubscribeEvent::Snapshot { combined_version: cv, .. } && cv@ == applied->Applied_combined_version@,
        subscribe_step(mid, again, after, a2),
    ensures
        a2 matches SubscribeAction::Ack { conflicts: c, .. } && c@ == applied->Applied_conflicts@,
        after == mid,
{
}

} // verus!
