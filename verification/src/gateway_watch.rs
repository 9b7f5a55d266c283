//! The gateway side of a backend's configuration stream: who may
//! subscribe, which snapshots are sent, and how a backend's replies read.

use vstd::prelude::*;
use vstd::string::*;
use crate::pb;
use crate::route_msg::IpAddress;
use crate::text::{trim, chars_of, chars_eq, trimmed, extend_chars, string_of};

verus! {

/// Why a subscription is refused.
#[derive(Clone, Copy, Debug, PartialEq, Eq, Structural)]
pub enum AdmissionError {
    /// The stream ended before its first request (invalid argument).
    MissingRequest,
    /// The first request is not from a backend (permission denied).
    NotBackend,
    /// The backend's name is blank or its underlay address is missing,
    /// unparsable or unspecified (permission denied).
    IncompleteRegistration,
}

pub open spec fn admission_message(e: AdmissionError) -> Seq<char> {
    match e {
        AdmissionError::MissingRequest => "missing discovery request"@,
        AdmissionError::NotBackend => "only backend nodes may subscribe"@,
        AdmissionError::IncompleteRegistration => "backend registration is incomplete or invalid"@,
    }
}

impl AdmissionError {
    pub fn message(&self) -> (r: &'static str)
        ensures
            r@ == admission_message(*self),
    {
        match self {
            AdmissionError::MissingRequest => "missing discovery request",
            AdmissionError::NotBackend => "only backend nodes may subscribe",
            AdmissionError::IncompleteRegistration => "backend registration is incomplete or invalid",
        }
    }

    /// The refusal is a permission denial rather than a bad argument.
    pub fn is_permission_denied(&self) -> (r: bool)
        ensures
            r == !(*self is MissingRequest),
    {
        !matches!(self, AdmissionError::MissingRequest)
    }
}

/// A backend admitted to subscribe: its name and underlay address.
#[derive(Clone, Debug, PartialEq, Eq)]
pub struct BackendAdmission {
    pub peer: String,
    pub underlay: IpAddress,
}

/// The unspecified address of either family.
pub open spec fn ip_unspecified(a: IpAddress) -> bool {
    match a {
        IpAddress::V4(x) => x == 0,
        IpAddress::V6(x) => x == 0,
    }
}

/// Admission of a subscription, from its first request and the address
/// that the request's `underlay_ip` parses to (none when it does not
/// parse): a backend with a name and a specified underlay address.
pub open spec fn spec_admit(first: Option<pb::DiscoveryRequest>, underlay: Option<IpAddress>) -> Result<(Seq<char>, IpAddress), AdmissionError> {
    match first {
        None => Err(AdmissionError::MissingRequest),
        Some(req) => if req.node_role@ != "backend"@ {
            Err(AdmissionError::NotBackend)
        } else {
            match underlay {
                Some(ip) if trim(req.node_name@).len() > 0 && !ip_unspecified(ip) => Ok((req.node_name@, ip)),
                _ => Err(AdmissionError::IncompleteRegistration),
            }
        },
    }
}

pub fn admit_backend(first: Option<&pb::DiscoveryRequest>, underlay: Option<IpAddress>) -> (r: Result<BackendAdmission, AdmissionError>)
    ensures
        match spec_admit(match first {
            Some(q) => Some(*q),
            None => None,
        }, underlay) {
            Ok((name, ip)) => r matches Ok(a) && a.peer@ == name && a.underlay == ip,
            Err(e) => r == Err::<BackendAdmission, AdmissionError>(e),
        },
{
    let req = match first {
        None => {
            return Err(AdmissionError::MissingRequest);
        },
        Some(q) => q,
    };
    if !chars_eq(&chars_of(req.node_role.as_str()), &chars_of("backend")) {
        return Err(AdmissionError::NotBackend);
    }
    let ip = match underlay {
        None => {
            return Err(AdmissionError::IncompleteRegistration);
        },
        Some(ip) => ip,
    };
    let unspecified = match ip {
        IpAddress::V4(x) => x == 0,
        IpAddress::V6(x) => x == 0,
    };
    if trimmed(req.node_name.as_str()).len() == 0 || unspecified {
        return Err(AdmissionError::IncompleteRegistration);
    }
    Ok(BackendAdmission { peer: req.node_name.clone(), underlay: ip })
}

/// A snapshot is sent when its version differs from the last one sent.
pub fn should_send(last_sent: &str, version: &str) -> (r: bool)
    ensures
        r == (last_sent@ != version@),
{
    !chars_eq(&chars_of(last_sent), &chars_of(version))
}

/// What the snapshot feed of one backend does with the snapshot it built.
#[derive(Clone, Debug, PartialEq, Eq)]
pub enum FeedStep {
    /// Send it: its version is new.
    Send,
    /// Send nothing: the backend has this version already.
    Skip,
    /// Send this internal error and stop the feed.
    Fail(String),
}

/// One round of the feed: a snapshot of a new version is sent and
/// remembered, one of the version last sent is skipped, and a failed build
/// is reported and ends the feed.
pub fn feed_step(last_sent: &mut String, built: Result<&str, &str>) -> (r: FeedStep)
    ensures
        match built {
            Ok(v) => if old(last_sent)@ != v@ {
                r == FeedStep::Send && final(last_sent)@ == v@
            } else {
                r == FeedStep::Skip && final(last_sent)@ == old(last_sent)@
            },
            Err(e) => (r matches FeedStep::Fail(m) && m@ == "snapshot build failed: "@ + e@)
                && final(last_sent)@ == old(last_sent)@,
        },
{
    match built {
        Ok(v) => {
            if should_send(last_sent.as_str(), v) {
                *last_sent = String::from_str(v);
                FeedStep::Send
            } else {
                FeedStep::Skip
            }
        },
        Err(e) => {
            let mut out = chars_of("snapshot build failed: ");
            extend_chars(&mut out, &chars_of(e));
            FeedStep::Fail(string_of(&out))
        },
    }
}

/// How a backend's reply on the stream reads.
#[derive(Clone, Copy, Debug, PartialEq, Eq, Structural)]
pub enum BackendReply {
    /// Acknowledged with no conflicts.
    Ack,
    /// Acknowledged with this many conflicts.
    AckWithConflicts(usize),
    /// Rejected with an error.
    Nack,
    /// Neither: not acknowledged and no error.
    Silent,
}

pub fn classify_reply(req: &pb::DiscoveryRequest) -> (r: BackendReply)
    ensures
        req.ack && req.conflicts@.len() == 0 ==> r == BackendReply::Ack,
        req.ack && req.conflicts@.len() > 0 ==> r == BackendReply::AckWithConflicts(req.conflicts@.len() as usize),
        !req.ack && req.error_detail@.len() > 0 ==> r == BackendReply::Nack,
        !req.ack && req.error_detail@.len() == 0 ==> r == BackendReply::Silent,
{
    if req.ack {
        if req.conflicts.len() == 0 {
            BackendReply::Ack
        } else {
            BackendReply::AckWithConflicts(req.conflicts.len())
        }
    } else if req.error_detail.unicode_len() > 0 {
        BackendReply::Nack
    } else {
        BackendReply::Silent
    }
}

} // verus!
