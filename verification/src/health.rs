//! Target health: API health states, matching observed health records to
//! target groups, probe verdicts and the retry rule of health transitions.

use vstd::prelude::*;
use vstd::string::*;
use crate::text::{trim, lower};
use crate::config::{Listener, TargetGroup};

verus! {

/// Default consecutive failures before a target is marked unhealthy.
pub const DEFAULT_RETRIES: u32 = 2;
/// Default probe period in seconds.
pub const DEFAULT_PERIOD_SECS: u64 = 5;

/// Observed health of one target under one listener identity.
#[derive(Clone, Debug, Default, PartialEq, Eq)]
pub struct TargetHealthEntry {
    pub host_name: String,
    pub name: String,
    pub description: Option<String>,
    pub inactive_retries: Option<u32>,
    pub probe_type: Option<String>,
    pub probe_req: Option<String>,
    pub probe_resp: Option<String>,
    pub probe_duration: Option<u32>,
    pub probe_port: Option<u16>,
    pub min_delay: Option<String>,
    pub avg_delay: Option<String>,
    pub max_delay: Option<String>,
    pub current_state: Option<String>,
    pub sync: Option<u32>,
}

/// All observed health records.
#[derive(Clone, Debug, Default, PartialEq, Eq)]
pub struct TargetHealthList {
    pub entries: Vec<TargetHealthEntry>,
}

/// Probe settings of a target group as the health worker reads them.
#[derive(Clone, Debug, Default, PartialEq, Eq)]
pub struct HealthProbeConfig {
    pub probe_type: Option<String>,
    pub probe_port: Option<u16>,
    pub probe_req: Option<String>,
    pub probe_resp: Option<String>,
    pub expected_status: Option<u16>,
    pub skip_tls_verify: bool,
    pub probe_duration: Option<u32>,
    pub inactive_retries: Option<u32>,
}

/// Probing is on for a probe type that is present, not blank and not
/// `none` in any ASCII case.
pub open spec fn spec_probe_enabled(probe_type: Option<Seq<char>>) -> bool {
    match probe_type {
        Some(t) => trim(t).len() > 0 && lower(trim(t)) != "none"@,
        None => false,
    }
}

impl HealthProbeConfig {
    pub fn enabled(&self) -> (r: bool)
        ensures
            r == spec_probe_enabled(match self.probe_type {
                Some(t) => Some(t@),
                None => None,
            }),
    {
        match &self.probe_type {
            None => false,
            Some(t) => {
                let tt = crate::text::trimmed(t.as_str());
                if tt.len() == 0 {
                    return false;
                }
                let low = crate::text::lower_chars(&tt);
                let none = crate::text::chars_of("none");
                !crate::text::chars_eq(&low, &none)
            },
        }
    }
}

/// The three API states: `ok` for the healthy spellings, `nok` otherwise.
pub open spec fn spec_normalize_health_state(state: Seq<char>) -> Seq<char> {
    let s = lower(trim(state));
    if s == "ok"@ || s == "active"@ || s == "up"@ || s == "alive"@ {
        "ok"@
    } else {
        "nok"@
    }
}

pub fn normalize_health_state(state: &str) -> (r: String)
    ensures
        r@ == spec_normalize_health_state(state@),
{
    let s = crate::text::lower_chars(&crate::text::trimmed(state));
    let ok = crate::text::chars_eq(&s, &crate::text::chars_of("ok"))
        || crate::text::chars_eq(&s, &crate::text::chars_of("active"))
        || crate::text::chars_eq(&s, &crate::text::chars_of("up"))
        || crate::text::chars_eq(&s, &crate::text::chars_of("alive"));
    if ok {
        String::from_str("ok")
    } else {
        String::from_str("nok")
    }
}

/// A probe type as compared: missing means `none`, then trimmed and lower-cased.
pub open spec fn spec_probe_type_key(t: Option<Seq<char>>) -> Seq<char> {
    match t {
        Some(v) => lower(trim(v)),
        None => "none"@,
    }
}

fn probe_type_key(t: &Option<String>) -> (r: Vec<char>)
    ensures
        r@ == spec_probe_type_key(match t {
            Some(v) => Some(v@),
            None => None,
        }),
{
    match t {
        Some(v) => crate::text::lower_chars(&crate::text::trimmed(v.as_str())),
        None => {
            let r = crate::text::chars_of("none");
            r
        },
    }
}

/// An observed health record belongs to a target group when the probe types
/// agree and the probed port is the group's probe port, or, without one, the
/// forwarding port of a listener of that group.
pub open spec fn spec_health_matches_group(listeners: Seq<Listener>, group: TargetGroup, entry: TargetHealthEntry) -> bool {
    spec_probe_type_key(match group.probe_type {
        Some(v) => Some(v@),
        None => None,
    }) == spec_probe_type_key(match entry.probe_type {
        Some(v) => Some(v@),
        None => None,
    }) && match group.probe_port {
        Some(port) => entry.probe_port == Some(port),
        None => exists|i: int| 0 <= i < listeners.len() && #[trigger] listeners[i].target_group@ == group.name@
            && entry.probe_port == Some(listeners[i].target_port),
    }
}

pub fn health_matches_group(listeners: &[Listener], group: &TargetGroup, entry: &TargetHealthEntry) -> (r: bool)
    ensures
        r == spec_health_matches_group(listeners@, *group, *entry),
{
    let expected = probe_type_key(&group.probe_type);
    let actual = probe_type_key(&entry.probe_type);
    if !crate::text::chars_eq(&expected, &actual) {
        return false;
    }
    match group.probe_port {
        Some(port) => match entry.probe_port {
            Some(p) => p == port,
            None => false,
        },
        None => {
            let mut i: usize = 0;
            while i < listeners.len()
                invariant
                    0 <= i <= listeners@.len(),
                    group.probe_port is None,
                    expected@ == actual@,
                    expected@ == spec_probe_type_key(match group.probe_type {
                        Some(v) => Some(v@),
                        None => None,
                    }),
                    actual@ == spec_probe_type_key(match entry.probe_type {
                        Some(v) => Some(v@),
                        None => None,
                    }),
                    forall|j: int| 0 <= j < i ==> !(#[trigger] listeners@[j].target_group@ == group.name@
                        && entry.probe_port == Some(listeners@[j].target_port)),
                decreases listeners@.len() - i,
            {
                let l = &listeners[i];
                let port_matches = match entry.probe_port {
                    Some(p) => p == l.target_port,
                    None => false,
                };
                if l.target_group == group.name && port_matches {
                    assert(listeners@[i as int].target_group@ == group.name@);
                    return true;
                }
                i = i + 1;
            }
            false
        },
    }
}

/// Whether an HTTP probe status counts as healthy: the configured status
/// when one is set, else any success or redirect status (200 to 399).
pub open spec fn spec_http_status_is_healthy(status: u16, expected: Option<u16>) -> bool {
    match expected {
        Some(v) => v == status,
        None => 200 <= status < 400,
    }
}

pub fn http_status_is_healthy(status: u16, expected: Option<u16>) -> (r: bool)
    ensures
        r == spec_http_status_is_healthy(status, expected),
{
    match expected {
        Some(v) => v == status,
        None => 200 <= status && status < 400,
    }
}

/// Outcome of one probe.
#[derive(Clone, Copy, Debug, PartialEq, Eq, Structural)]
pub enum ProbeOutcome {
    Pass,
    Fail,
}

/// Health state of one target as tracked by the probe worker.
#[derive(Clone, Copy, Debug, PartialEq, Eq, Structural)]
pub enum HealthState {
    Unknown,
    Healthy,
    Unhealthy,
}

/// One probe verdict applied to a target: recovery is immediate on the first
/// success; a target turns unhealthy only once its consecutive failures reach
/// the retry threshold (at least one).
pub open spec fn spec_apply_outcome(state: HealthState, failures: u32, outcome: ProbeOutcome, retries: u32) -> (HealthState, u32) {
    match outcome {
        ProbeOutcome::Pass => (HealthState::Healthy, 0),
        ProbeOutcome::Fail => {
            let f = if failures == u32::MAX {
                u32::MAX
            } else {
                (failures + 1) as u32
            };
            let threshold = if retries == 0 {
                1
            } else {
                retries
            };
            if state != HealthState::Unhealthy && f < threshold {
                (state, f)
            } else {
                (HealthState::Unhealthy, f)
            }
        },
    }
}

pub fn apply_outcome(state: HealthState, failures: u32, outcome: ProbeOutcome, retries: u32) -> (r: (HealthState, u32))
    ensures
        r == spec_apply_outcome(state, failures, outcome, retries),
{
    match outcome {
        ProbeOutcome::Pass => (HealthState::Healthy, 0),
        ProbeOutcome::Fail => {
            let f = failures.saturating_add(1);
            let threshold = if retries == 0 {
                1
            } else {
                retries
            };
            if state != HealthState::Unhealthy && f < threshold {
                (state, f)
            } else {
                (HealthState::Unhealthy, f)
            }
        },
    }
}

/// Health after a run of probe outcomes.
pub open spec fn run_outcomes(state: HealthState, failures: u32, outcomes: Seq<ProbeOutcome>, retries: u32) -> (HealthState, u32)
    decreases outcomes.len(),
{
    if outcomes.len() == 0 {
        (state, failures)
    } else {
        let (s, f) = spec_apply_outcome(state, failures, outcomes[0], retries);
        run_outcomes(s, f, outcomes.drop_first(), retries)
    }
}

/// Law: starting healthy, a target stays healthy through fewer consecutive
/// failures than the retry threshold.
pub proof fn fewer_failures_than_retries_keep_target_healthy(n: nat, retries: u32)
    requires
        n < retries,
    ensures
        run_outcomes(HealthState::Healthy, 0, Seq::new(n, |i: int| ProbeOutcome::Fail), retries) == (HealthState::Healthy, n as u32),
    decreases n,
{
    lemma_fail_run(HealthState::Healthy, 0, n, retries);
}

proof fn lemma_fail_run(state: HealthState, failures: u32, n: nat, retries: u32)
    requires
        state != HealthState::Unhealthy,
        failures + n < retries,
    ensures
        run_outcomes(state, failures, Seq::new(n, |i: int| ProbeOutcome::Fail), retries) == (state, (failures + n) as u32),
    decreases n,
{
    let s = Seq::new(n, |i: int| ProbeOutcome::Fail);
    if n > 0 {
        assert(s.drop_first() =~= Seq::new((n - 1) as nat, |i: int| ProbeOutcome::Fail));
        lemma_fail_run(state, (failures + 1) as u32, (n - 1) as nat, retries);
    }
}

/// Law: one success always restores a target and clears its failure count.
pub proof fn success_restores_target(state: HealthState, failures: u32, retries: u32)
    ensures
        spec_apply_outcome(state, failures, ProbeOutcome::Pass, retries) == (HealthState::Healthy, 0u32),
{
}

} // verus!
