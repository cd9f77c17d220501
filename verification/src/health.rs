//! The health monitor of one service: a state machine fed with the outcome of
//! each probe.

use crate::config::HealthKind;
use crate::text::{chars_of, parse_u32, rows, small_number, to_string, words, words_of};
use vstd::prelude::*;
use vstd::string::StringExecFns;

verus! {

/// What the monitor knows of its service.
#[derive(Clone, Copy, Debug, PartialEq, Eq, Structural)]
pub enum HealthState {
    /// Not monitored: the process is not running.
    Unknown,
    /// Monitored, no verdict yet.
    Probing,
    Healthy,
    Unhealthy,
}

/// A change of verdict that the supervisor is told of.
#[derive(Clone, Copy, Debug, PartialEq, Eq, Structural)]
pub enum HealthTransition {
    BecameHealthy,
    BecameUnhealthy,
}

/// What one probe came back with.
#[derive(Clone, Copy, Debug, PartialEq, Eq, Structural)]
pub enum ProbeOutcome {
    /// Nothing within the timeout.
    TimedOut,
    /// The connection was not established.
    Refused,
    /// The connection was established; no response was read.
    Connected,
    /// An HTTP response with this status arrived in time.
    Status(u16),
}

/// The first status that counts as an error.
pub const FIRST_ERROR_STATUS: u16 = 400;

/// Whether a probe of `kind` with this outcome counts as a success: for HTTP a
/// response in time whose status is no error, for TCP an established
/// connection.
pub open spec fn probe_ok(kind: HealthKind, outcome: ProbeOutcome) -> bool {
    match (kind, outcome) {
        (HealthKind::Http, ProbeOutcome::Status(s)) => s < FIRST_ERROR_STATUS,
        (HealthKind::Tcp, ProbeOutcome::Connected) => true,
        (HealthKind::Tcp, ProbeOutcome::Status(_)) => true,
        _ => false,
    }
}

/// Whether a probe of `kind` with this outcome counts as a success.
pub fn probe_succeeded(kind: HealthKind, outcome: ProbeOutcome) -> (ok: bool)
    ensures
        ok == probe_ok(kind, outcome),
{
    match kind {
        HealthKind::Http => match outcome {
            ProbeOutcome::Status(s) => s < FIRST_ERROR_STATUS,
            _ => false,
        },
        HealthKind::Tcp => match outcome {
            ProbeOutcome::Connected => true,
            ProbeOutcome::Status(_) => true,
            _ => false,
        },
    }
}

/// What the first line of an HTTP response says of the probe: the status
/// that its second word writes, or, where it writes none, no more than that
/// the connection was established.
pub open spec fn response_outcome(first_line: Seq<char>) -> ProbeOutcome {
    let found = words_of(first_line);
    if found.len() < 2 {
        ProbeOutcome::Connected
    } else {
        match small_number(found[1]) {
            Some(n) if n <= u16::MAX => ProbeOutcome::Status(n as u16),
            _ => ProbeOutcome::Connected,
        }
    }
}

/// What the first line of an HTTP response says of the probe.
pub fn outcome_of_response(first_line: &str) -> (outcome: ProbeOutcome)
    ensures
        outcome == response_outcome(first_line@),
{
    let found = words(&chars_of(first_line));
    if found.len() < 2 {
        return ProbeOutcome::Connected;
    }
    assert(rows(found@)[1] == found@[1]@);
    match parse_u32(to_string(&found[1]).as_str()) {
        Some(n) => {
            if n <= 65535 {
                ProbeOutcome::Status(n as u16)
            } else {
                ProbeOutcome::Connected
            }
        },
        None => ProbeOutcome::Connected,
    }
}

/// The path that an HTTP probe asks for: the configured one, or the root.
pub fn probe_path(path: Option<&str>) -> (out: String)
    ensures
        out@ == match path {
            Some(p) => p@,
            None => "/"@,
        },
{
    match path {
        Some(p) => p.to_owned(),
        None => "/".to_owned(),
    }
}

/// The request that an HTTP probe sends.
pub fn probe_request(path: &str) -> (out: String)
    ensures
        out@ == "GET "@ + path@ + " HTTP/1.0\r\nHost: localhost\r\n\r\n"@,
{
    "GET ".to_owned().concat(path).concat(" HTTP/1.0\r\nHost: localhost\r\n\r\n")
}

/// The monitor of one service.
#[derive(Clone, Copy, Debug, PartialEq, Eq, Structural)]
pub struct HealthMonitor {
    pub state: HealthState,
    /// Failed probes since the last success.
    pub failures: u32,
    /// Consecutive failures that make the service unhealthy.
    pub retries: u32,
}

/// The count of failures after one more.
pub open spec fn one_more(failures: u32) -> u32 {
    if failures < u32::MAX {
        (failures + 1) as u32
    } else {
        failures
    }
}

/// The monitor after a probe. A probe that reaches an unmonitored service
/// changes nothing. A success clears the count and makes the service healthy. A
/// failure counts, and makes the service unhealthy once the count has reached
/// the threshold.
pub open spec fn step(m: HealthMonitor, ok: bool) -> HealthMonitor {
    if m.state == HealthState::Unknown {
        m
    } else if ok {
        HealthMonitor { state: HealthState::Healthy, failures: 0, retries: m.retries }
    } else if one_more(m.failures) >= m.retries {
        HealthMonitor {
            state: HealthState::Unhealthy,
            failures: one_more(m.failures),
            retries: m.retries,
        }
    } else {
        HealthMonitor { state: m.state, failures: one_more(m.failures), retries: m.retries }
    }
}

/// The transition that a change of state from `before` to `after` emits.
pub open spec fn emitted(before: HealthState, after: HealthState) -> Option<HealthTransition> {
    if before == after {
        None
    } else if after == HealthState::Healthy {
        Some(HealthTransition::BecameHealthy)
    } else if after == HealthState::Unhealthy {
        Some(HealthTransition::BecameUnhealthy)
    } else {
        None
    }
}

/// The monitor after the probes of `outcomes`, first to last.
pub open spec fn after_probes(m: HealthMonitor, outcomes: Seq<bool>) -> HealthMonitor
    decreases outcomes.len(),
{
    if outcomes.len() == 0 {
        m
    } else {
        step(after_probes(m, outcomes.drop_last()), outcomes.last())
    }
}

/// `k` failed probes.
pub open spec fn failures_in_a_row(k: nat) -> Seq<bool> {
    Seq::new(k, |i: int| false)
}

impl HealthMonitor {
    /// A monitor that is not yet watching.
    pub fn new(retries: u32) -> (m: HealthMonitor)
        ensures
            m == (HealthMonitor { state: HealthState::Unknown, failures: 0, retries }),
    {
        HealthMonitor { state: HealthState::Unknown, failures: 0, retries }
    }

    /// Whether probes are counted.
    pub open spec fn monitoring(self) -> bool {
        self.state != HealthState::Unknown
    }

    /// The process has entered the running state: monitoring starts afresh.
    pub fn start(&mut self)
        ensures
            *final(self) == (HealthMonitor {
                state: HealthState::Probing,
                failures: 0,
                retries: old(self).retries,
            }),
    {
        self.state = HealthState::Probing;
        self.failures = 0;
    }

    /// The process has left the running state: monitoring stops.
    pub fn stop(&mut self)
        ensures
            *final(self) == (HealthMonitor {
                state: HealthState::Unknown,
                failures: 0,
                retries: old(self).retries,
            }),
    {
        self.state = HealthState::Unknown;
        self.failures = 0;
    }

    /// Takes in the outcome of one probe and returns the change of verdict, if
    /// there is one.
    pub fn record(&mut self, ok: bool) -> (change: Option<HealthTransition>)
        ensures
            *final(self) == step(*old(self), ok),
            change == emitted(old(self).state, final(self).state),
    {
        let before = self.state;
        if before == HealthState::Unknown {
            return None;
        }
        if ok {
            self.failures = 0;
            self.state = HealthState::Healthy;
            if before == HealthState::Healthy {
                None
            } else {
                Some(HealthTransition::BecameHealthy)
            }
        } else {
            if self.failures < u32::MAX {
                self.failures = self.failures + 1;
            }
            if self.failures >= self.retries {
                self.state = HealthState::Unhealthy;
                if before == HealthState::Unhealthy {
                    None
                } else {
                    Some(HealthTransition::BecameUnhealthy)
                }
            } else {
                None
            }
        }
    }

    /// Takes in the outcome of a probe of the given kind.
    pub fn observe(&mut self, kind: HealthKind, outcome: ProbeOutcome) -> (change: Option<
        HealthTransition,
    >)
        ensures
            *final(self) == step(*old(self), probe_ok(kind, outcome)),
            change == emitted(old(self).state, final(self).state),
    {
        let ok = probe_succeeded(kind, outcome);
        self.record(ok)
    }
}

/// A monitored service that is not unhealthy and has no failure counted
/// becomes unhealthy after exactly `retries` failed probes in a row: after `k`
/// of them it is unhealthy if and only if `k` has reached the threshold (and at
/// least one probe was made).
pub proof fn law_unhealthy_at_threshold(m: HealthMonitor, k: nat)
    requires
        m.state == HealthState::Probing || m.state == HealthState::Healthy,
        m.failures == 0,
    ensures
        after_probes(m, failures_in_a_row(k)).state == HealthState::Unhealthy <==> k >= 1 && k
            >= m.retries,
        after_probes(m, failures_in_a_row(k)).state != HealthState::Unhealthy ==> after_probes(
            m,
            failures_in_a_row(k),
        ).state == m.state,
        after_probes(m, failures_in_a_row(k)).retries == m.retries,
        after_probes(m, failures_in_a_row(k)).failures == if k < u32::MAX {
            k
        } else {
            u32::MAX as nat
        },
    decreases k,
{
    if k > 0 {
        law_unhealthy_at_threshold(m, (k - 1) as nat);
        assert(failures_in_a_row(k).drop_last() =~= failures_in_a_row((k - 1) as nat));
    }
}

/// One success makes a monitored service healthy, whatever came before, and
/// clears the count of failures.
pub proof fn law_one_success_heals(m: HealthMonitor)
    requires
        m.monitoring(),
    ensures
        step(m, true).state == HealthState::Healthy,
        step(m, true).failures == 0,
        emitted(m.state, step(m, true).state) == if m.state == HealthState::Healthy {
            None
        } else {
            Some(HealthTransition::BecameHealthy)
        },
{
}

/// A probe that arrives while the service is not monitored is not counted.
pub proof fn law_unmonitored_ignores_probes(m: HealthMonitor, outcomes: Seq<bool>)
    requires
        !m.monitoring(),
    ensures
        after_probes(m, outcomes) == m,
    decreases outcomes.len(),
{
    if outcomes.len() > 0 {
        law_unmonitored_ignores_probes(m, outcomes.drop_last());
    }
}

} // verus!
