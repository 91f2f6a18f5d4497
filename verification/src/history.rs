//! Checks and incidents of one service, and the model of how they are recorded.

use vstd::prelude::*;

use crate::config::{HISTORY_MAX, INCIDENT_MAX, ServiceCfg};

verus! {

/// One health check.
#[derive(Clone, Copy, Debug, PartialEq, Eq, Structural)]
pub struct Check {
    /// Unix milliseconds.
    pub ts: u64,
    /// Whether the service was healthy.
    pub ok: bool,
    /// Latency in milliseconds, where there was an answer.
    pub ms: Option<u64>,
}

/// One outage: from the first failed check after a good one to the next good check.
#[derive(Clone, Copy, Debug, PartialEq, Eq, Structural)]
pub struct Incident {
    /// Unix milliseconds of the check that failed.
    pub start_ts: u64,
    /// Unix milliseconds of the check that found the service back, `None` while it is down.
    pub end_ts: Option<u64>,
}

/// `s` with `x` behind it, and with one element less in front if that makes it longer than `max`.
pub open spec fn bounded_push<T>(s: Seq<T>, x: T, max: nat) -> Seq<T> {
    if s.len() + 1 > max {
        s.push(x).drop_first()
    } else {
        s.push(x)
    }
}

/// Incident `i` is open, and those behind it are not.
pub open spec fn is_last_open(incidents: Seq<Incident>, i: int) -> bool {
    &&& 0 <= i < incidents.len()
    &&& incidents[i].end_ts is None
    &&& forall|j: int| i < j < incidents.len() ==> (#[trigger] incidents[j]).end_ts is Some
}

/// The incidents after the last open one, if there is one, has ended at `ts`.
pub open spec fn end_last_open(incidents: Seq<Incident>, ts: u64) -> Seq<Incident> {
    Seq::new(
        incidents.len(),
        |i: int|
            if is_last_open(incidents, i) {
                Incident { start_ts: incidents[i].start_ts, end_ts: Some(ts) }
            } else {
                incidents[i]
            },
    )
}

/// What a record holds.
#[verifier::ext_equal]
pub struct RecordView {
    pub key: Seq<char>,
    pub name: Seq<char>,
    pub host: Seq<char>,
    pub url: Seq<char>,
    /// Most recent last.
    pub checks: Seq<Check>,
    /// Most recent last.
    pub incidents: Seq<Incident>,
}

impl RecordView {
    /// The record of a service that has not been checked yet.
    pub open spec fn fresh(cfg: ServiceCfg) -> RecordView {
        RecordView {
            key: cfg.key@,
            name: cfg.name@,
            host: cfg.host@,
            url: cfg.url@,
            checks: Seq::empty(),
            incidents: Seq::empty(),
        }
    }

    /// Health by the latest check, `None` before the first one.
    pub open spec fn health(self) -> Option<bool> {
        if self.checks.len() == 0 {
            None
        } else {
            Some(self.checks.last().ok)
        }
    }

    /// The newest incident is still open.
    pub open spec fn has_open_incident(self) -> bool {
        self.incidents.len() > 0 && self.incidents.last().end_ts is None
    }

    /// The limits on what is kept hold, only the newest incident may be open, and it is open only
    /// while the service is down.
    pub open spec fn wf(self) -> bool {
        &&& self.checks.len() <= HISTORY_MAX
        &&& self.incidents.len() <= INCIDENT_MAX
        &&& forall|i: int|
            0 <= i < self.incidents.len() - 1 ==> (#[trigger] self.incidents[i]).end_ts is Some
        &&& self.has_open_incident() ==> self.health() == Some(false)
    }

    /// The incidents once check `c` has come in: going down opens one, coming back ends the one
    /// that is open.
    pub open spec fn incidents_after(self, c: Check) -> Seq<Incident> {
        if self.health() == Some(true) && !c.ok {
            bounded_push(
                self.incidents,
                Incident { start_ts: c.ts, end_ts: None },
                INCIDENT_MAX as nat,
            )
        } else if self.health() == Some(false) && c.ok {
            end_last_open(self.incidents, c.ts)
        } else {
            self.incidents
        }
    }

    /// The record once check `c` has come in.
    pub open spec fn pushed(self, c: Check) -> RecordView {
        RecordView {
            checks: bounded_push(self.checks, c, HISTORY_MAX as nat),
            incidents: self.incidents_after(c),
            ..self
        }
    }

    /// The record once the checks of `trace` have come in, one after the other.
    pub open spec fn after(self, trace: Seq<Check>) -> RecordView
        decreases trace.len(),
    {
        if trace.len() == 0 {
            self
        } else {
            self.after(trace.drop_last()).pushed(trace.last())
        }
    }
}

} // verus!
