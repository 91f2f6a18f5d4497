//! The record that is kept of one service.

use std::collections::VecDeque;
use vstd::prelude::*;

use crate::clock::now_ms;
use crate::config::{HISTORY_MAX, INCIDENT_MAX, ServiceCfg};
use crate::history::{Check, Incident, RecordView};
use crate::probe::Probe;
use crate::status::{ServiceStatus, Uptime};

verus! {

/// What is known of one service: its identity, its latest checks and its latest incidents.
pub struct ServiceRecord {
    key: &'static str,
    name: &'static str,
    host: &'static str,
    url: &'static str,
    checks: VecDeque<Check>,
    incidents: Vec<Incident>,
}

impl View for ServiceRecord {
    type V = RecordView;

    closed spec fn view(&self) -> RecordView {
        RecordView {
            key: self.key@,
            name: self.name@,
            host: self.host@,
            url: self.url@,
            checks: self.checks@,
            incidents: self.incidents@,
        }
    }
}

impl ServiceRecord {
    /// The record of a service that has not been checked yet.
    pub fn new(cfg: &ServiceCfg) -> (record: ServiceRecord)
        ensures
            record@ == RecordView::fresh(*cfg),
            record@.wf(),
            record@.key == cfg.key@,
            record@.name == cfg.name@,
            record@.host == cfg.host@,
            record@.url == cfg.url@,
            record@.checks.len() == 0,
            record@.incidents.len() == 0,
    {
        ServiceRecord {
            key: cfg.key,
            name: cfg.name,
            host: cfg.host,
            url: cfg.url,
            checks: VecDeque::new(),
            incidents: Vec::new(),
        }
    }

    /// The URL of the service's health check.
    pub fn url(&self) -> (url: &'static str)
        ensures
            url@ == self@.url,
    {
        self.url
    }

    /// Ends the last open incident at `ts`.
    fn end_open_incident(&mut self, ts: u64)
        ensures
            final(self)@ == (RecordView {
                incidents: crate::history::end_last_open(old(self)@.incidents, ts),
                ..old(self)@
            }),
    {
        let mut i: usize = self.incidents.len();
        while i > 0
            invariant
                i <= self.incidents.len(),
                self@ == old(self)@,
                forall|j: int|
                    i <= j < self.incidents.len() ==> (
                    #[trigger] self.incidents[j]).end_ts is Some,
            decreases i,
        {
            i = i - 1;
            let incident: Incident = self.incidents[i];
            if incident.end_ts.is_none() {
                self.incidents.set(i, Incident { start_ts: incident.start_ts, end_ts: Some(ts) });
                assert(crate::history::is_last_open(old(self)@.incidents, i as int));
                return;
            }
        }
    }

    /// Records a check that was made at `ts`.
    ///
    /// A failed check after a good one opens an incident, and a good one after a failed one ends
    /// the last incident that is open. The oldest check and the oldest incident make room for new
    /// ones where there are too many.
    pub fn push_at(&mut self, ts: u64, ok: bool, ms: Option<u64>)
        ensures
            final(self)@ == old(self)@.pushed((Check { ts, ok, ms })),
            old(self)@.wf() ==> final(self)@.wf(),
    {
        let prev_ok: Option<bool> = if self.checks.len() == 0 {
            None
        } else {
            Some(self.checks[self.checks.len() - 1].ok)
        };
        match prev_ok {
            Some(true) if !ok => {
                self.incidents.push(Incident { start_ts: ts, end_ts: None });
                if self.incidents.len() > INCIDENT_MAX {
                    self.incidents.remove(0);
                }
            },
            Some(false) if ok => {
                self.end_open_incident(ts);
            },
            _ => {},
        }
        self.checks.push_back(Check { ts, ok, ms });
        if self.checks.len() > HISTORY_MAX {
            self.checks.pop_front();
        }
    }

    /// Records a check that is made now, as [`ServiceRecord::push_at`] does with the time that
    /// the system's clock shows.
    pub fn push(&mut self, ok: bool, ms: Option<u64>)
        ensures
            exists|ts: u64|
                crate::clock::read_from_clock(ts) && final(self)@ == #[trigger] old(self)@.pushed(
                    (Check { ts, ok, ms }),
                ),
            old(self)@.wf() ==> final(self)@.wf(),
    {
        let ts: u64 = now_ms();
        self.push_at(ts, ok, ms);
    }

    /// Records what a probe that has just ended says of the service.
    pub fn record_probe(&mut self, probe: Probe)
        ensures
            exists|ts: u64|
                crate::clock::read_from_clock(ts) && final(self)@ == #[trigger] old(self)@.pushed(
                    (Check { ts, ok: probe.healthy(), ms: probe.latency() }),
                ),
            old(self)@.wf() ==> final(self)@.wf(),
    {
        let (ok, ms) = probe.result();
        self.push(ok, ms);
    }

    /// The status of the service: what its latest check says, how many of the kept checks were
    /// good, and the kept checks and incidents themselves.
    pub fn to_status(&self) -> (status: ServiceStatus)
        ensures
            status@ == self@.status(),
            status.key@ == self@.key,
            status.name@ == self@.name,
            status.host@ == self@.host,
            status.status@ == if self@.checks.len() == 0 {
                "unknown"@
            } else if self@.checks.last().ok {
                "up"@
            } else {
                "down"@
            },
            status.checks@ == self@.checks,
            status.incidents@ == self@.incidents,
            status.uptime is Some <==> self@.checks.len() > 0,
            status.uptime matches Some(uptime) ==> uptime.total == self@.checks.len() && uptime.up
                == crate::status::good(self@.checks),
            status.uptime matches Some(uptime) ==> uptime.up <= uptime.total && 0 < uptime.total,
    {
        let word: &'static str = if self.checks.len() == 0 {
            "unknown"
        } else if self.checks[self.checks.len() - 1].ok {
            "up"
        } else {
            "down"
        };
        let mut checks: Vec<Check> = Vec::new();
        let mut up: usize = 0;
        let mut i: usize = 0;
        proof {
            crate::status::lemma_good_at_most_all(Seq::empty());
        }
        while i < self.checks.len()
            invariant
                i <= self.checks.len(),
                checks@ == self.checks@.take(i as int),
                up <= i,
                up == crate::status::good(checks@),
            decreases self.checks.len() - i,
        {
            let check: Check = self.checks[i];
            proof {
                crate::status::lemma_good_push(checks@, check);
            }
            checks.push(check);
            if check.ok {
                up = up + 1;
            }
            i = i + 1;
        }
        let uptime: Option<Uptime> = if self.checks.len() == 0 {
            None
        } else {
            Some(Uptime { up, total: self.checks.len() })
        };
        let incidents: Vec<Incident> = self.incidents.clone();
        assert(incidents@ =~= self.incidents@);
        assert(checks@ =~= self.checks@);
        ServiceStatus {
            key: self.key.to_string(),
            name: self.name.to_string(),
            host: self.host.to_string(),
            status: word.to_string(),
            uptime,
            checks,
            incidents,
        }
    }
}

} // verus!
