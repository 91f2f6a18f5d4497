//! The status of a service, and of all of them, as the dashboard gets to see it.

use vstd::prelude::*;

use crate::clock::now_ms;
use crate::config::ServiceCfg;
use crate::history::{Check, Incident, RecordView};
use crate::record::ServiceRecord;

verus! {

/// How many of the kept checks were good: the uptime is the share of `up` in `total`.
#[derive(Clone, Copy, Debug, PartialEq, Eq, Structural)]
pub struct Uptime {
    pub up: usize,
    /// Never 0.
    pub total: usize,
}

/// The status of one service.
pub struct ServiceStatus {
    pub key: String,
    pub name: String,
    pub host: String,
    /// `up`, `down` or `unknown`.
    pub status: String,
    /// `None` before the first check.
    pub uptime: Option<Uptime>,
    /// Most recent last.
    pub checks: Vec<Check>,
    /// Most recent last.
    pub incidents: Vec<Incident>,
}

/// The status of all services.
pub struct StatusResponse {
    /// Unix milliseconds of the answer.
    pub checked_at: u64,
    pub services: Vec<ServiceStatus>,
}

/// What a status says.
#[verifier::ext_equal]
pub struct StatusView {
    pub key: Seq<char>,
    pub name: Seq<char>,
    pub host: Seq<char>,
    pub status: Seq<char>,
    /// How many of the checks were good, and how many checks there are.
    pub uptime: Option<(nat, nat)>,
    pub checks: Seq<Check>,
    pub incidents: Seq<Incident>,
}

impl View for ServiceStatus {
    type V = StatusView;

    open spec fn view(&self) -> StatusView {
        StatusView {
            key: self.key@,
            name: self.name@,
            host: self.host@,
            status: self.status@,
            uptime: match self.uptime {
                Some(uptime) => Some((uptime.up as nat, uptime.total as nat)),
                None => None,
            },
            checks: self.checks@,
            incidents: self.incidents@,
        }
    }
}

/// The number of good checks among `checks`.
pub open spec fn good(checks: Seq<Check>) -> nat {
    checks.filter(|c: Check| c.ok).len()
}

impl RecordView {
    /// The word for the health of the service.
    pub open spec fn status_word(self) -> Seq<char> {
        match self.health() {
            Some(true) => "up"@,
            Some(false) => "down"@,
            None => "unknown"@,
        }
    }

    /// The good checks among the kept ones, and all of them.
    pub open spec fn uptime(self) -> Option<(nat, nat)> {
        if self.checks.len() == 0 {
            None
        } else {
            Some((good(self.checks), self.checks.len()))
        }
    }

    /// The status of the service that this record is kept of.
    pub open spec fn status(self) -> StatusView {
        StatusView {
            key: self.key,
            name: self.name,
            host: self.host,
            status: self.status_word(),
            uptime: self.uptime(),
            checks: self.checks,
            incidents: self.incidents,
        }
    }
}

/// One more check adds one to the good ones if it is good, and nothing otherwise.
pub proof fn lemma_good_push(checks: Seq<Check>, c: Check)
    ensures
        good(checks.push(c)) == good(checks) + (if c.ok { 1nat } else { 0nat }),
{
    reveal(Seq::filter);
    assert(checks.push(c).drop_last() =~= checks);
}

/// No checks hold no good one, one check holds one if it is good, and the good checks of two
/// stretches add up.
pub proof fn good_checks_add_up(c: Check, checks: Seq<Check>, more: Seq<Check>)
    ensures
        good(Seq::empty()) == 0,
        good(seq![c]) == if c.ok {
            1nat
        } else {
            0nat
        },
        good(checks + more) == good(checks) + good(more),
    decreases more.len(),
{
    assert(good(Seq::empty()) == 0) by {
        reveal(Seq::filter);
    }
    lemma_good_push(Seq::empty(), c);
    assert(Seq::<Check>::empty().push(c) =~= seq![c]);
    if more.len() == 0 {
        assert(checks + more =~= checks);
        assert(more =~= Seq::empty());
    } else {
        good_checks_add_up(c, checks, more.drop_last());
        lemma_good_push(checks + more.drop_last(), more.last());
        lemma_good_push(more.drop_last(), more.last());
        assert((checks + more.drop_last()).push(more.last()) =~= checks + more);
        assert(more.drop_last().push(more.last()) =~= more);
    }
}

/// All checks are good exactly when the good ones are as many as all, and none is exactly when
/// there are no good ones.
pub proof fn full_uptime_means_that_all_checks_were_good(checks: Seq<Check>)
    ensures
        good(checks) == checks.len() <==> forall|i: int|
            0 <= i < checks.len() ==> (#[trigger] checks[i]).ok,
        good(checks) == 0 <==> forall|i: int|
            0 <= i < checks.len() ==> !(#[trigger] checks[i]).ok,
    decreases checks.len(),
{
    if checks.len() == 0 {
        lemma_good_at_most_all(checks);
    } else {
        let earlier = checks.drop_last();
        full_uptime_means_that_all_checks_were_good(earlier);
        lemma_good_at_most_all(earlier);
        lemma_good_push(earlier, checks.last());
        assert(earlier.push(checks.last()) =~= checks);
        assert(forall|i: int| 0 <= i < earlier.len() ==> earlier[i] == #[trigger] checks[i]);
        assert(checks.last() == checks[checks.len() - 1]);
        if forall|i: int| 0 <= i < checks.len() ==> (#[trigger] checks[i]).ok {
            assert forall|i: int| 0 <= i < earlier.len() implies (#[trigger] earlier[i]).ok by {
                assert(checks[i].ok);
            }
        }
        if forall|i: int| 0 <= i < checks.len() ==> !(#[trigger] checks[i]).ok {
            assert forall|i: int| 0 <= i < earlier.len() implies !(#[trigger] earlier[i]).ok by {
                assert(!checks[i].ok);
            }
        }
    }
}

/// The view of a status is what its fields hold.
pub proof fn status_says_what_its_fields_hold(status: ServiceStatus)
    ensures
        status@.key == status.key@,
        status@.name == status.name@,
        status@.host == status.host@,
        status@.status == status.status@,
        status@.uptime is Some <==> status.uptime is Some,
        status.uptime matches Some(uptime) ==> status@.uptime == Some(
            (uptime.up as nat, uptime.total as nat),
        ),
        status@.checks == status.checks@,
        status@.incidents == status.incidents@,
{
}

/// The status of any record names the service as the record does, tells its health by the latest
/// check, counts the good checks among the kept ones, and hands out what is kept.
pub proof fn status_is_read_off_the_record(record: RecordView)
    ensures
        record.status().key == record.key,
        record.status().name == record.name,
        record.status().host == record.host,
        record.checks.len() == 0 ==> record.status().status == "unknown"@,
        record.checks.len() > 0 && record.checks.last().ok ==> record.status().status == "up"@,
        record.checks.len() > 0 && !record.checks.last().ok ==> record.status().status == "down"@,
        record.checks.len() == 0 ==> record.status().uptime is None,
        record.checks.len() > 0 ==> record.status().uptime == Some(
            (good(record.checks), record.checks.len()),
        ),
        record.status().checks == record.checks,
        record.status().incidents == record.incidents,
{
}

/// There are no more good checks than checks.
pub proof fn lemma_good_at_most_all(checks: Seq<Check>)
    ensures
        good(checks) <= checks.len(),
    decreases checks.len(),
{
    if checks.len() == 0 {
        reveal(Seq::filter);
    } else {
        lemma_good_at_most_all(checks.drop_last());
        lemma_good_push(checks.drop_last(), checks.last());
        assert(checks.drop_last().push(checks.last()) =~= checks);
    }
}

/// One fresh record for each service of `cfgs`, in the same order.
pub fn initial_records(cfgs: &[ServiceCfg]) -> (records: Vec<ServiceRecord>)
    ensures
        records.len() == cfgs.len(),
        forall|i: int|
            0 <= i < records.len() ==> (#[trigger] records[i])@ == RecordView::fresh(cfgs[i]),
        forall|i: int| 0 <= i < records.len() ==> (#[trigger] records[i])@.wf(),
{
    let mut records: Vec<ServiceRecord> = Vec::new();
    let mut i: usize = 0;
    while i < cfgs.len()
        invariant
            i <= cfgs.len(),
            records.len() == i,
            forall|j: int|
                0 <= j < records.len() ==> (#[trigger] records[j])@ == RecordView::fresh(cfgs[j]),
            forall|j: int| 0 <= j < records.len() ==> (#[trigger] records[j])@.wf(),
        decreases cfgs.len() - i,
    {
        records.push(ServiceRecord::new(&cfgs[i]));
        i = i + 1;
    }
    records
}

/// The answer to a request for the status of all services that is given at `checked_at`: one
/// status for each record, in the same order.
pub fn status_response_at(records: &[ServiceRecord], checked_at: u64) -> (response: StatusResponse)
    ensures
        response.checked_at == checked_at,
        response.services.len() == records.len(),
        forall|i: int|
            0 <= i < records.len() ==> (#[trigger] response.services[i])@ == records[i]@.status(),
{
    let mut services: Vec<ServiceStatus> = Vec::new();
    let mut i: usize = 0;
    while i < records.len()
        invariant
            i <= records.len(),
            services.len() == i,
            forall|j: int|
                0 <= j < services.len() ==> (#[trigger] services[j])@ == records[j]@.status(),
        decreases records.len() - i,
    {
        services.push(records[i].to_status());
        i = i + 1;
    }
    StatusResponse { checked_at, services }
}

/// The answer to a request for the status of all services that is given now.
pub fn status_response(records: &[ServiceRecord]) -> (response: StatusResponse)
    ensures
        crate::clock::read_from_clock(response.checked_at),
        response.services.len() == records.len(),
        forall|i: int|
            0 <= i < records.len() ==> (#[trigger] response.services[i])@ == records[i]@.status(),
{
    let checked_at: u64 = now_ms();
    status_response_at(records, checked_at)
}

} // verus!
