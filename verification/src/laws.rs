//! What holds of records over the whole life of their services.

use vstd::prelude::*;

use crate::config::{CHECK_SECS, HISTORY_MAX, INCIDENT_MAX, ServiceCfg};
use crate::history::{Check, Incident, RecordView};
use crate::poller::{PollAction, Poller};

verus! {

/// The last `n` elements of `s`, or all of them where there are fewer.
pub open spec fn latest<T>(s: Seq<T>, n: nat) -> Seq<T> {
    if s.len() <= n {
        s
    } else {
        s.skip(s.len() - n)
    }
}

/// Check `i` of `trace` is the first failed one after a good one.
pub open spec fn goes_down(trace: Seq<Check>, i: int) -> bool {
    0 < i < trace.len() && trace[i - 1].ok && !trace[i].ok
}

/// The indices at which the service goes down, from the first to the last.
pub open spec fn outage_starts(trace: Seq<Check>) -> Seq<int>
    decreases trace.len(),
{
    if trace.len() == 0 {
        Seq::empty()
    } else {
        let before = outage_starts(trace.drop_last());
        if goes_down(trace, trace.len() - 1) {
            before.push(trace.len() - 1)
        } else {
            before
        }
    }
}

/// When the first good check behind check `i` was made, `None` where there is none.
pub open spec fn recovery(trace: Seq<Check>, i: int) -> Option<u64>
    decreases trace.len() - i,
{
    if i + 1 >= trace.len() {
        None
    } else if trace[i + 1].ok {
        Some(trace[i + 1].ts)
    } else {
        recovery(trace, i + 1)
    }
}

/// The outage that begins with check `i`.
pub open spec fn outage_at(trace: Seq<Check>, i: int) -> Incident {
    Incident { start_ts: trace[i].ts, end_ts: recovery(trace, i) }
}

/// All outages that a service has had over the checks of `trace`, from the first to the last.
pub open spec fn outages(trace: Seq<Check>) -> Seq<Incident> {
    outage_starts(trace).map_values(|i: int| outage_at(trace, i))
}

/// No check of `trace` was made before an earlier one.
pub open spec fn in_time_order(trace: Seq<Check>) -> bool {
    forall|i: int, j: int| 0 <= i <= j < trace.len() ==> trace[i].ts <= trace[j].ts
}

/// The latest `n` elements are a tail of the sequence, of `n` elements if there are as many.
pub proof fn latest_is_the_tail<T>(s: Seq<T>, n: nat)
    ensures
        latest(s, n).len() == if s.len() <= n {
            s.len()
        } else {
            n
        },
        forall|k: int|
            0 <= k < latest(s, n).len() ==> #[trigger] latest(s, n)[k] == s[k + s.len() - latest(
                s,
                n,
            ).len()],
{
}

/// A recovery is the first good check behind the one that it is from, and there is none exactly
/// when no check behind that one is good.
pub proof fn recovery_is_the_first_good_check(trace: Seq<Check>, i: int)
    requires
        0 <= i < trace.len(),
    ensures
        recovery(trace, i) is None <==> forall|k: int|
            i < k < trace.len() ==> !(#[trigger] trace[k]).ok,
        recovery(trace, i) matches Some(ts) ==> exists|k: int|
            i < k < trace.len() && (#[trigger] trace[k]).ok && trace[k].ts == ts && forall|l: int|
                i < l < k ==> !(#[trigger] trace[l]).ok,
    decreases trace.len() - i,
{
    if i + 1 < trace.len() {
        recovery_is_the_first_good_check(trace, i + 1);
        if trace[i + 1].ok {
            assert(trace[i + 1].ts == recovery(trace, i)->0);
        } else if recovery(trace, i) is Some {
            let k = choose|k: int|
                i + 1 < k < trace.len() && (#[trigger] trace[k]).ok && trace[k].ts == recovery(
                    trace,
                    i,
                )->0 && forall|l: int| i + 1 < l < k ==> !(#[trigger] trace[l]).ok;
            assert forall|l: int| i < l < k implies !(#[trigger] trace[l]).ok by {
                if l == i + 1 {
                    assert(!trace[i + 1].ok);
                }
            }
            assert(trace[k].ok);
        }
    }
}

/// A record that was made for a service and has taken in any checks names that service, and is to
/// be probed at the URL that is configured for it; before the first check it holds nothing else.
pub proof fn record_is_of_its_service(cfg: ServiceCfg, trace: Seq<Check>)
    ensures
        RecordView::fresh(cfg).after(trace).key == cfg.key@,
        RecordView::fresh(cfg).after(trace).name == cfg.name@,
        RecordView::fresh(cfg).after(trace).host == cfg.host@,
        RecordView::fresh(cfg).after(trace).url == cfg.url@,
        RecordView::fresh(cfg).checks.len() == 0,
        RecordView::fresh(cfg).incidents.len() == 0,
{
    identity_is_kept(RecordView::fresh(cfg), trace);
}

/// A record takes in checks one after the other.
pub proof fn checks_come_in_one_by_one(record: RecordView, trace: Seq<Check>, c: Check)
    ensures
        record.after(Seq::empty()) == record,
        record.after(trace.push(c)) == record.after(trace).pushed(c),
{
    assert(trace.push(c).drop_last() =~= trace);
}

/// A check that comes in is the last one of the record. The ones before it stay as they are, but
/// for the oldest where the history is full; what identifies the service stays too.
pub proof fn check_comes_last(record: RecordView, c: Check)
    ensures
        ({
            let now = record.pushed(c);
            &&& now.checks.len() > 0
            &&& now.checks[now.checks.len() - 1] == c
            &&& record.checks.len() < HISTORY_MAX ==> now.checks.len() == record.checks.len() + 1
                && forall|i: int|
                0 <= i < record.checks.len() ==> #[trigger] now.checks[i] == record.checks[i]
            &&& record.checks.len() >= HISTORY_MAX ==> now.checks.len() == record.checks.len()
                && forall|i: int|
                0 <= i < record.checks.len() - 1 ==> #[trigger] now.checks[i] == record.checks[i
                    + 1]
            &&& now.key == record.key
            &&& now.name == record.name
            &&& now.host == record.host
            &&& now.url == record.url
        }),
{
}

/// A failed check right after a good one adds an open incident that starts with it. The ones
/// before it stay as they are, but for the oldest where there are too many.
pub proof fn going_down_opens_an_incident(record: RecordView, c: Check)
    requires
        record.checks.len() > 0,
        record.checks.last().ok,
        !c.ok,
    ensures
        ({
            let now = record.pushed(c).incidents;
            &&& now.len() > 0
            &&& now[now.len() - 1].start_ts == c.ts
            &&& now[now.len() - 1].end_ts is None
            &&& record.incidents.len() < INCIDENT_MAX ==> now.len() == record.incidents.len() + 1
                && forall|i: int|
                0 <= i < record.incidents.len() ==> #[trigger] now[i] == record.incidents[i]
            &&& record.incidents.len() >= INCIDENT_MAX ==> now.len() == record.incidents.len()
                && forall|i: int|
                0 <= i < record.incidents.len() - 1 ==> #[trigger] now[i] == record.incidents[i
                    + 1]
        }),
{
}

/// A good check right after a failed one ends the last incident that is open with its own time,
/// and leaves all others as they are.
pub proof fn coming_back_ends_the_last_open_incident(record: RecordView, c: Check)
    requires
        record.checks.len() > 0,
        !record.checks.last().ok,
        c.ok,
    ensures
        ({
            let was = record.incidents;
            let now = record.pushed(c).incidents;
            &&& now.len() == was.len()
            &&& forall|i: int|
                0 <= i < was.len() ==> (#[trigger] now[i]).start_ts == was[i].start_ts
            &&& forall|i: int|
                0 <= i < was.len() && was[i].end_ts is Some ==> #[trigger] now[i] == was[i]
            &&& forall|i: int, j: int|
                0 <= i < j < was.len() && (#[trigger] was[j]).end_ts is None ==> (
                #[trigger] now[i]) == was[i]
            &&& forall|i: int|
                0 <= i < was.len() && was[i].end_ts is None && (forall|j: int|
                    i < j < was.len() ==> (#[trigger] was[j]).end_ts is Some) ==> (
                #[trigger] now[i]).end_ts == Some(c.ts)
        }),
{
}

/// A check that finds what the one before it found leaves the incidents as they are, and so does
/// the first check of all.
pub proof fn incidents_stay_while_health_does(record: RecordView, c: Check)
    requires
        record.checks.len() == 0 || record.checks.last().ok == c.ok,
    ensures
        record.pushed(c).incidents == record.incidents,
{
}

/// No record ever holds more than [`HISTORY_MAX`] checks or [`INCIDENT_MAX`] incidents.
pub proof fn record_stays_within_its_limits(cfg: ServiceCfg, trace: Seq<Check>)
    ensures
        RecordView::fresh(cfg).after(trace).checks.len() <= HISTORY_MAX,
        RecordView::fresh(cfg).after(trace).incidents.len() <= INCIDENT_MAX,
{
    history_is_the_latest_checks(cfg, trace);
    incidents_are_the_latest_outages(cfg, trace);
}

/// A record keeps what identifies its service, whatever checks come in.
pub proof fn identity_is_kept(record: RecordView, trace: Seq<Check>)
    ensures
        record.after(trace).key == record.key,
        record.after(trace).name == record.name,
        record.after(trace).host == record.host,
        record.after(trace).url == record.url,
    decreases trace.len(),
{
    if trace.len() > 0 {
        identity_is_kept(record, trace.drop_last());
    }
}

/// A well-formed record stays so, whatever checks come in: it never keeps more than
/// [`HISTORY_MAX`] checks or [`INCIDENT_MAX`] incidents, no incident but the newest is open, and
/// that one only while the service is down.
pub proof fn record_stays_well_formed(record: RecordView, trace: Seq<Check>)
    requires
        record.wf(),
    ensures
        record.after(trace).wf(),
    decreases trace.len(),
{
    if trace.len() > 0 {
        record_stays_well_formed(record, trace.drop_last());
    }
}

/// The checks that a record keeps are the latest [`HISTORY_MAX`] of all that have come in, most
/// recent last.
pub proof fn history_is_the_latest_checks(cfg: ServiceCfg, trace: Seq<Check>)
    ensures
        RecordView::fresh(cfg).after(trace).checks == latest(trace, HISTORY_MAX as nat),
    decreases trace.len(),
{
    if trace.len() > 0 {
        history_is_the_latest_checks(cfg, trace.drop_last());
        assert(trace == trace.drop_last().push(trace.last()));
        lemma_bounded_push_keeps_latest(trace.drop_last(), trace.last(), HISTORY_MAX as nat);
    }
}

/// The incidents that a record keeps are the latest [`INCIDENT_MAX`] of all outages of its
/// service, most recent last: each from the first failed check after a good one to the first good
/// check after that.
pub proof fn incidents_are_the_latest_outages(cfg: ServiceCfg, trace: Seq<Check>)
    ensures
        RecordView::fresh(cfg).after(trace).incidents == latest(
            outages(trace),
            INCIDENT_MAX as nat,
        ),
    decreases trace.len(),
{
    let record = RecordView::fresh(cfg).after(trace);
    if trace.len() == 0 {
        assert(record.incidents =~= latest(outages(trace), INCIDENT_MAX as nat));
    } else {
        let earlier = trace.drop_last();
        let c = trace.last();
        let before = RecordView::fresh(cfg).after(earlier);
        assert(trace == earlier.push(c));
        incidents_are_the_latest_outages(cfg, earlier);
        history_is_the_latest_checks(cfg, earlier);
        lemma_outage_starts(earlier);
        lemma_outages_push(earlier, c);
        if earlier.len() > 0 {
            assert(before.checks.last() == earlier.last());
        }
        if goes_down(trace, trace.len() - 1) {
            assert(outages(trace) =~= outages(earlier).push(
                Incident { start_ts: c.ts, end_ts: None },
            ));
            lemma_bounded_push_keeps_latest(
                outages(earlier),
                Incident { start_ts: c.ts, end_ts: None },
                INCIDENT_MAX as nat,
            );
        } else {
            lemma_only_last_outage_open(earlier);
            assert(record.incidents =~= latest(outages(trace), INCIDENT_MAX as nat));
        }
    }
}

/// A record has an open incident exactly when the latest check has failed and the service has been
/// up before: one that has been down from the first check on counts as no outage yet.
pub proof fn incident_is_open_while_down(cfg: ServiceCfg, trace: Seq<Check>)
    ensures
        RecordView::fresh(cfg).after(trace).has_open_incident() <==> trace.len() > 0
            && !trace.last().ok && exists|i: int| 0 <= i < trace.len() && (#[trigger] trace[i]).ok,
    decreases trace.len(),
{
    let record = RecordView::fresh(cfg).after(trace);
    if trace.len() > 0 {
        let earlier = trace.drop_last();
        let before = RecordView::fresh(cfg).after(earlier);
        incident_is_open_while_down(cfg, earlier);
        history_is_the_latest_checks(cfg, earlier);
        record_stays_well_formed(RecordView::fresh(cfg), earlier);
        record_stays_well_formed(RecordView::fresh(cfg), trace);
        history_is_the_latest_checks(cfg, trace);
        assert(record.checks.last() == trace.last());
        if earlier.len() > 0 {
            assert(before.checks.last() == earlier.last());
            assert(trace[earlier.len() - 1] == earlier.last());
        }
        if exists|i: int| 0 <= i < earlier.len() && (#[trigger] earlier[i]).ok {
            let i = choose|i: int| 0 <= i < earlier.len() && (#[trigger] earlier[i]).ok;
            assert(trace[i].ok);
        }
        if !trace.last().ok && exists|i: int| 0 <= i < trace.len() && (#[trigger] trace[i]).ok {
            let i = choose|i: int| 0 <= i < trace.len() && (#[trigger] trace[i]).ok;
            assert(earlier[i].ok);
        }
    }
}

/// A check that finds the service as the one before did leaves the incidents alone, and so does
/// the first check of all.
pub proof fn steady_health_is_no_incident(record: RecordView, c: Check)
    requires
        record.health() != Some(!c.ok),
    ensures
        record.pushed(c).incidents == record.incidents,
{
}

/// An outage is one incident, however many checks fail in it: from the first failed check to the
/// good one that ends it.
pub proof fn outage_is_one_incident(record: RecordView, down: Check, failed: Seq<Check>, up: Check)
    requires
        record.health() == Some(true),
        !down.ok,
        forall|i: int| 0 <= i < failed.len() ==> !(#[trigger] failed[i]).ok,
        up.ok,
    ensures
        record.pushed(down).after(failed).incidents == crate::history::bounded_push(
            record.incidents,
            Incident { start_ts: down.ts, end_ts: None },
            INCIDENT_MAX as nat,
        ),
        record.pushed(down).after(failed).pushed(up).incidents == crate::history::bounded_push(
            record.incidents,
            Incident { start_ts: down.ts, end_ts: Some(up.ts) },
            INCIDENT_MAX as nat,
        ),
{
    lemma_failed_checks_change_nothing(record.pushed(down), failed);
    let open = record.pushed(down).incidents;
    assert(crate::history::is_last_open(open, open.len() - 1));
    assert(crate::history::end_last_open(open, up.ts) =~= crate::history::bounded_push(
        record.incidents,
        Incident { start_ts: down.ts, end_ts: Some(up.ts) },
        INCIDENT_MAX as nat,
    ));
}

/// Where the clock does not go back, no incident ends before it starts, and none starts before
/// the one before it has ended.
pub proof fn incidents_are_in_time_order(cfg: ServiceCfg, trace: Seq<Check>)
    requires
        in_time_order(trace),
    ensures
        ({
            let incidents = RecordView::fresh(cfg).after(trace).incidents;
            &&& forall|k: int|
                0 <= k < incidents.len() ==> ((#[trigger] incidents[k]).end_ts matches Some(end)
                    ==> incidents[k].start_ts <= end)
            &&& forall|k: int, l: int|
                0 <= k < l < incidents.len() ==> (#[trigger] incidents[k]).end_ts is Some
                    && incidents[k].end_ts->0 <= (#[trigger] incidents[l]).start_ts
        }),
{
    incidents_are_the_latest_outages(cfg, trace);
    lemma_outage_starts(trace);
    lemma_only_last_outage_open(trace);
    let starts = outage_starts(trace);
    assert forall|k: int| 0 <= k < starts.len() implies ((#[trigger] outages(
        trace,
    )[k]).end_ts matches Some(end) ==> outages(trace)[k].start_ts <= end) by {
        assert(goes_down(trace, starts[k]));
        lemma_recovery_in_time_order(trace, starts[k], trace.len() as int);
    }
    assert forall|k: int, l: int| 0 <= k < l < starts.len() implies (#[trigger] outages(
        trace,
    )[k]).end_ts->0 <= (#[trigger] outages(trace)[l]).start_ts by {
        assert(goes_down(trace, starts[k]) && goes_down(trace, starts[l]));
        lemma_recovery_in_time_order(trace, starts[k], starts[l]);
    }
}

/// The status tells of the whole life of the service: the health by its latest check, and the
/// share of good ones among its latest [`HISTORY_MAX`] checks.
pub proof fn status_tells_of_the_latest_checks(cfg: ServiceCfg, trace: Seq<Check>)
    ensures
        ({
            let status = RecordView::fresh(cfg).after(trace).status();
            let kept = latest(trace, HISTORY_MAX as nat);
            &&& status.key == cfg.key@
            &&& status.name == cfg.name@
            &&& status.host == cfg.host@
            &&& status.status == if trace.len() == 0 {
                "unknown"@
            } else if trace.last().ok {
                "up"@
            } else {
                "down"@
            }
            &&& status.uptime == if trace.len() == 0 {
                None::<(nat, nat)>
            } else {
                Some((crate::status::good(kept), kept.len()))
            }
            &&& status.uptime matches Some((up, total)) ==> up <= total
            &&& status.checks == kept
            &&& status.incidents == latest(outages(trace), INCIDENT_MAX as nat)
        }),
{
    identity_is_kept(RecordView::fresh(cfg), trace);
    history_is_the_latest_checks(cfg, trace);
    incidents_are_the_latest_outages(cfg, trace);
    crate::status::lemma_good_at_most_all(latest(trace, HISTORY_MAX as nat));
}

/// The checks that the first `n` rounds have made of service `i`, in their order.
pub open spec fn checks_of(rounds: Seq<Seq<Check>>, n: nat, i: int) -> Seq<Check> {
    Seq::new(n, |r: int| rounds[r][i])
}

/// The records once the poller has done `steps` actions, where probing service `i` in round `r`
/// gives `rounds[r][i]`. A round has one action for each service, and one more for the pause.
pub open spec fn polled(
    records: Seq<RecordView>,
    rounds: Seq<Seq<Check>>,
    steps: nat,
) -> Seq<RecordView>
    decreases steps,
{
    if steps == 0 {
        records
    } else {
        let before = polled(records, rounds, (steps - 1) as nat);
        let services = records.len() as usize;
        let round = (steps - 1) / (records.len() + 1) as int;
        match Poller::start().after(services, (steps - 1) as nat).action(services) {
            PollAction::Probe { index } => before.update(
                index as int,
                before[index as int].pushed(rounds[round][index as int]),
            ),
            PollAction::Sleep { .. } => before,
        }
    }
}

/// Polling adds exactly one check to each record in every round, round after round: after `n`
/// rounds there are the same records in the same order, each still of the same service, and each
/// has taken in the checks that the `n` rounds have made of its service, in their order.
pub proof fn rounds_add_one_check_each(
    records: Seq<RecordView>,
    rounds: Seq<Seq<Check>>,
    n: nat,
)
    requires
        records.len() <= usize::MAX,
        n <= rounds.len(),
        forall|r: int| 0 <= r < rounds.len() ==> (#[trigger] rounds[r]).len() == records.len(),
    ensures
        polled(records, rounds, n * (records.len() + 1)) == Seq::new(
            records.len(),
            |i: int| records[i].after(checks_of(rounds, n, i)),
        ),
        forall|i: int|
            0 <= i < records.len() ==> {
                let now = #[trigger] polled(records, rounds, n * (records.len() + 1))[i];
                &&& now.key == records[i].key
                &&& now.name == records[i].name
                &&& now.host == records[i].host
                &&& now.url == records[i].url
            },
    decreases n, 0int, 0nat,
{
    let services = records.len();
    let steps = n * (services + 1);
    if n == 0 {
        assert(steps == 0) by (nonlinear_arith)
            requires
                n == 0,
                steps == n * (services + 1),
        ;
    } else {
        let done = (n - 1) as nat;
        let last = done * (services + 1) + services;
        assert(steps == last + 1) by (nonlinear_arith)
            requires
                steps == n * (services + 1),
                done == n - 1,
                last == done * (services + 1) + services,
        ;
        lemma_part_of_round(records, rounds, done, services);
        lemma_action_in_round(services, done, services);
        assert forall|i: int| 0 <= i < services implies records[i].after(
            #[trigger] checks_of(rounds, n, i),
        ) == records[i].after(checks_of(rounds, done, i)).pushed(rounds[done as int][i]) by {
            assert(checks_of(rounds, n, i).drop_last() =~= checks_of(rounds, done, i));
        }
    }
    assert(polled(records, rounds, steps) =~= Seq::new(
        services,
        |i: int| records[i].after(checks_of(rounds, n, i)),
    ));
    assert forall|i: int| 0 <= i < services implies ({
        let now = #[trigger] polled(records, rounds, steps)[i];
        &&& now.key == records[i].key
        &&& now.name == records[i].name
        &&& now.host == records[i].host
        &&& now.url == records[i].url
    }) by {
        identity_is_kept(records[i], checks_of(rounds, n, i));
    }
}

/// `outage_starts` holds every index at which the service goes down, once and in order, and no
/// other index.
pub proof fn lemma_outage_starts(trace: Seq<Check>)
    ensures
        forall|k: int|
            0 <= k < outage_starts(trace).len() ==> goes_down(
                trace,
                #[trigger] outage_starts(trace)[k],
            ),
        forall|k: int, l: int|
            0 <= k < l < outage_starts(trace).len() ==> outage_starts(trace)[k] < outage_starts(
                trace,
            )[l],
        forall|i: int| #[trigger] goes_down(trace, i) ==> outage_starts(trace).contains(i),
    decreases trace.len(),
{
    if trace.len() > 0 {
        let earlier = trace.drop_last();
        lemma_outage_starts(earlier);
        assert forall|k: int| 0 <= k < outage_starts(trace).len() implies goes_down(
            trace,
            #[trigger] outage_starts(trace)[k],
        ) by {
            if k < outage_starts(earlier).len() {
                assert(goes_down(earlier, outage_starts(earlier)[k]));
            }
        }
        assert forall|k: int, l: int|
            0 <= k < l < outage_starts(trace).len() implies outage_starts(trace)[k]
            < outage_starts(trace)[l] by {
            assert(goes_down(earlier, outage_starts(earlier)[k]));
        }
        assert forall|i: int| #[trigger] goes_down(trace, i) implies outage_starts(trace).contains(
            i,
        ) by {
            if i < earlier.len() {
                assert(goes_down(earlier, i));
                let k = choose|k: int|
                    0 <= k < outage_starts(earlier).len() && outage_starts(earlier)[k] == i;
                assert(outage_starts(trace)[k] == i);
            } else {
                assert(outage_starts(trace).last() == i);
            }
        }
    }
}

/// One more element at the end of `s` shifts the latest `n` by one.
proof fn lemma_bounded_push_keeps_latest<T>(s: Seq<T>, x: T, n: nat)
    ensures
        n > 0 ==> crate::history::bounded_push(latest(s, n), x, n) == latest(s.push(x), n),
{
    if n > 0 {
        assert(crate::history::bounded_push(latest(s, n), x, n) =~= latest(s.push(x), n));
    }
}

/// One more check ends the outages that are open if it is good, and leaves all others as they are.
proof fn lemma_recovery_push(trace: Seq<Check>, c: Check, i: int)
    requires
        0 <= i < trace.len(),
    ensures
        recovery(trace.push(c), i) == match recovery(trace, i) {
            Some(ts) => Some(ts),
            None => if c.ok {
                Some(c.ts)
            } else {
                None
            },
        },
    decreases trace.len() - i,
{
    if i + 1 < trace.len() {
        lemma_recovery_push(trace, c, i + 1);
    } else {
        reveal_with_fuel(recovery, 2);
    }
}

/// A good check behind check `i` makes for a recovery.
proof fn lemma_recovered(trace: Seq<Check>, i: int, k: int)
    requires
        0 <= i < k < trace.len(),
        trace[k].ok,
    ensures
        recovery(trace, i) is Some,
    decreases k - i,
{
    if i + 1 < k {
        lemma_recovered(trace, i + 1, k);
    }
}

/// How one more check changes the outages that there were.
proof fn lemma_outages_push(trace: Seq<Check>, c: Check)
    ensures
        outages(trace.push(c)).len() >= outages(trace).len(),
        !goes_down(trace.push(c), trace.len() as int) ==> outages(trace.push(c)).len() == outages(
            trace,
        ).len(),
        forall|k: int|
            0 <= k < outages(trace).len() ==> #[trigger] outages(trace.push(c))[k] == (Incident {
                start_ts: outages(trace)[k].start_ts,
                end_ts: match outages(trace)[k].end_ts {
                    Some(ts) => Some(ts),
                    None => if c.ok {
                        Some(c.ts)
                    } else {
                        None
                    },
                },
            }),
{
    lemma_outage_starts(trace);
    assert(trace.push(c).drop_last() =~= trace);
    assert forall|k: int| 0 <= k < outages(trace).len() implies #[trigger] outages(
        trace.push(c),
    )[k] == (Incident {
        start_ts: outages(trace)[k].start_ts,
        end_ts: match outages(trace)[k].end_ts {
            Some(ts) => Some(ts),
            None => if c.ok {
                Some(c.ts)
            } else {
                None
            },
        },
    }) by {
        let i = outage_starts(trace)[k];
        assert(goes_down(trace, i));
        assert(outage_starts(trace.push(c))[k] == i);
        lemma_recovery_push(trace, c, i);
    }
}

/// All outages but the last have ended, and that one too if the latest check is good.
proof fn lemma_only_last_outage_open(trace: Seq<Check>)
    ensures
        forall|k: int|
            0 <= k < outages(trace).len() - 1 ==> (#[trigger] outages(trace)[k]).end_ts is Some,
        trace.len() > 0 && trace.last().ok ==> forall|k: int|
            0 <= k < outages(trace).len() ==> (#[trigger] outages(trace)[k]).end_ts is Some,
{
    lemma_outage_starts(trace);
    let starts = outage_starts(trace);
    assert forall|k: int| 0 <= k < outages(trace).len() - 1 implies (#[trigger] outages(
        trace,
    )[k]).end_ts is Some by {
        assert(goes_down(trace, starts[k]) && goes_down(trace, starts[k + 1]));
        assert(starts[k] < starts[k + 1]);
        lemma_recovered(trace, starts[k], starts[k + 1] - 1);
    }
    if trace.len() > 0 && trace.last().ok {
        assert forall|k: int| 0 <= k < outages(trace).len() implies (#[trigger] outages(
            trace,
        )[k]).end_ts is Some by {
            assert(goes_down(trace, starts[k]));
            lemma_recovered(trace, starts[k], trace.len() - 1);
        }
    }
}

/// Failed checks on top of a failed one leave the incidents alone.
proof fn lemma_failed_checks_change_nothing(record: RecordView, failed: Seq<Check>)
    requires
        record.health() == Some(false),
        forall|i: int| 0 <= i < failed.len() ==> !(#[trigger] failed[i]).ok,
    ensures
        record.after(failed).incidents == record.incidents,
        record.after(failed).health() == Some(false),
    decreases failed.len(),
{
    if failed.len() > 0 {
        assert forall|i: int| 0 <= i < failed.drop_last().len() implies !(
        #[trigger] failed.drop_last()[i]).ok by {
            assert(!failed[i].ok);
        }
        lemma_failed_checks_change_nothing(record, failed.drop_last());
        assert(!failed[failed.len() - 1].ok);
    }
}

/// Where the clock does not go back, a recovery from check `i` comes no earlier than that check,
/// and no later than any check `k` that has a good one between `i` and it.
proof fn lemma_recovery_in_time_order(trace: Seq<Check>, i: int, k: int)
    requires
        in_time_order(trace),
        0 <= i < k <= trace.len(),
    ensures
        recovery(trace, i) matches Some(ts) ==> trace[i].ts <= ts,
        i < k - 1 && k < trace.len() && trace[k - 1].ok ==> recovery(trace, i)->0 <= trace[k].ts,
    decreases trace.len() - i,
{
    if i + 1 < k {
        if !trace[i + 1].ok {
            lemma_recovery_in_time_order(trace, i + 1, k);
        }
    } else if i + 1 < trace.len() && !trace[i + 1].ok {
        lemma_recovery_in_time_order(trace, i + 1, i + 2);
    }
}

/// The action `j` of round `n`, and that it belongs to that round.
proof fn lemma_action_in_round(services: nat, n: nat, j: nat)
    requires
        services <= usize::MAX,
        j <= services,
    ensures
        (n * (services + 1) + j) / (services + 1) == n,
        Poller::start().after(services as usize, n * (services + 1) + j).action(services as usize)
            == if j < services {
            PollAction::Probe { index: j as usize }
        } else {
            PollAction::Sleep { secs: CHECK_SECS }
        },
{
    let steps = n * (services + 1) + j;
    vstd::arithmetic::div_mod::lemma_fundamental_div_mod_converse(
        steps as int,
        (services + 1) as int,
        n as int,
        j as int,
    );
    crate::poller::polling_goes_in_rounds(services as usize, steps);
}

/// After `n` rounds and the first `j` actions of the next one, the first `j` records have taken in
/// one check more than the others.
proof fn lemma_part_of_round(
    records: Seq<RecordView>,
    rounds: Seq<Seq<Check>>,
    n: nat,
    j: nat,
)
    requires
        records.len() <= usize::MAX,
        n < rounds.len(),
        forall|r: int| 0 <= r < rounds.len() ==> (#[trigger] rounds[r]).len() == records.len(),
        j <= records.len(),
    ensures
        polled(records, rounds, n * (records.len() + 1) + j) == Seq::new(
            records.len(),
            |i: int|
                if i < j {
                    records[i].after(checks_of(rounds, n, i)).pushed(rounds[n as int][i])
                } else {
                    records[i].after(checks_of(rounds, n, i))
                },
        ),
    decreases n, 1int, j,
{
    let services = records.len();
    let first = n * (services + 1);
    if j == 0 {
        rounds_add_one_check_each(records, rounds, n);
    } else {
        let before = (j - 1) as nat;
        lemma_part_of_round(records, rounds, n, before);
        lemma_action_in_round(services, n, before);
    }
    assert(polled(records, rounds, first + j) =~= Seq::new(
        services,
        |i: int|
            if i < j {
                records[i].after(checks_of(rounds, n, i)).pushed(rounds[n as int][i])
            } else {
                records[i].after(checks_of(rounds, n, i))
            },
    ));
}

} // verus!
