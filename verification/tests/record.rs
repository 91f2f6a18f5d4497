use zstatus::config::{services, ServiceCfg, HISTORY_MAX, INCIDENT_MAX};
use zstatus::history::{Check, Incident};
use zstatus::record::ServiceRecord;

fn record() -> ServiceRecord {
    ServiceRecord::new(&services()[0])
}

/// The record after one check a minute, good where the letter is `u`.
fn record_of(life: &str) -> ServiceRecord {
    let mut record = record();
    for (i, c) in life.chars().enumerate() {
        record.push_at(i as u64 * 60, c == 'u', None);
    }
    record
}

fn incidents_of(life: &str) -> Vec<Incident> {
    record_of(life).to_status().incidents
}

fn ended(start_ts: u64, end_ts: u64) -> Incident {
    Incident { start_ts, end_ts: Some(end_ts) }
}

fn open(start_ts: u64) -> Incident {
    Incident { start_ts, end_ts: None }
}

#[test]
fn fresh_record_is_unknown_and_empty() {
    let status = record().to_status();
    assert_eq!(status.key, "api");
    assert_eq!(status.name, "Auth API");
    assert_eq!(status.host, "api.zeeble.xyz");
    assert_eq!(status.status, "unknown");
    assert_eq!(status.uptime, None);
    assert!(status.checks.is_empty());
    assert!(status.incidents.is_empty());
}

#[test]
fn record_knows_where_to_probe() {
    let cfg = ServiceCfg { key: "k", name: "n", host: "h", url: "http://u:1/health" };
    let mut record = ServiceRecord::new(&cfg);
    assert_eq!(record.url(), "http://u:1/health");
    record.push_at(1, true, None);
    assert_eq!(record.url(), "http://u:1/health");
}

#[test]
fn checks_are_kept_as_they_come() {
    let mut record = record();
    record.push_at(1000, true, Some(42));
    record.push_at(2000, false, None);
    record.push_at(1500, false, Some(7));
    let status = record.to_status();
    assert_eq!(
        status.checks,
        vec![
            Check { ts: 1000, ok: true, ms: Some(42) },
            Check { ts: 2000, ok: false, ms: None },
            Check { ts: 1500, ok: false, ms: Some(7) },
        ]
    );
    assert_eq!(status.status, "down");
}

#[test]
fn history_keeps_the_latest_checks() {
    let mut record = record();
    for ts in 0..HISTORY_MAX as u64 {
        record.push_at(ts, true, Some(ts));
    }
    assert_eq!(record.to_status().checks.len(), 90);
    assert_eq!(record.to_status().checks[0].ts, 0);
    record.push_at(90, true, None);
    let kept = record.to_status().checks;
    assert_eq!(kept.len(), 90);
    assert_eq!(kept[0].ts, 1);
    assert_eq!(kept[89].ts, 90);
    for ts in 91..1000 {
        record.push_at(ts, true, None);
    }
    let kept: Vec<u64> = record.to_status().checks.iter().map(|c| c.ts).collect();
    assert_eq!(kept, (910..1000).collect::<Vec<u64>>());
}

#[test]
fn going_down_opens_an_incident() {
    assert_eq!(incidents_of("uud"), vec![open(120)]);
}

#[test]
fn coming_back_ends_the_incident() {
    assert_eq!(incidents_of("uudu"), vec![ended(120, 180)]);
}

#[test]
fn outage_of_many_checks_is_one_incident() {
    assert_eq!(incidents_of("uddddd"), vec![open(60)]);
    assert_eq!(incidents_of("uddddduu"), vec![ended(60, 360)]);
}

#[test]
fn steady_health_opens_nothing() {
    assert_eq!(incidents_of("uuuuuu"), vec![]);
    assert_eq!(incidents_of("u"), vec![]);
}

#[test]
fn service_that_starts_down_has_no_incident() {
    assert_eq!(incidents_of("ddd"), vec![]);
    assert_eq!(incidents_of("dddu"), vec![]);
    assert_eq!(incidents_of("dddud"), vec![open(240)]);
}

#[test]
fn incidents_keep_the_latest_outages() {
    let status = record_of(&"ud".repeat(11)).to_status();
    assert_eq!(status.incidents.len(), INCIDENT_MAX);
    assert_eq!(status.incidents[0], ended(180, 240));
    assert_eq!(status.incidents[9], open(21 * 60));
    let ten = incidents_of(&"ud".repeat(10));
    assert_eq!(ten.len(), 10);
    assert_eq!(ten[0], ended(60, 120));
}

#[test]
fn incident_outlives_the_checks_that_opened_it() {
    let life = format!("ud{}", "d".repeat(200));
    let status = record_of(&life).to_status();
    assert!(status.checks.iter().all(|c| !c.ok));
    assert_eq!(status.incidents, vec![open(60)]);
    assert_eq!(incidents_of(&format!("{}u", life)), vec![ended(60, 202 * 60)]);
}

#[test]
fn incidents_are_ordered_in_time() {
    let incidents = incidents_of("dduuddduuduududdddu");
    for incident in &incidents {
        assert!(incident.start_ts <= incident.end_ts.unwrap());
    }
    for pair in incidents.windows(2) {
        assert!(pair[0].end_ts.unwrap() <= pair[1].start_ts);
    }
    assert_eq!(incidents.len(), 4);
}

#[test]
fn clock_that_goes_back_is_recorded_as_it_is() {
    let mut record = record();
    record.push_at(100, true, None);
    record.push_at(90, false, None);
    record.push_at(80, true, None);
    assert_eq!(record.to_status().incidents, vec![ended(90, 80)]);
}
