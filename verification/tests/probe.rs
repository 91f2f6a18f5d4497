use std::time::{SystemTime, UNIX_EPOCH};

use zstatus::clock::{now_ms, unix_ms, Span};
use zstatus::config::services;
use zstatus::history::Check;
use zstatus::probe::Probe;
use zstatus::record::ServiceRecord;

fn answered(code: u16) -> Probe {
    Probe::Answered { code, elapsed: Span { secs: 0, nanos: 42_999_999 } }
}

#[test]
fn only_success_codes_are_healthy() {
    for code in 0..=u16::MAX {
        let (ok, ms) = answered(code).result();
        assert_eq!(ok, (200..300).contains(&code), "{}", code);
        assert_eq!(ms, Some(42));
    }
}

#[test]
fn no_answer_is_unhealthy_and_has_no_latency() {
    assert_eq!(Probe::Unanswered.result(), (false, None));
}

#[test]
fn span_counts_whole_milliseconds() {
    assert_eq!(Span { secs: 0, nanos: 999_999 }.as_millis(), 0);
    assert_eq!(Span { secs: 0, nanos: 1_000_000 }.as_millis(), 1);
    assert_eq!(Span { secs: 7, nanos: 999_999_999 }.as_millis(), 7999);
    assert_eq!(Span { secs: u64::MAX, nanos: 0 }.as_millis(), 0u64.wrapping_sub(1000));
}

#[test]
fn unix_time_before_the_epoch_is_zero() {
    assert_eq!(unix_ms(None), 0);
    assert_eq!(unix_ms(Some(Span { secs: 1746960000, nanos: 5_000_000 })), 1746960000005);
}

#[test]
fn now_is_what_the_system_clock_shows() {
    let shown = || SystemTime::now().duration_since(UNIX_EPOCH).unwrap().as_millis() as u64;
    let before = shown();
    let now = now_ms();
    let after = shown();
    assert!(before <= now && now <= after);
}

#[test]
fn probe_is_recorded_with_the_current_time() {
    let mut record = ServiceRecord::new(&services()[0]);
    let before = now_ms();
    record.record_probe(answered(204));
    record.record_probe(answered(503));
    record.record_probe(Probe::Unanswered);
    let after = now_ms();
    let status = record.to_status();
    let ts: Vec<u64> = status.checks.iter().map(|c| c.ts).collect();
    assert!(ts.iter().all(|t| before <= *t && *t <= after));
    assert_eq!(
        status.checks,
        vec![
            Check { ts: ts[0], ok: true, ms: Some(42) },
            Check { ts: ts[1], ok: false, ms: Some(42) },
            Check { ts: ts[2], ok: false, ms: None },
        ]
    );
    assert_eq!(status.incidents.len(), 1);
    assert_eq!(status.incidents[0].start_ts, ts[1]);
}

#[test]
fn push_records_the_current_time() {
    let mut record = ServiceRecord::new(&services()[0]);
    let before = now_ms();
    record.push(true, Some(5));
    let after = now_ms();
    let check = record.to_status().checks[0];
    assert!(before <= check.ts && check.ts <= after);
    assert_eq!((check.ok, check.ms), (true, Some(5)));
}
