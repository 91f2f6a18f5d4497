use zstatus::clock::now_ms;
use zstatus::config::{listen_port, services};
use zstatus::record::ServiceRecord;
use zstatus::status::{initial_records, status_response, status_response_at, Uptime};

fn uptime_of(life: &str) -> Option<Uptime> {
    let mut record = ServiceRecord::new(&services()[0]);
    for c in life.chars() {
        record.push_at(0, c == 'u', None);
    }
    record.to_status().uptime
}

#[test]
fn services_are_the_configured_ones() {
    let table = services();
    let keys: Vec<&str> = table.iter().map(|s| s.key).collect();
    let names: Vec<&str> = table.iter().map(|s| s.name).collect();
    let hosts: Vec<&str> = table.iter().map(|s| s.host).collect();
    let urls: Vec<&str> = table.iter().map(|s| s.url).collect();
    assert_eq!(keys, ["api", "dm", "cloud"]);
    assert_eq!(names, ["Auth API", "Messaging", "Cloud Servers"]);
    assert_eq!(hosts, ["api.zeeble.xyz", "dm.zeeble.xyz", "cloud.zeeble.xyz"]);
    assert_eq!(
        urls,
        ["http://zbeam:8001/health", "http://zpulse:3002/health", "http://zcloud:8003/health"]
    );
}

#[test]
fn port_has_a_default() {
    assert_eq!(listen_port(None), 8004);
    assert_eq!(listen_port(Some(9000)), 9000);
}

#[test]
fn status_word_follows_the_latest_check() {
    let mut record = ServiceRecord::new(&services()[1]);
    assert_eq!(record.to_status().status, "unknown");
    record.push_at(1, false, None);
    assert_eq!(record.to_status().status, "down");
    record.push_at(2, true, None);
    assert_eq!(record.to_status().status, "up");
}

#[test]
fn uptime_counts_the_good_checks() {
    assert_eq!(uptime_of(""), None);
    assert_eq!(uptime_of("u"), Some(Uptime { up: 1, total: 1 }));
    assert_eq!(uptime_of("d"), Some(Uptime { up: 0, total: 1 }));
    assert_eq!(uptime_of("uudu"), Some(Uptime { up: 3, total: 4 }));
    let uptime = uptime_of("uudu").unwrap();
    assert_eq!((uptime.up as f64 / uptime.total as f64) * 100.0, 75.0);
}

#[test]
fn uptime_forgets_what_the_history_forgets() {
    let life = format!("{}{}", "d".repeat(50), "u".repeat(60));
    assert_eq!(uptime_of(&life), Some(Uptime { up: 60, total: 90 }));
}

#[test]
fn response_has_one_status_for_each_record() {
    let mut records = initial_records(&services());
    records[1].push_at(7, true, Some(3));
    records[2].push_at(8, false, None);
    let response = status_response_at(&records, 1746960000000);
    assert_eq!(response.checked_at, 1746960000000);
    let seen: Vec<(&str, &str, usize)> = response
        .services
        .iter()
        .map(|s| (s.key.as_str(), s.status.as_str(), s.checks.len()))
        .collect();
    assert_eq!(seen, [("api", "unknown", 0), ("dm", "up", 1), ("cloud", "down", 1)]);
}

#[test]
fn response_without_records_is_empty() {
    assert!(initial_records(&[]).is_empty());
    assert!(status_response_at(&[], 1).services.is_empty());
}

#[test]
fn response_now_carries_the_current_time() {
    let before = now_ms();
    let response = status_response(&initial_records(&services()));
    let after = now_ms();
    assert!(before <= response.checked_at && response.checked_at <= after);
    assert_eq!(response.services.len(), 3);
}
