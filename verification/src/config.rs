//! What is monitored, how often, and how much of it is remembered.

use vstd::prelude::*;

verus! {

/// Number of checks that a record keeps for its service.
pub const HISTORY_MAX: usize = 90;

/// Number of incidents that a record keeps for its service.
pub const INCIDENT_MAX: usize = 10;

/// Pause between two rounds of checks, in seconds.
pub const CHECK_SECS: u64 = 60;

/// How long one health check waits for an answer, in seconds.
pub const PROBE_TIMEOUT_SECS: u64 = 8;

/// Limit that the HTTP client puts on any request of its own, in seconds.
pub const CLIENT_TIMEOUT_SECS: u64 = 10;

/// Port that the dashboard is served on unless another one is configured.
pub const DEFAULT_PORT: u16 = 8004;

/// One monitored service.
#[derive(Clone, Copy, Debug)]
pub struct ServiceCfg {
    /// Identifier in the JSON output.
    pub key: &'static str,
    /// Display name on the dashboard.
    pub name: &'static str,
    /// Public host name shown on the dashboard.
    pub host: &'static str,
    /// Internal URL of the health check.
    pub url: &'static str,
}

/// The monitored services, in the order of the dashboard.
pub open spec fn service_table() -> Seq<ServiceCfg> {
    seq![
        ServiceCfg {
            key: "api",
            name: "Auth API",
            host: "api.zeeble.xyz",
            url: "http://zbeam:8001/health",
        },
        ServiceCfg {
            key: "dm",
            name: "Messaging",
            host: "dm.zeeble.xyz",
            url: "http://zpulse:3002/health",
        },
        ServiceCfg {
            key: "cloud",
            name: "Cloud Servers",
            host: "cloud.zeeble.xyz",
            url: "http://zcloud:8003/health",
        },
    ]
}

/// The monitored services. To monitor another one, add it here and to [`service_table`].
pub fn services() -> (table: Vec<ServiceCfg>)
    ensures
        table@ == service_table(),
{
    vec![
        ServiceCfg {
            key: "api",
            name: "Auth API",
            host: "api.zeeble.xyz",
            url: "http://zbeam:8001/health",
        },
        ServiceCfg {
            key: "dm",
            name: "Messaging",
            host: "dm.zeeble.xyz",
            url: "http://zpulse:3002/health",
        },
        ServiceCfg {
            key: "cloud",
            name: "Cloud Servers",
            host: "cloud.zeeble.xyz",
            url: "http://zcloud:8003/health",
        },
    ]
}

/// The port to serve on: the configured one, or else [`DEFAULT_PORT`].
pub fn listen_port(configured: Option<u16>) -> (port: u16)
    ensures
        configured matches Some(p) ==> port == p,
        configured is None ==> port == DEFAULT_PORT,
{
    match configured {
        Some(port) => port,
        None => DEFAULT_PORT,
    }
}

/// The limits, and how they stand to each other: a health check gives up before the HTTP client
/// does, and either does before the next round is due.
pub proof fn limits_are_in_proportion()
    ensures
        HISTORY_MAX == 90,
        INCIDENT_MAX == 10,
        CHECK_SECS == 60,
        PROBE_TIMEOUT_SECS == 8,
        CLIENT_TIMEOUT_SECS == 10,
        DEFAULT_PORT == 8004,
        0 < PROBE_TIMEOUT_SECS < CLIENT_TIMEOUT_SECS < CHECK_SECS,
{
}

} // verus!
