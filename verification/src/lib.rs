//! Health bookkeeping of a service status dashboard.
//!
//! Every monitored service has a [`record::ServiceRecord`]. A [`poller::Poller`] says which
//! service to probe next and when to pause, a [`probe::Probe`] says how a probe ended, and the
//! record turns that into a check, and into incidents where the service goes down and comes back.
//! [`status::status_response`] is what the dashboard gets to see of it. What holds of a record
//! over the whole life of its service is proved in [`laws`].

pub mod clock;
pub mod config;
pub mod history;
pub mod laws;
pub mod poller;
pub mod probe;
pub mod record;
pub mod status;
