# Zstatus

A small monitoring dashboard: it checks the health of a few services every 60 seconds, and shows
their uptime, their response times and their recent incidents on one web page.

The bookkeeping is a library that is verified with Verus; the program around it polls and serves.

- `src/config.rs`: the monitored services and the limits. To monitor another service, add it to
  `services` and to `service_table`.
- `src/clock.rs`: lengths of time, and the wall clock in Unix milliseconds.
- `src/probe.rs`: how a health probe ended, and what that says of the service.
- `src/history.rs`: checks, incidents, and the model of how they are recorded.
- `src/record.rs`: the record that is kept of one service.
- `src/status.rs`: the status that the dashboard gets to see.
- `src/poller.rs`: the order in which services are probed.
- `src/laws.rs`: what holds of records over the whole life of their services.
- `app/`: the HTTP client, the HTTP server, the JSON form of the status and the page.
- `tests/`: tests of the library.

## Endpoints

| Method | Path | Description |
|--------|------|-------------|
| `GET` | `/` | HTML dashboard |
| `GET` | `/api/status` | JSON status of all services |

## Environment

| Variable | Default | Description |
|----------|---------|-------------|
| `PORT` | `8004` | Port of the HTTP server |
| `RUST_LOG` | `zstatus=info` | Log filter |

## Trusted

Two functions call code that is not verified, and their contracts are believed: `since_epoch` in
`src/clock.rs` (`std::time::SystemTime::elapsed`) and `is_success` in `src/probe.rs`
(`reqwest::StatusCode::is_success`).
