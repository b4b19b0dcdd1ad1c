# stellar_fee_tracker

A fee tracker for the Stellar network and its developer kit, with the computing core
written in Verus and proved against its contracts.

## Layout

- `src/` — the verified library:
  - `insights/` — rolling averages over time windows, min/max tracking per period,
    grouping of fee spikes into runs and the congestion trend they point to, validation
    of incoming fee data, and the conversion of Horizon transaction records;
  - `api/` — request validation and response building of the HTTP API (history
    summaries, alert configuration rules, the webhook URL guard, ETag and caching
    headers);
  - `alerts/` — which detected spikes go to the alert webhook, each once;
  - `middleware/` — per-client token buckets of the rate limiter and the choice of the
    client address;
  - `repository.rs` — SQL of the alert-history queries;
  - `services/` — the Horizon client and its endpoints;
  - `devkit/` — percentiles, fee simulation from spike draws, CSV/JSON export, the mock
    server's scenario rotation and payload sources;
  - `text.rs`, `sorting.rs`, `netaddr.rs`, `clock.rs` — text rendering, sorting, IPv4
    and IPv6 address parsing and the wall clock.
- `tests/` — tests of the library.
- `app/` — the service around the library: HTTP server (axum), polling of Horizon
  (reqwest), SQLite storage (sqlx), Prometheus metrics, webhook delivery, and the
  floating-point parts (average values, spike ratios and severities).

Timestamps in the library are milliseconds since the Unix epoch; averages are kept as
exact sums and counts.
