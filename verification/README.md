# route_iq

A small reverse proxy with pluggable load balancing, whose decisions live in a
Verus-verified library.

- `src/load_balancing.rs` — backends, the round-robin and least-connections
  strategies (with the fairness and minimality laws), health-probe outcomes.
- `src/proxy.rs` — in-flight accounting around a forwarded request, the
  `/admin/strategy/<name>` switch, the upstream URI, the logging line.
- `src/metrics.rs` — per-backend sliding latency windows and their order
  statistics.
- `src/decision.rs` — the engine that swaps round robin for least connections
  when a backend's tail latency is high, and back once all are calm.
- `src/backend.rs` — routing and the randomized answers of the demo backend.
- `src/plain_http.rs`, `src/text.rs` — response framing and string helpers.
- `app/` — the programs: the proxy on :3000 (default), `route_iq backend`
  (port from `PORT`), `route_iq basic` (greeting server on :8080). HTTP,
  locks, timers and the floating-point percentile rank live there.
