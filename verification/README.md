# Relay

Relay runs shell commands on a pool of workers. Workers pull jobs, hold a
lease on each job while it runs, and report how it ended; a job whose
worker disappears is put back once its lease expires, and a late report from
a superseded attempt is ignored.

This crate is the scheduling core, written in Verus: every operation on the
scheduler's state carries a contract over a mathematical view of that state,
and the properties the system relies on are proved as lemmas.

## Layout

- `src/store.rs`: the scheduler's tables (jobs, attempts, workers, leases) and
  every transition on them: claiming work, renewing leases, reports of an
  attempt's end, cancellation, reaping expired leases and silent workers,
  listings and metrics. Each operation that reads the clock also comes in a
  form (`*_at`) that takes the time as an argument.
- `src/scheduler.rs`: the operations of the HTTP API on top of the store.
- `src/laws.rs`: properties of the whole: stale reports change nothing, a
  cancelled job stays cancelled, a claim stays within what the worker offers,
  reaping leaves no expired lease, blocked jobs wait for their dependencies,
  retries back off exponentially, a second reaping pass changes nothing, and
  more.
- `src/holding.rs`: every lease is held for a job that is out with the
  lease's worker under the lease's attempt; each operation keeps it so, and
  there are never more leases than jobs assigned or running.
- `src/models.rs`, `src/string_map.rs`, `src/sorting.rs`: the data model, a
  string map with a map view, and a verified stable sort.
- `src/worker.rs`, `src/cli.rs`, `src/benchmark.rs`, `src/chaos.rs`,
  `src/api.rs`, `src/rows.rs`, `src/text.rs`: the settings and requests of the
  worker daemon and the tools (among them what a worker's running jobs hold),
  the decisions of the HTTP handlers, and writing database rows and reading
  them back.
- `src/wrappers.rs`: the few calls into chrono, uuid, rand, sysinfo,
  serde_json and `str`, each with the contract its documentation supports.
- `app/`: the programs around the library: the HTTP server (axum), the SQLite
  persistence, the worker daemon, the HTTP client, the command line, and the
  benchmark and chaos runners.
