# qrush-engine

A Redis-backed background job engine: worker pools per queue, delayed jobs,
a cron scheduler and an Actix-Web dashboard with optional HTTP basic
authentication.

The decisions of the engine live in a library verified with Verus (`src/`):

- `cron`: the cron expression parser and the search for the next run
  (`cron_parser`), the wall-clock arithmetic it relies on (`clock`), the
  argument that the search skips no run on the zone's wall clock, and in
  UTC no second (`gaps`), and the scheduler's bookkeeping of registered
  jobs (`cron_scheduler`).
- `config`: the `name:concurrency:priority` queue list of the runtime.
- `services`: basic-auth checks, dashboard listings (merging, filtering,
  deduplicating queues and ids), dashboard commands and the store writes
  of deleting and requeueing a job, and the workers' step function (what a
  worker does with each job it pops, retries included).
- `utils`: pagination of listings and the storage key names.
- `queue`: the keys of queues and jobs, and the store writes that enqueue
  a job now or later.
- `text`: the character-level scanning that the parsers share.

Each public function states its result in its contract; the laws that tie
several functions together are public proof functions next to them
(`law_*`).

`app/` holds what is not verified: Redis I/O, the worker and scheduler
loops, the dashboard handlers, Tera templates and the `qrush-engine`
runtime's entry point. `tests/` runs the library against the real `chrono`,
`chrono-tz` and `base64` crates.
