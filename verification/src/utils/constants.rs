//! Limits, defaults and storage key names.

use vstd::prelude::*;

verus! {

/// How many times a failed job is retried.
pub const MAX_RETRIES: usize = 3;

/// The page shown when none is asked for.
pub const DEFAULT_PAGE: usize = 1;

/// The page size used when none is asked for.
pub const DEFAULT_LIMIT: usize = 10;

/// How many due cron jobs one scheduler tick claims.
pub const CLAIM_BATCH_LIMIT: usize = 200;

// Storage key names: pending ids per queue, job hashes, delayed jobs, the set
// of queues, queue settings, per-queue status lists, counters, daily stats,
// logs, workers and the cron tables.
pub const PREFIX_QUEUE: &'static str = "qrush_engine:queue";
pub const PREFIX_JOB: &'static str = "qrush_engine:job";
pub const DELAYED_JOBS_KEY: &'static str = "qrush_engine:delayed_jobs";
pub const QUEUES_SET: &'static str = "qrush_engine:queues";
pub const QUEUE_CONFIG_PREFIX: &'static str = "qrush_engine:queue:config";
pub const SUCCESS_LIST_PREFIX: &'static str = "qrush_engine:success";
pub const FAILED_LIST_PREFIX: &'static str = "qrush_engine:failed";
pub const RETRY_LIST_PREFIX: &'static str = "qrush_engine:retry";
pub const COUNTER_SUCCESS: &'static str = "qrush_engine:qrush:success";
pub const COUNTER_FAILED: &'static str = "qrush_engine:qrush:failed";
pub const COUNTER_TOTAL_JOBS: &'static str = "qrush_engine:qrush:total_jobs";
pub const FAILED_JOBS_LIST: &'static str = "qrush_engine:failed_jobs";
pub const STATS_JOBS_PREFIX: &'static str = "qrush_engine:stats:jobs";
pub const STATS_JOBS_FAILED_PREFIX: &'static str = "qrush_engine:stats:jobs";
pub const LOGS_PREFIX: &'static str = "qrush_engine:logs";
pub const WORKER_PREFIX: &'static str = "qrush_engine:worker";
pub const CRON_JOBS_KEY: &'static str = "qrush_engine:cron:jobs";
pub const CRON_SCHEDULE_KEY: &'static str = "qrush_engine:cron:schedule";
pub const CRON_JOBS_META_KEY: &'static str = "qrush_engine:cron:jobs:meta";

} // verus!
