//! What is stored of a cron job.

use vstd::prelude::*;

verus! {

/// A cron job as the scheduler stores it.
#[derive(Debug, Clone)]
pub struct CronJobMeta {
    pub id: String,
    pub name: String,
    pub queue: String,
    pub cron_expression: String,
    pub timezone: String,
    pub enabled: bool,
    /// RFC 3339 (UTC); absent before the first run.
    pub last_run: Option<String>,
    pub next_run: String,
    pub created_at: String,
    /// The serialized job.
    pub payload: String,
}

} // verus!
