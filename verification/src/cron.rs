//! Cron expressions, the jobs scheduled by them and the scheduler's decisions.

pub mod clock;
pub mod cron_job;
pub mod cron_parser;
pub mod cron_scheduler;
pub mod gaps;
