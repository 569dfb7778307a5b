//! Job-queue engine core: cron expressions and their schedules, queue
//! settings, pagination of job listings, and the decisions taken by the
//! workers, the scheduler and the dashboard.

pub mod text;
pub mod cron;
pub mod utils;
pub mod services;
pub mod config;
pub mod queue;
