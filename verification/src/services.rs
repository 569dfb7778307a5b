//! The decisions behind the dashboard, the workers and access control.

pub mod basic_auth_service;
pub mod cron_service;
pub mod metrics_service;
pub mod runner_service;
