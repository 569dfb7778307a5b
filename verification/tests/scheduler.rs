use chrono::TimeZone;
use qrush_engine::cron::clock::UtcTime;
use qrush_engine::cron::cron_job::CronJobMeta;
use qrush_engine::cron::cron_parser::CronError;
use qrush_engine::cron::cron_scheduler::{CronScheduleError, CronScheduler};

fn utc(y: i32, mo: u32, d: u32, h: u32, mi: u32, s: u32) -> UtcTime {
    let t = chrono::Utc.with_ymd_and_hms(y, mo, d, h, mi, s).unwrap();
    UtcTime { secs: t.timestamp(), nanos: 0 }
}

fn meta(expr: &str, enabled: bool) -> CronJobMeta {
    CronJobMeta {
        id: "daily".to_string(),
        name: "Daily".to_string(),
        queue: "default".to_string(),
        cron_expression: expr.to_string(),
        timezone: "UTC".to_string(),
        enabled,
        last_run: None,
        next_run: String::new(),
        created_at: "2025-01-01T00:00:00+00:00".to_string(),
        payload: "{}".to_string(),
    }
}

#[test]
fn registering_sets_the_next_run() {
    let now = utc(2025, 9, 26, 10, 0, 0);
    let plan = CronScheduler::new_meta(
        "daily".to_string(),
        "Daily".to_string(),
        "default".to_string(),
        "0 9 * * *".to_string(),
        "UTC".to_string(),
        true,
        "{}".to_string(),
        now,
    )
    .ok()
    .unwrap();
    assert_eq!(plan.next, utc(2025, 9, 27, 9, 0, 0));
    assert_eq!(plan.meta.next_run, "2025-09-27T09:00:00+00:00");
    assert_eq!(plan.meta.created_at, "2025-09-26T10:00:00+00:00");
    assert!(plan.meta.last_run.is_none());
}

#[test]
fn registering_a_disabled_job_is_refused() {
    let now = utc(2025, 9, 26, 10, 0, 0);
    let r = CronScheduler::new_meta(
        "x".to_string(),
        "X".to_string(),
        "q".to_string(),
        "* * * * *".to_string(),
        "UTC".to_string(),
        false,
        "{}".to_string(),
        now,
    );
    assert!(matches!(r, Err(CronScheduleError::Disabled)));
    let r = CronScheduler::new_meta(
        "x".to_string(),
        "X".to_string(),
        "q".to_string(),
        "bad".to_string(),
        "UTC".to_string(),
        true,
        "{}".to_string(),
        now,
    );
    assert!(matches!(r, Err(CronScheduleError::Cron(CronError::InvalidExpression(_)))));
}

#[test]
fn a_run_records_now_and_moves_on() {
    let now = utc(2025, 9, 27, 9, 0, 0);
    let plan = CronScheduler::plan_run(meta("0 9 * * *", true), now).unwrap().ok().unwrap();
    assert_eq!(plan.meta.last_run.as_deref(), Some("2025-09-27T09:00:00+00:00"));
    assert_eq!(plan.next, utc(2025, 9, 28, 9, 0, 0));
    assert!(CronScheduler::plan_run(meta("0 9 * * *", false), now).is_none());
    let r = CronScheduler::plan_run(meta("nope", true), now).unwrap();
    assert!(matches!(r, Err(CronError::InvalidExpression(ref x)) if x == "nope"));
}

#[test]
fn toggling() {
    let now = utc(2025, 9, 27, 9, 30, 0);
    let (m, next) = CronScheduler::plan_toggle(meta("0 9 * * *", true), false, now).ok().unwrap();
    assert!(!m.enabled);
    assert!(next.is_none());
    let (m, next) = CronScheduler::plan_toggle(meta("0 9 * * *", false), true, now).ok().unwrap();
    assert!(m.enabled);
    assert_eq!(next, Some(utc(2025, 9, 28, 9, 0, 0)));
    assert_eq!(m.next_run, "2025-09-28T09:00:00+00:00");
}
