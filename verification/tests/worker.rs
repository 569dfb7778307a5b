use qrush_engine::queue::{delayed_enqueue_writes, enqueue_writes};
use qrush_engine::services::metrics_service::{delete_writes, requeue_writes};
use qrush_engine::services::runner_service::{
    worker_step, StoreWrite, WorkerAction, WorkerClock, WorkerEvent, WorkerStage, WorkerState,
};

fn clock(secs: i64) -> WorkerClock {
    WorkerClock {
        secs,
        rfc3339: "2025-09-26T10:00:00+00:00".to_string(),
        log_time: "2025-09-26 10:00:00 UTC".to_string(),
        today: "2025-09-26".to_string(),
    }
}

fn idle() -> WorkerState {
    WorkerState { stage: WorkerStage::Idle, job_id: String::new(), first_name: None, error: None }
}

fn describe_write(w: &StoreWrite) -> String {
    match w {
        StoreWrite::HashSet { key, fields } => format!("HSET {} {:?}", key, fields),
        StoreWrite::Incr { key } => format!("INCR {}", key),
        StoreWrite::RPush { key, value } => format!("RPUSH {} {}", key, value),
        StoreWrite::LPush { key, value } => format!("LPUSH {} {}", key, value),
        StoreWrite::LTrim { key, start, stop } => format!("LTRIM {} {} {}", key, start, stop),
        StoreWrite::ZAdd { key, member, score } => format!("ZADD {} {} {}", key, member, score),
        StoreWrite::SAdd { key, member } => format!("SADD {} {}", key, member),
        StoreWrite::ZRem { key, member } => format!("ZREM {} {}", key, member),
        StoreWrite::LRem { key, count, value } => format!("LREM {} {} {}", key, count, value),
        StoreWrite::HDel { key, fields } => format!("HDEL {} {:?}", key, fields),
        StoreWrite::Del { key } => format!("DEL {}", key),
    }
}

fn describe(a: &WorkerAction) -> String {
    match a {
        WorkerAction::Write(w) => describe_write(w),
        WorkerAction::CallAfter => "after".to_string(),
        WorkerAction::CallOnError => "on_error".to_string(),
        WorkerAction::CallAlways => "always".to_string(),
        WorkerAction::Sleep(ms) => format!("sleep {}", ms),
    }
}

fn run(events: Vec<WorkerEvent>, now: i64) -> (WorkerState, Vec<String>) {
    let mut s = idle();
    let mut log = Vec::new();
    for e in events {
        let (n, actions) = worker_step(s, e, "mail", &clock(now));
        s = n;
        log.extend(actions.iter().map(describe));
    }
    (s, log)
}

#[test]
fn empty_queue_pauses() {
    let (s, log) = run(vec![WorkerEvent::Popped(None)], 0);
    assert_eq!(s.stage, WorkerStage::Idle);
    assert_eq!(log, vec!["sleep 500"]);
}

#[test]
fn a_successful_job_is_recorded() {
    let (s, log) = run(
        vec![
            WorkerEvent::Popped(Some("j1".to_string())),
            WorkerEvent::Fetched { handlers: 2, first_name: Some("Mail".to_string()) },
            WorkerEvent::Decoded,
            WorkerEvent::BeforeDone(true),
            WorkerEvent::PerformDone(true),
        ],
        1000,
    );
    assert_eq!(s.stage, WorkerStage::Idle);
    assert_eq!(
        log,
        vec![
            "after".to_string(),
            "HSET qrush_engine:job:j1 [(\"status\", \"success\"), (\"completed_at\", \"2025-09-26T10:00:00+00:00\")]".to_string(),
            "INCR qrush_engine:qrush:success".to_string(),
            "RPUSH qrush_engine:success:mail j1".to_string(),
            "INCR qrush_engine:stats:jobs:2025-09-26".to_string(),
            "INCR qrush_engine:qrush:total_jobs".to_string(),
            "always".to_string(),
            "sleep 500".to_string(),
        ]
    );
}

#[test]
fn a_failed_job_is_retried_then_given_up() {
    let events = |n: i64| {
        vec![
            WorkerEvent::Popped(Some("j2".to_string())),
            WorkerEvent::Fetched { handlers: 1, first_name: Some("Mail".to_string()) },
            WorkerEvent::Decoded,
            WorkerEvent::BeforeDone(true),
            WorkerEvent::PerformDone(false),
            WorkerEvent::RetriesNow(n),
        ]
    };
    let (_, log) = run(events(2), 1000);
    assert_eq!(
        log,
        vec!["on_error", "RPUSH qrush_engine:retry:mail j2", "ZADD qrush_engine:delayed_jobs j2 1020", "always", "sleep 500"]
    );
    let (_, log) = run(events(4), 1000);
    assert_eq!(log, vec!["on_error", "RPUSH qrush_engine:retry:mail j2", "always", "sleep 500"]);
}

#[test]
fn undecodable_job_is_failed_with_the_last_error() {
    let (s, log) = run(
        vec![
            WorkerEvent::Popped(Some("j3".to_string())),
            WorkerEvent::Fetched { handlers: 2, first_name: Some("Mail".to_string()) },
            WorkerEvent::DecodeFailed("bad a".to_string()),
            WorkerEvent::DecodeFailed("bad b".to_string()),
        ],
        1000,
    );
    assert_eq!(s.stage, WorkerStage::Idle);
    assert_eq!(s.error, Some("bad b".to_string()));
    assert_eq!(log[0], "INCR qrush_engine:stats:jobs:2025-09-26:failed");
    assert!(log[1].contains("(\"error\", \"bad b\")"));
    assert_eq!(log[2], "LPUSH qrush_engine:logs:mail [2025-09-26 10:00:00 UTC] ❌ Job j3 failed");
    assert_eq!(log[3], "LTRIM qrush_engine:logs:mail 0 99");
    assert_eq!(log[4], "RPUSH qrush_engine:failed_jobs j3");
    assert_eq!(log[5], "HSET qrush_engine:job:j3 [(\"job_name\", \"Mail\")]");
    assert_eq!(log[6], "RPUSH qrush_engine:failed:mail j3");
    assert_eq!(log[7], "INCR qrush_engine:qrush:failed");
    assert_eq!(log[8], "sleep 500");
    assert_eq!(log.len(), 9);
}

#[test]
fn skipped_job_is_marked_then_failed() {
    let (_, log) = run(
        vec![
            WorkerEvent::Popped(Some("j4".to_string())),
            WorkerEvent::Fetched { handlers: 1, first_name: None },
            WorkerEvent::Decoded,
            WorkerEvent::BeforeDone(false),
        ],
        1000,
    );
    assert!(log[0].starts_with("HSET qrush_engine:job:j4 [(\"status\", \"skipped\")"));
    assert_eq!(log[6], "HSET qrush_engine:job:j4 [(\"job_name\", \"unknown\")]");
    assert_eq!(log.len(), 10);
}

fn describe_all(ws: &[StoreWrite]) -> Vec<String> {
    ws.iter().map(describe_write).collect()
}

#[test]
fn enqueueing_writes_the_job_then_queues_it() {
    let ws = enqueue_writes("mail", "abc", "{\"x\":1}", "2025-09-26T10:00:00+00:00");
    assert_eq!(
        describe_all(&ws),
        vec![
            "HSET qrush_engine:job:abc [(\"queue\", \"mail\"), (\"status\", \"pending\"), (\"payload\", \"{\\\"x\\\":1}\"), (\"created_at\", \"2025-09-26T10:00:00+00:00\")]".to_string(),
            "RPUSH qrush_engine:queue:mail abc".to_string(),
            "SADD qrush_engine:queues mail".to_string(),
        ]
    );
}

#[test]
fn delaying_scores_the_job_by_its_run_time() {
    let ws = delayed_enqueue_writes("mail", "abc", "{}", "now", 1_758_880_800, 90);
    assert_eq!(
        describe_all(&ws),
        vec![
            "HSET qrush_engine:job:abc [(\"queue\", \"mail\"), (\"status\", \"delayed\"), (\"payload\", \"{}\"), (\"created_at\", \"now\"), (\"run_at\", \"1758880890\")]".to_string(),
            "ZADD qrush_engine:delayed_jobs abc 1758880890".to_string(),
            "SADD qrush_engine:queues mail".to_string(),
        ]
    );
    let before_epoch = delayed_enqueue_writes("q", "j", "{}", "t", -100, 30);
    assert!(describe_all(&before_epoch)[0].ends_with("(\"run_at\", \"-70\")]"));
}

#[test]
fn deleting_logs_a_line() {
    let ws = delete_writes("abc", "2025-09-26 10:00:00 UTC");
    assert_eq!(
        describe_all(&ws),
        vec![
            "DEL qrush_engine:job:abc".to_string(),
            "LPUSH qrush_engine:logs:default [2025-09-26 10:00:00 UTC] 🗑️ Job abc deleted".to_string(),
            "LTRIM qrush_engine:logs:default 0 99".to_string(),
        ]
    );
}

#[test]
fn requeueing_puts_the_job_back_once() {
    let ws = requeue_writes("abc", "mail", "2025-09-26T10:00:00+00:00");
    assert_eq!(
        describe_all(&ws),
        vec![
            "ZREM qrush_engine:delayed_jobs abc".to_string(),
            "LREM qrush_engine:queue:mail 0 abc".to_string(),
            "RPUSH qrush_engine:queue:mail abc".to_string(),
            "HSET qrush_engine:job:abc [(\"status\", \"queued\"), (\"retry_at\", \"2025-09-26T10:00:00+00:00\")]".to_string(),
            "HDEL qrush_engine:job:abc [\"failed_at\", \"completed_at\", \"run_at\"]".to_string(),
        ]
    );
}
