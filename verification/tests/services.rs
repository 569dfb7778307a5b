use base64::Engine;
use qrush_engine::services::basic_auth_service::{check_basic_auth, QrushBasicAuthConfig};
use qrush_engine::services::cron_service::{CronActionRequest, CronCommand};
use qrush_engine::services::metrics_service::{
    config_queue_names, dedupe_ids, filter_queues, job_action_of, merge_queues, JobAction,
    MetricsQuery,
};
use qrush_engine::services::runner_service::retry_at;

fn strings(v: &[&str]) -> Vec<String> {
    v.iter().map(|s| s.to_string()).collect()
}

fn header(creds: &str) -> String {
    format!("Basic {}", base64::engine::general_purpose::STANDARD.encode(creds))
}

fn admin() -> QrushBasicAuthConfig {
    QrushBasicAuthConfig { username: "admin".to_string(), password: "s3:cret".to_string() }
}

#[test]
fn allows_when_no_auth_configured() {
    assert!(check_basic_auth(None, None));
    assert!(check_basic_auth(None, Some("Basic garbage")));
}

#[test]
fn accepts_matching_credentials() {
    let cfg = admin();
    let h = header("admin:s3:cret");
    assert!(check_basic_auth(Some(&cfg), Some(h.as_str())));
}

#[test]
fn refuses_wrong_or_missing_credentials() {
    let cfg = admin();
    assert!(!check_basic_auth(Some(&cfg), None));
    let h = header("admin:wrong");
    assert!(!check_basic_auth(Some(&cfg), Some(h.as_str())));
    let h = header("admin");
    assert!(!check_basic_auth(Some(&cfg), Some(h.as_str())));
    assert!(!check_basic_auth(Some(&cfg), Some("Basic !!!notbase64")));
    let h = header("admin:s3:cret").replacen("Basic", "basic", 1);
    assert!(!check_basic_auth(Some(&cfg), Some(h.as_str())));
    let bad_utf8 = format!("Basic {}", base64::engine::general_purpose::STANDARD.encode([0xff, 0x3a]));
    assert!(!check_basic_auth(Some(&cfg), Some(bad_utf8.as_str())));
}

#[test]
fn empty_password_without_colon() {
    let cfg = QrushBasicAuthConfig { username: "u".to_string(), password: String::new() };
    let h = header("u");
    assert!(check_basic_auth(Some(&cfg), Some(h.as_str())));
}

#[test]
fn cron_commands() {
    let req = |a: &str, e: Option<bool>| CronActionRequest {
        action: a.to_string(),
        job_id: "j".to_string(),
        enabled: e,
    };
    assert_eq!(req("toggle", None).command(), CronCommand::Toggle(true));
    assert_eq!(req("toggle", Some(false)).command(), CronCommand::Toggle(false));
    assert_eq!(req("delete", None).command(), CronCommand::Delete);
    assert_eq!(req("run_now", None).command(), CronCommand::RunNow);
    assert_eq!(req("Delete", None).command(), CronCommand::Invalid);
}

#[test]
fn job_actions() {
    assert_eq!(job_action_of("delete"), JobAction::Delete);
    assert_eq!(job_action_of("retry"), JobAction::Requeue);
    assert_eq!(job_action_of("queue"), JobAction::Requeue);
    assert_eq!(job_action_of(""), JobAction::Invalid);
}

#[test]
fn configured_queues_come_first() {
    let merged = merge_queues(strings(&["critical", "default"]), strings(&["mail", "default", "mail", "x"]));
    assert_eq!(merged, strings(&["critical", "default", "mail", "x"]));
}

#[test]
fn dedupe_keeps_first_occurrences() {
    assert_eq!(dedupe_ids(strings(&["b", "a", "b", "c", "a"])), strings(&["b", "a", "c"]));
    assert!(dedupe_ids(Vec::new()).is_empty());
}

#[test]
fn search_ignores_case() {
    let qs = strings(&["Default", "critical", "MAIL_out"]);
    assert_eq!(filter_queues(qs.clone(), "mail"), strings(&["MAIL_out"]));
    assert_eq!(filter_queues(qs.clone(), "T"), strings(&["Default", "critical", "MAIL_out"]));
    assert_eq!(filter_queues(qs.clone(), ""), qs);
    assert!(filter_queues(qs, "zzz").is_empty());
}

#[test]
fn metrics_query_pagination() {
    let q = MetricsQuery { search: None, page: Some(2), limit: None };
    let p = q.pagination_query().into_pagination(30);
    assert_eq!((p.page, p.limit), (2, 10));
}

#[test]
fn retries_back_off_then_stop() {
    assert_eq!(retry_at(1, 1000), Some(1010));
    assert_eq!(retry_at(3, 1000), Some(1030));
    assert_eq!(retry_at(4, 1000), None);
}

#[test]
fn credentials_decide_for_any_utf8_text() {
    let cfg = QrushBasicAuthConfig { username: "jürgen".to_string(), password: "pä:ss wört".to_string() };
    let ok = header("jürgen:pä:ss wört");
    assert!(check_basic_auth(Some(&cfg), Some(ok.as_str())));
    for wrong in ["jurgen:pä:ss wört", "jürgen:pä:ss", "jürgen:pä:ss wört ", ":pä:ss wört"] {
        let h = header(wrong);
        assert!(!check_basic_auth(Some(&cfg), Some(h.as_str())), "{}", wrong);
    }
}

#[test]
fn configured_queue_names_come_from_their_keys() {
    let keys = strings(&[
        "qrush_engine:queue:config:critical",
        "qrush_engine:queue:critical",
        "qrush_engine:queue:config:",
        "qrush_engine:queue:config:mail:low",
    ]);
    assert_eq!(
        config_queue_names(&keys, "qrush_engine:queue:config:"),
        strings(&["critical", "", "mail:low"])
    );
    assert!(config_queue_names(&keys, "other:").is_empty());
}
