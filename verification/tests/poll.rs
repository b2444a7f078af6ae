use codenotch_win::credentials::CliNames;
use codenotch_win::poll::{
    backoff_secs, fetch_error_for_status, poll_interval_secs, read_reply, request_refresh, FetchErr, PollAction,
    PollEvent, PollStage, Poller, RefreshFlag,
};
use codenotch_win::usage::{load_persisted, LimitWindow, UsageSnapshot};

#[test]
fn backoff_base_and_exponential() {
    assert_eq!(backoff_secs(0, 0), 60);
    assert_eq!(backoff_secs(1, 0), 120);
    assert_eq!(backoff_secs(2, 0), 240);
    assert_eq!(backoff_secs(3, 0), 480);
    assert_eq!(backoff_secs(4, 0), 900);
    assert_eq!(backoff_secs(10, 0), 900);
}

#[test]
fn backoff_honors_retry_after_floor() {
    assert_eq!(backoff_secs(0, 120), 120);
    assert_eq!(backoff_secs(0, 30), 60);
    assert_eq!(backoff_secs(1, 300), 300);
    assert_eq!(backoff_secs(4, 1000), 1000);
    assert_eq!(backoff_secs(4, 0), 900);
}

#[test]
fn backoff_retry_after_string_parse_simulation() {
    let ra_missing: u64 = "".parse::<u64>().unwrap_or(0);
    assert_eq!(backoff_secs(0, ra_missing), 60);
    let ra_valid: u64 = "180".parse::<u64>().unwrap_or(0);
    assert_eq!(backoff_secs(0, ra_valid), 180);
    let ra_invalid: u64 = "not-a-number".parse::<u64>().unwrap_or(0);
    assert_eq!(backoff_secs(0, ra_invalid), 60);
}

#[test]
fn backoff_never_shrinks_with_more_429s() {
    for c in 0..20u32 {
        for floor in [0u64, 59, 61, 500, 899, 901, 5000] {
            let w = backoff_secs(c, floor);
            assert!(w >= 60 && w >= floor);
            assert!(w <= backoff_secs(c + 1, floor));
        }
    }
    assert_eq!(backoff_secs(u32::MAX, u64::MAX), u64::MAX);
}

#[test]
fn status_codes_map_to_failures() {
    assert!(matches!(fetch_error_for_status(401, None), FetchErr::NeedsAuth));
    assert!(matches!(fetch_error_for_status(403, Some("10")), FetchErr::NeedsAuth));
    assert!(matches!(fetch_error_for_status(429, Some("180")), FetchErr::RateLimited(180)));
    assert!(matches!(fetch_error_for_status(429, Some("+7")), FetchErr::RateLimited(7)));
    assert!(matches!(fetch_error_for_status(429, Some("soon")), FetchErr::RateLimited(0)));
    assert!(matches!(fetch_error_for_status(429, Some(" 5")), FetchErr::RateLimited(0)));
    assert!(matches!(fetch_error_for_status(429, None), FetchErr::RateLimited(0)));
    assert!(matches!(
        fetch_error_for_status(429, Some("18446744073709551616")),
        FetchErr::RateLimited(0)
    ));
    match fetch_error_for_status(500, None) {
        FetchErr::Other(m) => assert_eq!(m, "HTTP 500"),
        _ => panic!("500 should be another failure"),
    }
    match fetch_error_for_status(0, None) {
        FetchErr::Other(m) => assert_eq!(m, "HTTP 0"),
        _ => panic!("0 should be another failure"),
    }
}

fn names() -> CliNames {
    CliNames { cli: "Quill Code".to_string(), command: "quill".to_string(), assistant: "Quill".to_string() }
}

fn window(id: &str) -> LimitWindow {
    LimitWindow {
        id: id.to_string(),
        label: id.to_string(),
        used: 1,
        resets_at: Some(1),
        count: None,
        derived: false,
    }
}

fn snapshot_with(windows: Vec<LimitWindow>) -> UsageSnapshot {
    UsageSnapshot {
        status: "ok".to_string(),
        windows,
        fetched_at: 7,
        note: String::new(),
        backoff_until: 0,
    }
}

#[test]
fn poll_cycle_success() {
    let mut p = Poller::new(names());
    let mut s = UsageSnapshot::default();
    assert!(matches!(p.step(&mut s, PollEvent::Wake, 1000), PollAction::ReadCredentials));
    let a = p.step(&mut s, PollEvent::Credentials(Some(("tok".to_string(), false))), 1000);
    assert!(matches!(a, PollAction::Fetch(ref t) if t == "tok"));
    let a = p.step(&mut s, PollEvent::Fetched(Ok(vec![window("session")])), 2000);
    assert!(matches!(a, PollAction::Rest));
    assert_eq!(s.status, "ok");
    assert_eq!(s.windows.len(), 1);
    assert_eq!(s.fetched_at, 2000);
    assert_eq!(s.note, "");
    assert_eq!(s.backoff_until, 0);
    assert!(matches!(p.stage, PollStage::Idle));
}

#[test]
fn poll_cycle_no_credentials() {
    let mut p = Poller::new(names());
    let mut s = snapshot_with(vec![window("session")]);
    p.step(&mut s, PollEvent::Wake, 1000);
    assert!(matches!(p.step(&mut s, PollEvent::Credentials(None), 1000), PollAction::Rest));
    assert_eq!(s.status, "needsAuth");
    assert_eq!(s.note, "No Quill Code credential found");
    assert_eq!(s.windows.len(), 1);
}

#[test]
fn poll_cycle_rate_limited_then_backs_off() {
    let mut p = Poller::new(names());
    let mut s = snapshot_with(vec![window("session")]);
    p.step(&mut s, PollEvent::Wake, 0);
    p.step(&mut s, PollEvent::Credentials(Some(("tok".to_string(), false))), 0);
    let a = p.step(&mut s, PollEvent::Fetched(Err(FetchErr::RateLimited(0))), 10_000);
    assert!(matches!(a, PollAction::Rest));
    assert_eq!(s.status, "stale");
    assert_eq!(s.note, "Rate limited, retrying in 60s");
    assert_eq!(s.backoff_until, 70_000);
    assert_eq!(s.windows.len(), 1);
    assert_eq!(p.consecutive_429, 1);
    // inside the window: pause, never read or fetch
    assert!(matches!(p.step(&mut s, PollEvent::Wake, 10_500), PollAction::Sleep(30)));
    assert!(matches!(p.step(&mut s, PollEvent::Wake, 69_900), PollAction::Sleep(1)));
    assert!(matches!(p.step(&mut s, PollEvent::Wake, 65_000), PollAction::Sleep(5)));
    // past it: a new cycle, and the next 429 doubles the wait
    assert!(matches!(p.step(&mut s, PollEvent::Wake, 70_000), PollAction::ReadCredentials));
    p.step(&mut s, PollEvent::Credentials(Some(("tok".to_string(), false))), 70_000);
    p.step(&mut s, PollEvent::Fetched(Err(FetchErr::RateLimited(0))), 70_000);
    assert_eq!(s.note, "Rate limited, retrying in 120s");
    assert_eq!(s.backoff_until, 190_000);
    assert_eq!(p.consecutive_429, 2);
}

#[test]
fn rate_limited_without_windows_keeps_status() {
    let mut p = Poller::new(names());
    let mut s = UsageSnapshot::default();
    p.step(&mut s, PollEvent::Wake, 0);
    p.step(&mut s, PollEvent::Credentials(Some(("tok".to_string(), false))), 0);
    p.step(&mut s, PollEvent::Fetched(Err(FetchErr::RateLimited(300))), 0);
    assert_eq!(s.status, "");
    assert_eq!(s.note, "Rate limited, retrying in 300s");
    assert_eq!(s.backoff_until, 300_000);
}

#[test]
fn other_failure_marks_error_or_stale() {
    let mut p = Poller::new(names());
    let mut s = UsageSnapshot::default();
    p.step(&mut s, PollEvent::Wake, 0);
    p.step(&mut s, PollEvent::Credentials(Some(("tok".to_string(), false))), 0);
    p.step(&mut s, PollEvent::Fetched(Err(FetchErr::Other("HTTP 500".to_string()))), 0);
    assert_eq!(s.status, "error");
    assert_eq!(s.note, "HTTP 500");

    let mut s = snapshot_with(vec![window("session")]);
    p.step(&mut s, PollEvent::Wake, 0);
    p.step(&mut s, PollEvent::Credentials(Some(("tok".to_string(), false))), 0);
    p.step(&mut s, PollEvent::Fetched(Err(FetchErr::Other("timeout".to_string()))), 0);
    assert_eq!(s.status, "stale");
    assert_eq!(s.note, "timeout");
    assert_eq!(s.fetched_at, 7);
}

#[test]
fn refused_token_is_retried_once_with_a_new_one() {
    let mut p = Poller::new(names());
    let mut s = UsageSnapshot::default();
    p.step(&mut s, PollEvent::Wake, 0);
    p.step(&mut s, PollEvent::Credentials(Some(("old".to_string(), false))), 0);
    let a = p.step(&mut s, PollEvent::Fetched(Err(FetchErr::NeedsAuth)), 0);
    assert!(matches!(a, PollAction::ReadCredentials));
    let a = p.step(&mut s, PollEvent::Credentials(Some(("new".to_string(), false))), 0);
    assert!(matches!(a, PollAction::Fetch(ref t) if t == "new"));
    let a = p.step(&mut s, PollEvent::Fetched(Err(FetchErr::NeedsAuth)), 0);
    assert!(matches!(a, PollAction::Rest));
    assert_eq!(s.status, "needsAuth");
    assert_eq!(s.note, "Credential rejected (switched accounts?)");
}

#[test]
fn refused_token_unchanged_means_needs_auth() {
    let mut p = Poller::new(names());
    let mut s = UsageSnapshot::default();
    p.step(&mut s, PollEvent::Wake, 0);
    p.step(&mut s, PollEvent::Credentials(Some(("same".to_string(), true))), 0);
    p.step(&mut s, PollEvent::Fetched(Err(FetchErr::NeedsAuth)), 0);
    let a = p.step(&mut s, PollEvent::Credentials(Some(("same".to_string(), false))), 0);
    assert!(matches!(a, PollAction::Rest));
    assert_eq!(s.status, "needsAuth");
    assert_eq!(
        s.note,
        "Credential expired — run any quill command (or chat with Quill) to refresh it"
    );
}

#[test]
fn retried_token_success() {
    let mut p = Poller::new(names());
    p.consecutive_429 = 3;
    let mut s = UsageSnapshot::default();
    p.step(&mut s, PollEvent::Wake, 0);
    p.step(&mut s, PollEvent::Credentials(Some(("old".to_string(), false))), 0);
    p.step(&mut s, PollEvent::Fetched(Err(FetchErr::NeedsAuth)), 0);
    p.step(&mut s, PollEvent::Credentials(Some(("new".to_string(), false))), 0);
    p.step(&mut s, PollEvent::Fetched(Ok(vec![])), 5);
    assert_eq!(s.status, "ok");
    assert_eq!(p.consecutive_429, 0);
}

#[test]
fn unexpected_event_ends_cycle() {
    let mut p = Poller::new(names());
    let mut s = snapshot_with(vec![window("x")]);
    let a = p.step(&mut s, PollEvent::Fetched(Ok(vec![])), 0);
    assert!(matches!(a, PollAction::Rest));
    assert_eq!(s.windows.len(), 1);
    assert_eq!(s.status, "ok");
    assert!(matches!(p.stage, PollStage::Idle));
}

#[test]
fn poll_interval_depends_on_activity() {
    assert_eq!(poll_interval_secs(true), 60);
    assert_eq!(poll_interval_secs(false), 300);
}

#[test]
fn refresh_flag_is_taken_once() {
    let mut f = RefreshFlag::new();
    assert!(!f.take());
    request_refresh(&mut f);
    assert!(f.take());
    assert!(!f.take());
}

#[test]
fn restart_labels_old_reading_stale() {
    let s = load_persisted(Some(snapshot_with(vec![window("session")])));
    assert_eq!(s.status, "stale");
    assert_eq!(s.windows.len(), 1);
    let s = load_persisted(Some(snapshot_with(vec![])));
    assert_eq!(s.status, "ok");
    let s = load_persisted(None);
    assert_eq!(s.status, "");
    assert!(s.windows.is_empty());
    assert_eq!(s.backoff_until, 0);
}

#[test]
fn clearing_backoff_keeps_the_rest() {
    let mut s = snapshot_with(vec![window("session")]);
    s.backoff_until = 99_000;
    codenotch_win::poll::clear_backoff(&mut s);
    assert_eq!(s.backoff_until, 0);
    assert_eq!(s.status, "ok");
    assert_eq!(s.windows.len(), 1);
    let mut p = Poller::new(names());
    assert!(matches!(p.step(&mut s, PollEvent::Wake, 1), PollAction::ReadCredentials));
}

#[test]
fn reply_body_is_read_or_reported() {
    let r = read_reply(r#"{"five_hour":{"utilization":50.0,"resets_at":"2026-09-13T15:00:00Z"}}"#);
    match r {
        Ok(w) => {
            assert_eq!(w.len(), 1);
            assert_eq!(w[0].id, "session");
            assert_eq!(w[0].used, 500_000_000_000_000_000);
        }
        Err(_) => panic!("a JSON body should be read"),
    }
    match read_reply("not json") {
        Err(FetchErr::Other(m)) => {
            assert!(m.starts_with("parse: "));
            assert_eq!(&m[7..], serde_json::from_str::<serde_json::Value>("not json").unwrap_err().to_string());
        }
        _ => panic!("a body that is not JSON should fail"),
    }
}
