use codenotch_win::json::{parse_json_text, Json};
use codenotch_win::usage::{label_for, parse_response, LimitWindow};

/// Reads JSON text into the library's document model.
fn doc(text: &str) -> Json {
    parse_json_text(text).unwrap()
}

fn used(w: &LimitWindow) -> f64 {
    w.used as f64 / 1e18
}

#[test]
fn normal_limits_response() {
    let v = doc(r#"{
        "limits": [
            { "kind": "session", "percent": 42.5, "resets_at": "2026-09-13T12:00:00Z" },
            { "kind": "seven_day", "percent": 10.0, "resets_at": "2026-09-20T00:00:00Z" }
        ]
    }"#);
    let w = parse_response(&v);
    assert_eq!(w.len(), 2);
    assert_eq!(w[0].id, "session");
    assert!((used(&w[0]) - 0.425).abs() < 1e-9);
    assert_eq!(w[0].label, "Current session");
    assert!(w[0].resets_at.is_some());
    assert_eq!(w[1].id, "seven_day");
    assert!((used(&w[1]) - 0.10).abs() < 1e-9);
}

#[test]
fn normal_limits_with_fallback_dedup() {
    let v = doc(r#"{
        "limits": [
            { "kind": "weekly_all", "percent": 25.0, "resets_at": "2026-09-20T00:00:00Z" }
        ],
        "seven_day": { "utilization": 25.0, "resets_at": "2026-09-20T00:00:00Z" },
        "five_hour": { "utilization": 73.0, "resets_at": "2026-09-13T15:00:00Z" }
    }"#);
    let w = parse_response(&v);
    assert_eq!(w.len(), 2);
    let ids: Vec<&str> = w.iter().map(|x| x.id.as_str()).collect();
    assert!(ids.contains(&"weekly_all"));
    assert!(ids.contains(&"session"));
    assert!(!ids.contains(&"seven_day"));
}

#[test]
fn fallback_only_when_limits_empty() {
    let v = doc(r#"{
        "five_hour": { "utilization": 50.0, "resets_at": "2026-09-13T15:00:00Z" },
        "seven_day": { "utilization": 20.0, "resets_at": "2026-09-20T00:00:00Z" }
    }"#);
    let w = parse_response(&v);
    assert_eq!(w.len(), 2);
    assert_eq!(w[0].id, "session");
    assert!((used(&w[0]) - 0.5).abs() < 1e-9);
    assert_eq!(w[1].id, "seven_day");
}

#[test]
fn limits_missing_reset_is_skipped() {
    let v = doc(r#"{
        "limits": [
            { "kind": "session", "percent": 42.0, "resets_at": "not-a-date" },
            { "kind": "session", "percent": 42.0, "resets_at": "2026-09-13T12:00:00Z" }
        ]
    }"#);
    let w = parse_response(&v);
    assert_eq!(w.len(), 1);
    assert_eq!(w[0].id, "session");
}

#[test]
fn malformed_empty_object_yields_no_windows() {
    let v = doc("{}");
    let w = parse_response(&v);
    assert!(w.is_empty(), "empty object should not panic and should yield no windows");
}

#[test]
fn malformed_limits_not_array() {
    let v = doc(r#"{ "limits": "not-an-array" }"#);
    let w = parse_response(&v);
    assert!(w.is_empty());
}

#[test]
fn malformed_partial_limits_missing_fields() {
    let v = doc(r#"{
        "limits": [
            { "kind": "session" },
            { "percent": 50.0 },
            { "kind": "session", "percent": "not-a-number", "resets_at": "2026-09-13T12:00:00Z" },
            { "kind": "session", "percent": 50.0, "resets_at": "2026-09-13T12:00:00Z" }
        ]
    }"#);
    let w = parse_response(&v);
    assert_eq!(w.len(), 1);
    assert!((used(&w[0]) - 0.5).abs() < 1e-9);
}

#[test]
fn malformed_percent_clamped() {
    let v = doc(r#"{
        "limits": [
            { "kind": "session", "percent": 150.0, "resets_at": "2026-09-13T12:00:00Z" },
            { "kind": "seven_day", "percent": -10.0, "resets_at": "2026-09-13T12:00:00Z" }
        ]
    }"#);
    let w = parse_response(&v);
    assert_eq!(w.len(), 2);
    assert!((used(&w[0]) - 1.0).abs() < 1e-9);
    assert!((used(&w[1]) - 0.0).abs() < 1e-9);
}

#[test]
fn malformed_json_does_not_panic_on_invalid_reset() {
    let v = doc(r#"{"limits":[{"kind":"session","percent":42.5,"resets_at":null}]}"#);
    let w = parse_response(&v);
    assert!(w.is_empty());
}

#[test]
fn reset_time_is_read_in_milliseconds() {
    let v = doc(r#"{"limits":[{"kind":"session","percent":1,"resets_at":"2026-09-13T12:00:00Z"}]}"#);
    let w = parse_response(&v);
    assert_eq!(w[0].resets_at, Some(1_789_300_800_000));
}

#[test]
fn reset_before_epoch_counts_as_epoch() {
    let v = doc(r#"{"limits":[{"kind":"session","percent":1,"resets_at":"1969-12-31T23:59:59Z"}]}"#);
    let w = parse_response(&v);
    assert_eq!(w[0].resets_at, Some(0));
}

#[test]
fn session_window_moves_first() {
    let v = doc(r#"{"limits":[
        {"kind":"weekly_all","percent":5,"resets_at":"2026-09-20T00:00:00Z"},
        {"kind":"weekly_opus","percent":6,"resets_at":"2026-09-20T00:00:00Z"},
        {"kind":"session","percent":7,"resets_at":"2026-09-13T12:00:00Z"}
    ]}"#);
    let w = parse_response(&v);
    let ids: Vec<&str> = w.iter().map(|x| x.id.as_str()).collect();
    assert_eq!(ids, vec!["session", "weekly_all", "weekly_opus"]);
}

#[test]
fn fallback_with_same_reset_and_use_is_dropped() {
    // a limits kind unknown to the aliases and labels, same second and use within half a percent
    let v = doc(r#"{
        "limits": [{"kind":"weekly_scoped","percent":25.0,"resets_at":"2026-09-20T00:00:00.400Z"}],
        "seven_day": {"utilization": 25.4, "resets_at": "2026-09-20T00:00:00Z"}
    }"#);
    assert_eq!(parse_response(&v).len(), 1);
    let v = doc(r#"{
        "limits": [{"kind":"weekly_scoped","percent":25.0,"resets_at":"2026-09-20T00:00:00Z"}],
        "seven_day": {"utilization": 25.5, "resets_at": "2026-09-20T00:00:00Z"}
    }"#);
    assert_eq!(parse_response(&v).len(), 2);
}

#[test]
fn fallback_without_reset_is_kept() {
    let v = doc(r#"{"five_hour": {"utilization": 12.0}}"#);
    let w = parse_response(&v);
    assert_eq!(w.len(), 1);
    assert_eq!(w[0].id, "session");
    assert_eq!(w[0].resets_at, None);
    assert_eq!(w[0].label, "Current session");
}

#[test]
fn labels_for_known_and_unknown_kinds() {
    assert_eq!(label_for("session"), "Current session");
    assert_eq!(label_for("seven_day"), "Weekly (all models)");
    assert_eq!(label_for("weekly_all"), "Weekly (all models)");
    assert_eq!(label_for("seven_day_opus"), "Weekly (Opus)");
    assert_eq!(label_for("weekly_opus"), "Weekly (Opus)");
    assert_eq!(label_for("weekly_scoped"), "Weekly (model-scoped)");
    assert_eq!(label_for("monthly_team_seats"), "Monthly team seats");
    assert_eq!(label_for("_x"), " x");
    assert_eq!(label_for("élan"), "élan");
    assert_eq!(label_for(""), "");
}
