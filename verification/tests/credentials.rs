use codenotch_win::credentials::{credentials_from_text, probe_credentials, CliNames};

#[test]
fn credentials_missing_file_returns_none() {
    let result = credentials_from_text("", 0);
    assert!(result.is_none());
}

#[test]
fn credentials_invalid_json_returns_none() {
    assert!(credentials_from_text("not json at all", 0).is_none());
    assert!(credentials_from_text(r#"{"claudeAiOauth": "not an object"}"#, 0).is_none());
}

#[test]
fn credentials_missing_access_token_returns_none() {
    let j = r#"{"claudeAiOauth":{"expiresAt": 9999999999999}}"#;
    assert!(credentials_from_text(j, 0).is_none());
    let j2 = r#"{"otherKey": 123}"#;
    assert!(credentials_from_text(j2, 0).is_none());
}

#[test]
fn credentials_valid_token_future_expiry() {
    let now: u64 = 1_700_000_000_000;
    let future = now + 3600_000;
    let j = format!(r#"{{"claudeAiOauth":{{"accessToken":"tok123","expiresAt":{future}}}}}"#);
    let res = credentials_from_text(&j, now).unwrap();
    assert_eq!(res.0, "tok123");
    assert!(!res.1, "future expiry should be not-expired");
}

#[test]
fn credentials_expired_token() {
    let now: u64 = 1_700_000_000_000;
    let past = now - 1000;
    let j = format!(r#"{{"claudeAiOauth":{{"accessToken":"tok123","expiresAt":{past}}}}}"#);
    let res = credentials_from_text(&j, now).unwrap();
    assert!(res.1, "past expiry should be marked expired");
}

#[test]
fn credentials_top_level_token_no_wrapper() {
    let now: u64 = 1_700_000_000_000;
    let j = r#"{"accessToken":"top-level-token","expiresAt": 9999999999999}"#;
    let res = credentials_from_text(j, now).unwrap();
    assert_eq!(res.0, "top-level-token");
}

#[test]
fn credentials_empty_token_is_invalid() {
    let j = r#"{"claudeAiOauth":{"accessToken":"","expiresAt": 9999999999999}}"#;
    assert!(credentials_from_text(j, 0).is_none());
}

#[test]
fn expiry_exactly_now_counts_as_expired() {
    let j = r#"{"accessToken":"t","expiresAt": 5000}"#;
    assert_eq!(credentials_from_text(j, 5000), Some(("t".to_string(), true)));
    assert_eq!(credentials_from_text(j, 4999), Some(("t".to_string(), false)));
}

#[test]
fn fractional_and_negative_expiry() {
    // the fraction of a millisecond is dropped; a time before the epoch is the epoch
    let j = r#"{"accessToken":"t","expiresAt": 5000.9}"#;
    assert_eq!(credentials_from_text(j, 5000), Some(("t".to_string(), true)));
    let j = r#"{"accessToken":"t","expiresAt": -7}"#;
    assert_eq!(credentials_from_text(j, 0), Some(("t".to_string(), true)));
}

#[test]
fn expiry_fraction_just_below_next_millisecond() {
    let j = r#"{"accessToken":"t","expiresAt": 5000.9999999}"#;
    assert_eq!(credentials_from_text(j, 5000), Some(("t".to_string(), true)));
    let j = r#"{"accessToken":"t","expiresAt": 1e30}"#;
    assert_eq!(credentials_from_text(j, u64::MAX), Some(("t".to_string(), true)));
    let j = r#"{"accessToken":"t","expiresAt": 1.5e3}"#;
    assert_eq!(credentials_from_text(j, 1499), Some(("t".to_string(), false)));
}

#[test]
fn non_numeric_expiry_is_not_expired() {
    let j = r#"{"accessToken":"t","expiresAt": "soon"}"#;
    assert_eq!(credentials_from_text(j, u64::MAX), Some(("t".to_string(), false)));
}

fn names() -> CliNames {
    CliNames { cli: "Quill Code".to_string(), command: "quill".to_string(), assistant: "Quill".to_string() }
}

#[test]
fn probe_reports_found_and_missing() {
    assert_eq!(
        probe_credentials(Some(("tok123".to_string(), false)), &names()),
        "credential: found (token 6 chars, valid)"
    );
    assert_eq!(
        probe_credentials(Some(("é".to_string(), true)), &names()),
        "credential: found (token 2 chars, expired — Quill Code refreshes it on its next use)"
    );
    assert_eq!(
        probe_credentials(None, &names()),
        "credential: ~/.quill/.credentials.json not found (needsAuth; the desktop app may use another store — signing in once with the Quill Code CLI creates it)"
    );
}
