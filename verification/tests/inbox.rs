use repoharbor::inbox::{
    check_run_state, ci_error_for_status, page_may_have_more, parse_iso8601, repo_from_url,
    rollup_state, split_slug, status_context_state, truncate, workflow_run_state,
};
use repoharbor::oauth::GithubTokenSource;

#[test]
fn repo_from_url_extracts_owner_repo() {
    assert_eq!(repo_from_url("https://api.github.com/repos/acme/widget"), "acme/widget");
    assert_eq!(repo_from_url("https://api.github.com/repos/a/b"), "a/b");
}

#[test]
fn pagination_stops_on_short_page_and_continues_on_full_page() {
    assert!(page_may_have_more(50, 50));
    assert!(!page_may_have_more(49, 50));
    assert!(!page_may_have_more(0, 50));
    assert!(page_may_have_more(61, 60));
}

#[test]
fn split_slug_splits_owner_and_name() {
    assert_eq!(split_slug("acme/widget"), Ok(("acme", "widget")));
    assert!(split_slug("noslash").is_err());
}

#[test]
fn check_run_state_maps_status_and_conclusion() {
    assert_eq!(check_run_state(Some("IN_PROGRESS"), None), "pending");
    assert_eq!(check_run_state(Some("COMPLETED"), Some("SUCCESS")), "success");
    assert_eq!(check_run_state(Some("COMPLETED"), Some("FAILURE")), "failure");
    assert_eq!(check_run_state(Some("COMPLETED"), Some("CANCELLED")), "failure");
    assert_eq!(check_run_state(Some("COMPLETED"), Some("SKIPPED")), "neutral");
}

#[test]
fn rollup_and_status_context_states() {
    assert_eq!(rollup_state("SUCCESS"), "success");
    assert_eq!(rollup_state("ERROR"), "failure");
    assert_eq!(rollup_state("EXPECTED"), "pending");
    assert_eq!(status_context_state(Some("SUCCESS")), "success");
    assert_eq!(status_context_state(Some("ERROR")), "failure");
    assert_eq!(status_context_state(None), "pending");
}

#[test]
fn workflow_run_state_maps_status_and_conclusion() {
    assert_eq!(workflow_run_state("in_progress", None), "pending");
    assert_eq!(workflow_run_state("queued", Some("success")), "pending");
    assert_eq!(workflow_run_state("completed", Some("success")), "success");
    assert_eq!(workflow_run_state("completed", Some("failure")), "failure");
    assert_eq!(workflow_run_state("completed", Some("timed_out")), "failure");
    assert_eq!(workflow_run_state("completed", Some("startup_failure")), "failure");
    assert_eq!(workflow_run_state("completed", Some("cancelled")), "none");
    assert_eq!(workflow_run_state("completed", None), "none");
}

#[test]
fn ci_errors_surface_auth_and_rate_limit_but_not_missing_repo() {
    let src = Some(GithubTokenSource::EnvVar);
    assert_eq!(ci_error_for_status(404, "404 Not Found", None, None, src, ""), None);
    let unauthorized = ci_error_for_status(401, "401 Unauthorized", None, None, src, "").expect("401");
    assert!(unauthorized.contains("401"), "{unauthorized}");
    assert!(unauthorized.contains("reconnect"), "{unauthorized}");

    let forbidden = ci_error_for_status(403, "403 Forbidden", Some("42"), None, src, "").expect("403");
    assert!(forbidden.contains("403"), "{forbidden}");
    assert!(forbidden.contains("Actions") || forbidden.contains("SSO"), "{forbidden}");

    let rate_via_403 = ci_error_for_status(403, "403 Forbidden", Some("0"), None, src, "").expect("rate");
    assert!(rate_via_403.contains("rate limited"), "{rate_via_403}");

    let rate_429 = ci_error_for_status(429, "429 Too Many Requests", None, None, src, "").expect("429");
    assert!(rate_429.contains("rate limited"), "{rate_429}");

    for (status, text) in [(500u16, "500 Internal Server Error"), (502u16, "502 Bad Gateway")] {
        let err = ci_error_for_status(status, text, None, None, src, "").expect("must surface");
        assert!(err.contains(&status.to_string()), "{err}");
    }
    let with_body = ci_error_for_status(500, "500 Internal Server Error", None, Some("boom"), None, "").unwrap();
    assert_eq!(with_body, "GitHub CI 500 Internal Server Error: boom");
}

#[test]
fn truncate_cuts_by_characters_and_marks_the_cut() {
    assert_eq!(truncate("abcdef".to_string(), 3), "abc…");
    assert_eq!(truncate("abc".to_string(), 3), "abc");
}

#[test]
fn parse_iso8601_reads_utc_timestamps() {
    assert_eq!(parse_iso8601("1970-01-01T00:00:00Z"), Some(0));
    assert_eq!(parse_iso8601("2024-03-01T12:30:05Z"), Some(1709296205));
    assert_eq!(parse_iso8601("not a date"), None);
}
