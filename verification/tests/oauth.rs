use repoharbor::oauth::{
    ci_forbidden_hint, device_poll_outcome, github_client_id, github_oauth_app_settings_url,
    resolve_github_token, GithubTokenSource, DEFAULT_GITHUB_CLIENT_ID,
};

#[test]
fn resolve_prefers_stored_oauth() {
    let got = resolve_github_token(
        Some("oauth".into()),
        true,
        true,
        Some("env".into()),
        Some("cli".into()),
    );
    assert_eq!(got, Some(("oauth".into(), GithubTokenSource::AppOAuth)));
}

#[test]
fn resolve_signed_out_skips_fallbacks() {
    assert_eq!(
        resolve_github_token(None, true, true, Some("env".into()), Some("cli".into())),
        None
    );
}

#[test]
fn resolve_allow_cli_off_skips_fallbacks() {
    assert_eq!(
        resolve_github_token(None, false, false, Some("env".into()), Some("cli".into())),
        None
    );
}

#[test]
fn resolve_env_before_cli() {
    let got = resolve_github_token(None, false, true, Some("env".into()), Some("cli".into()));
    assert_eq!(got, Some(("env".into(), GithubTokenSource::EnvVar)));
}

#[test]
fn resolve_cli_when_no_env() {
    let got = resolve_github_token(None, false, true, None, Some("cli".into()));
    assert_eq!(got, Some(("cli".into(), GithubTokenSource::GhCli)));
}

#[test]
fn source_labels() {
    assert_eq!(GithubTokenSource::AppOAuth.label(), "RepoHarbor OAuth");
    assert_eq!(GithubTokenSource::EnvVar.label(), "REPOHARBOR_GITHUB_TOKEN");
    assert_eq!(GithubTokenSource::GhCli.label(), "`gh` CLI");
}

#[test]
fn empty_tokens_fall_through_to_the_next_source() {
    let got = resolve_github_token(Some(String::new()), false, true, Some(String::new()), Some("cli".into()));
    assert_eq!(got, Some(("cli".into(), GithubTokenSource::GhCli)));
}

#[test]
fn blank_client_id_uses_the_default_app() {
    assert_eq!(github_client_id("  "), DEFAULT_GITHUB_CLIENT_ID);
    assert_eq!(github_client_id("abc"), "abc");
    assert_eq!(
        github_oauth_app_settings_url("abc"),
        "https://github.com/settings/connections/applications/abc"
    );
}

#[test]
fn forbidden_hint_names_the_sso_page_for_app_tokens() {
    let h = ci_forbidden_hint(Some(GithubTokenSource::AppOAuth), "abc");
    assert!(h.contains("https://github.com/settings/connections/applications/abc"), "{h}");
    assert!(ci_forbidden_hint(Some(GithubTokenSource::EnvVar), "").contains("Actions read"));
    assert!(ci_forbidden_hint(None, "").contains("can't read Actions"));
}

#[test]
fn device_poll_outcome_trims_tokens_and_rejects_malformed_ones() {
    let (p, tok) = device_poll_outcome(Some("  gho_x  ".into()), None).unwrap();
    assert_eq!(p.status, "authorized");
    assert_eq!(tok.as_deref(), Some("gho_x"));
    assert!(device_poll_outcome(Some("   ".into()), None).is_err());
    assert!(device_poll_outcome(Some("tök".into()), None).is_err());
    let (p, tok) = device_poll_outcome(None, Some("slow_down".into())).unwrap();
    assert_eq!(p.status, "slow_down");
    assert!(tok.is_none());
    let (p, _) = device_poll_outcome(None, None).unwrap();
    assert_eq!(p.status, "error");
}
