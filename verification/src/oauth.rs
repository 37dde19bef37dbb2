//! GitHub token resolution and device-flow bookkeeping.
//!
//! Resolution order: a stored RepoHarbor OAuth token wins; after Sign out
//! nothing else is used; otherwise, when CLI/env fallback is allowed,
//! `$REPOHARBOR_GITHUB_TOKEN`, then `gh auth token`.
use vstd::prelude::*;

use crate::text::{chars_of, is_ascii_chars_exec, is_blank_chars, push_str, string_from, trim,
    trim_chars};

verus! {

/// Built-in OAuth app client id for the device flow.
pub const DEFAULT_GITHUB_CLIENT_ID: &'static str = "Ov23liQZt2ALfwxZbINW";

/// Where the token came from.
#[derive(Debug, Clone, Copy, PartialEq, Eq, Structural)]
pub enum GithubTokenSource {
    /// Device-flow token written by RepoHarbor.
    AppOAuth,
    /// `$REPOHARBOR_GITHUB_TOKEN`.
    EnvVar,
    /// `gh auth token` (machine-wide CLI session).
    GhCli,
}

impl GithubTokenSource {
    /// Short English label for Settings.
    pub fn label(self) -> (r: &'static str)
        ensures
            r@ == (match self {
                GithubTokenSource::AppOAuth => "RepoHarbor OAuth"@,
                GithubTokenSource::EnvVar => "REPOHARBOR_GITHUB_TOKEN"@,
                GithubTokenSource::GhCli => "`gh` CLI"@,
            }),
    {
        match self {
            GithubTokenSource::AppOAuth => "RepoHarbor OAuth",
            GithubTokenSource::EnvVar => "REPOHARBOR_GITHUB_TOKEN",
            GithubTokenSource::GhCli => "`gh` CLI",
        }
    }

    /// Whether this source is the RepoHarbor device-flow OAuth app.
    pub fn is_app_oauth(self) -> (r: bool)
        ensures
            r == (self == GithubTokenSource::AppOAuth),
    {
        match self {
            GithubTokenSource::AppOAuth => true,
            _ => false,
        }
    }
}

/// The client id in force: the configured one unless it is blank.
pub open spec fn client_id_of(configured: Seq<char>) -> Seq<char> {
    if trim(configured).len() == 0 {
        DEFAULT_GITHUB_CLIENT_ID@
    } else {
        configured
    }
}

/// The client id to use: the configured one if set, otherwise the built-in default.
pub fn github_client_id(configured: &str) -> (r: String)
    ensures
        r@ == client_id_of(configured@),
{
    let c = chars_of(configured);
    if is_blank_chars(&c) {
        string_from(&chars_of(DEFAULT_GITHUB_CLIENT_ID))
    } else {
        string_from(&c)
    }
}

/// GitHub "Authorized OAuth Apps" page for the client id in force.
pub fn github_oauth_app_settings_url(configured: &str) -> (r: String)
    ensures
        r@ == "https://github.com/settings/connections/applications/"@ + client_id_of(configured@),
{
    let id = github_client_id(configured);
    let mut v: Vec<char> = Vec::new();
    push_str(&mut v, "https://github.com/settings/connections/applications/");
    push_str(&mut v, id.as_str());
    string_from(&v)
}

/// A candidate that is present and non-empty.
pub open spec fn usable(o: Option<String>) -> bool {
    o matches Some(t) && t@.len() > 0
}

/// Token resolution: stored OAuth → (unless signed out, and only when the
/// CLI/env fallback is allowed) env → `gh`.
pub open spec fn resolution(
    stored: Option<String>,
    signed_out: bool,
    allow_cli: bool,
    env: Option<String>,
    cli: Option<String>,
) -> Option<(Seq<char>, GithubTokenSource)> {
    if usable(stored) {
        Some((stored->0@, GithubTokenSource::AppOAuth))
    } else if signed_out || !allow_cli {
        None
    } else if usable(env) {
        Some((env->0@, GithubTokenSource::EnvVar))
    } else if usable(cli) {
        Some((cli->0@, GithubTokenSource::GhCli))
    } else {
        None
    }
}

/// Pure token resolution over the gathered candidates.
pub fn resolve_github_token(
    stored: Option<String>,
    signed_out: bool,
    allow_cli: bool,
    env: Option<String>,
    cli: Option<String>,
) -> (r: Option<(String, GithubTokenSource)>)
    ensures
        match r {
            Some((t, s)) => resolution(stored, signed_out, allow_cli, env, cli) == Some((t@, s)),
            None => resolution(stored, signed_out, allow_cli, env, cli) is None,
        },
{
    if let Some(token) = stored {
        if token.as_str().unicode_len() > 0 {
            return Some((token, GithubTokenSource::AppOAuth));
        }
    }
    if signed_out {
        return None;
    }
    if !allow_cli {
        return None;
    }
    if let Some(token) = env {
        if token.as_str().unicode_len() > 0 {
            return Some((token, GithubTokenSource::EnvVar));
        }
    }
    if let Some(token) = cli {
        if token.as_str().unicode_len() > 0 {
            return Some((token, GithubTokenSource::GhCli));
        }
    }
    None
}

/// The hint shown when Actions answers 403 (not a rate limit), by token source.
pub open spec fn forbidden_hint(source: Option<GithubTokenSource>, configured: Seq<char>) -> Seq<char> {
    match source {
        Some(GithubTokenSource::AppOAuth) => "GitHub CI 403 — authorize org SSO for RepoHarbor at "@
            + "https://github.com/settings/connections/applications/"@ + client_id_of(configured)
            + " (or reconnect in Settings)"@,
        Some(_) => "GitHub CI 403 — token lacks Actions read. Prefer Connect with RepoHarbor in Settings, or grant Actions:read / classic `repo` on the PAT"@,
        None => "GitHub CI 403 — can't read Actions (reconnect in Settings, authorize org SSO, or grant Actions:read on a PAT)"@,
    }
}

/// Source-aware hint when Actions returns 403, for the resolved token
/// `source` and the configured client id.
pub fn ci_forbidden_hint(source: Option<GithubTokenSource>, configured_client_id: &str) -> (r: String)
    ensures
        r@ == forbidden_hint(source, configured_client_id@),
{
    match source {
        Some(GithubTokenSource::AppOAuth) => {
            let url = github_oauth_app_settings_url(configured_client_id);
            let mut v: Vec<char> = Vec::new();
            push_str(&mut v, "GitHub CI 403 — authorize org SSO for RepoHarbor at ");
            push_str(&mut v, url.as_str());
            push_str(&mut v, " (or reconnect in Settings)");
            proof {
                assert(v@ =~= forbidden_hint(source, configured_client_id@));
            }
            string_from(&v)
        },
        Some(_) => string_from(&chars_of("GitHub CI 403 — token lacks Actions read. Prefer Connect with RepoHarbor in Settings, or grant Actions:read / classic `repo` on the PAT")),
        None => string_from(&chars_of("GitHub CI 403 — can't read Actions (reconnect in Settings, authorize org SSO, or grant Actions:read on a PAT)")),
    }
}

/// The device flow's first step: the code the user enters at the URL.
#[derive(Debug, Clone)]
pub struct DeviceStart {
    pub user_code: String,
    pub verification_uri: String,
    pub device_code: String,
    pub interval: u64,
}

/// One device-flow poll result.
#[derive(Debug, Clone)]
pub struct PollResult {
    /// "authorized" | "authorization_pending" | "slow_down" | "expired_token" | "access_denied" | "error"
    pub status: String,
}

/// A well-formed access token: non-empty after trimming, ASCII, at most 255 bytes.
pub open spec fn token_ok(t: Seq<char>) -> bool {
    let s = trim(t);
    s.len() > 0 && (forall|k: int| 0 <= k < s.len() ==> (s[k] as u32) < 128) && s.len() <= 255
}

/// What one device-flow poll answer means: `Ok((status, Some(token)))` when an
/// access token arrived (the trimmed token is to be saved), `Ok((status, None))`
/// while waiting or on a reported error, and `Err` for a malformed token.
pub fn device_poll_outcome(access_token: Option<String>, error: Option<String>) -> (r: Result<
    (PollResult, Option<String>),
    String,
>)
    ensures
        match access_token {
            Some(t) => if token_ok(t@) {
                r matches Ok((p, Some(s))) && p.status@ == "authorized"@ && s@ == trim(t@)
            } else {
                r matches Err(e) && e@ == "received a malformed access token"@
            },
            None => r matches Ok((p, None)) && p.status@ == (match error {
                Some(e) => e@,
                None => "error"@,
            }),
        },
{
    match access_token {
        Some(t) => {
            let c = chars_of(t.as_str());
            let tr = trim_chars(&c);
            if tr.len() == 0 || !is_ascii_chars_exec(&tr) || tr.len() > 255 {
                return Err(string_from(&chars_of("received a malformed access token")));
            }
            Ok((PollResult { status: string_from(&chars_of("authorized")) }, Some(string_from(&tr))))
        },
        None => {
            let status = match error {
                Some(e) => e,
                None => string_from(&chars_of("error")),
            };
            Ok((PollResult { status }, None))
        },
    }
}

} // verus!
