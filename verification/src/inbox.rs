//! Cross-host "dev inbox" shapes and the pure mappings behind them: GitHub's
//! state vocabularies folded into RepoHarbor's four-state CI words, API URL
//! helpers, pagination, timestamps and error wording.
use vstd::prelude::*;

use crate::model::{opt_view, ref_view, Host};
use crate::oauth::{ci_forbidden_hint, forbidden_hint, GithubTokenSource};
use crate::text::{
    char_pos, char_pos_from, chars_of, clamp, clamp_chars, idec, lemma_char_pos_bound,
    parse_i64, parse_i64_chars, push_all, push_str, rfind, rfind_chars, lemma_rfind, occurs_at,
    slice_of, str_eq, string_from, join,
};

verus! {

/// One open PR, review request or assigned issue.
#[derive(Debug, Clone)]
pub struct InboxItem {
    /// "pr" | "review" | "issue"
    pub kind: String,
    pub title: String,
    pub repo: String,
    pub url: String,
    pub number: u64,
    pub draft: bool,
    pub host: Host,
}

/// One unread host notification.
#[derive(Debug, Clone)]
pub struct Notification {
    pub title: String,
    pub repo: String,
    pub reason: String,
    pub kind: String,
}

/// A repo on the host (e.g. one the user starred).
#[derive(Debug, Clone)]
pub struct RemoteRepo {
    pub slug: String,
    pub description: Option<String>,
    pub stars: u32,
    pub language: Option<String>,
    pub clone_url: String,
    pub host: Host,
}

/// Latest default-branch CI state of a repo.
#[derive(Debug, Clone)]
pub struct CiStatus {
    /// "success" | "failure" | "pending" | "none"
    pub state: String,
    /// The run's web page, when a run was found.
    pub url: Option<String>,
}

/// One entry in the activity feed.
#[derive(Debug, Clone)]
pub struct FeedItem {
    /// "release" | "starred" | "created" | "forked" | "public"
    pub kind: String,
    /// The followed user who did it; None for starred releases.
    pub actor: Option<String>,
    pub repo: String,
    pub title: String,
    pub tag: String,
    pub detail: String,
    pub url: String,
    pub timestamp: i64,
    pub prerelease: bool,
    pub host: Host,
}

/// One open PR with enough detail to decide whether to merge.
#[derive(Debug, Clone)]
pub struct PrDetail {
    pub number: u64,
    pub title: String,
    pub url: String,
    pub draft: bool,
    pub base: String,
    pub head: String,
    pub author: Option<String>,
    /// "clean" | "conflicting" | "unknown"
    pub mergeable: String,
    /// "approved" | "changes_requested" | "review_required" | "none"
    pub review_decision: String,
    /// Aggregate check rollup: "success" | "failure" | "pending" | "none"
    pub checks_state: String,
    pub checks: Vec<CheckRun>,
    pub reviews: Vec<PrReview>,
}

/// One status check / CI context on a PR's head commit.
#[derive(Debug, Clone)]
pub struct CheckRun {
    pub name: String,
    /// "success" | "failure" | "pending" | "neutral"
    pub state: String,
    pub url: Option<String>,
}

/// A submitted review that affects mergeability.
#[derive(Debug, Clone)]
pub struct PrReview {
    pub author: String,
    /// "approved" | "changes_requested"
    pub state: String,
}

/// A repo's open PRs plus the merge methods the repo permits.
#[derive(Debug, Clone)]
pub struct PrPanel {
    /// Subset of ["squash", "rebase", "merge"] allowed by repo settings.
    pub merge_methods: Vec<String>,
    pub prs: Vec<PrDetail>,
}


/// The `owner/name` part of a REST `repository_url`: what follows its last
/// `/repos/` (the whole URL when there is none).
pub open spec fn repo_of_url(u: Seq<char>) -> Seq<char> {
    match rfind(u, "/repos/"@) {
        Some(i) => u.skip(i + 7),
        None => u,
    }
}

pub fn repo_from_url(repository_url: &str) -> (r: String)
    ensures
        r@ == repo_of_url(repository_url@),
{
    let u = chars_of(repository_url);
    let pat = chars_of("/repos/");
    proof {
        reveal_strlit("/repos/");
        lemma_rfind(u@, pat@);
    }
    match rfind_chars(&u, &pat) {
        Some(i) => {
            assert(occurs_at(u@, pat@, i as int));
            let n = u.len();
            string_from(&slice_of(&u, i + 7, n))
        },
        None => string_from(&u),
    }
}

/// Whether a just-fetched page suggests more results exist: a full page may
/// have a successor, a short (or empty) page is the last one.
pub fn page_may_have_more(page_len: usize, per_page: usize) -> (r: bool)
    ensures
        r == (page_len >= per_page),
{
    page_len >= per_page
}

/// Split an `owner/name` slug at its first `/`.
pub fn split_slug(slug: &str) -> (r: Result<(&str, &str), String>)
    ensures
        match r {
            Ok((a, b)) => char_pos(slug@, '/') < slug@.len() && a@ == slug@.take(
                char_pos(slug@, '/') as int,
            ) && b@ == slug@.skip(char_pos(slug@, '/') + 1 as int),
            Err(e) => char_pos(slug@, '/') == slug@.len() && e@ == "not an owner/name slug: "@
                + slug@,
        },
{
    let c = chars_of(slug);
    let i = char_pos_from(&c, '/', 0);
    proof {
        assert(c@.skip(0) =~= c@);
        lemma_char_pos_bound(slug@, '/');
    }
    let n = slug.unicode_len();
    if i == n {
        let mut v: Vec<char> = Vec::new();
        push_str(&mut v, "not an owner/name slug: ");
        push_all(&mut v, &c);
        return Err(string_from(&v));
    }
    Ok((slug.substring_char(0, i), slug.substring_char(i + 1, n)))
}

/// GitHub's StatusState rollup in RepoHarbor's four-state vocabulary.
pub open spec fn rollup_of(s: Seq<char>) -> Seq<char> {
    if s == "SUCCESS"@ {
        "success"@
    } else if s == "FAILURE"@ || s == "ERROR"@ {
        "failure"@
    } else if s == "PENDING"@ || s == "EXPECTED"@ {
        "pending"@
    } else {
        "none"@
    }
}

/// Map GitHub's StatusState rollup enum to the four-state vocabulary.
pub fn rollup_state(s: &str) -> (r: &'static str)
    ensures
        r@ == rollup_of(s@),
{
    if str_eq(s, "SUCCESS") {
        "success"
    } else if str_eq(s, "FAILURE") || str_eq(s, "ERROR") {
        "failure"
    } else if str_eq(s, "PENDING") || str_eq(s, "EXPECTED") {
        "pending"
    } else {
        "none"
    }
}

/// The rollup vocabulary: GitHub's two failing states, FAILURE and ERROR,
/// both read as "failure"; only SUCCESS reads as "success"; PENDING and
/// EXPECTED read as "pending"; every other state reads as "none".
pub proof fn law_rollup_vocabulary(s: Seq<char>)
    ensures
        rollup_of(s) == "failure"@ <==> (s == "FAILURE"@ || s == "ERROR"@),
        rollup_of(s) == "success"@ <==> s == "SUCCESS"@,
        rollup_of(s) == "pending"@ <==> (s == "PENDING"@ || s == "EXPECTED"@),
        rollup_of(s) == "none"@ <==> !(s == "SUCCESS"@ || s == "FAILURE"@ || s == "ERROR"@
            || s == "PENDING"@ || s == "EXPECTED"@),
{
    reveal_strlit("failure");
    reveal_strlit("success");
    reveal_strlit("pending");
    reveal_strlit("none");
    reveal_strlit("SUCCESS");
    reveal_strlit("FAILURE");
    reveal_strlit("ERROR");
    reveal_strlit("PENDING");
    reveal_strlit("EXPECTED");
    assert("failure"@[0] != "success"@[0] && "failure"@[0] != "pending"@[0] && "failure"@[0] != "none"@[0]);
    assert("success"@[0] != "pending"@[0] && "success"@[0] != "none"@[0] && "pending"@[0] != "none"@[0]);
    assert("SUCCESS"@[0] != "FAILURE"@[0] && "SUCCESS"@[0] != "ERROR"@[0] && "SUCCESS"@[0] != "PENDING"@[0]);
    assert("SUCCESS"@[0] != "EXPECTED"@[0] && "FAILURE"@[0] != "ERROR"@[0] && "FAILURE"@[0] != "PENDING"@[0]);
    assert("FAILURE"@[0] != "EXPECTED"@[0] && "ERROR"@[0] != "PENDING"@[0] && "ERROR"@.len() != "EXPECTED"@.len());
    assert("PENDING"@[0] != "EXPECTED"@[0]);
}

/// An optional string equal to `lit`.
pub open spec fn is_lit(o: Option<Seq<char>>, lit: Seq<char>) -> bool {
    o == Some(lit)
}

fn is_lit_exec(o: Option<&str>, lit: &str) -> (r: bool)
    ensures
        r == is_lit(ref_view(o), lit@),
{
    match o {
        Some(x) => str_eq(x, lit),
        None => false,
    }
}

/// A CheckRun's (status, conclusion) in the check vocabulary.
pub open spec fn check_run_of(status: Option<Seq<char>>, conclusion: Option<Seq<char>>) -> Seq<char> {
    if !is_lit(status, "COMPLETED"@) {
        "pending"@
    } else if is_lit(conclusion, "SUCCESS"@) {
        "success"@
    } else if is_lit(conclusion, "FAILURE"@) || is_lit(conclusion, "TIMED_OUT"@) || is_lit(
        conclusion,
        "STARTUP_FAILURE"@,
    ) || is_lit(conclusion, "CANCELLED"@) || is_lit(conclusion, "ACTION_REQUIRED"@) {
        "failure"@
    } else if is_lit(conclusion, "NEUTRAL"@) || is_lit(conclusion, "SKIPPED"@) {
        "neutral"@
    } else {
        "pending"@
    }
}

/// Map a CheckRun's (status, conclusion) to the check vocabulary.
pub fn check_run_state(status: Option<&str>, conclusion: Option<&str>) -> (r: &'static str)
    ensures
        r@ == check_run_of(ref_view(status), ref_view(conclusion)),
{
    if !is_lit_exec(status, "COMPLETED") {
        return "pending";
    }
    if is_lit_exec(conclusion, "SUCCESS") {
        "success"
    } else if is_lit_exec(conclusion, "FAILURE") || is_lit_exec(conclusion, "TIMED_OUT")
        || is_lit_exec(conclusion, "STARTUP_FAILURE") || is_lit_exec(conclusion, "CANCELLED")
        || is_lit_exec(conclusion, "ACTION_REQUIRED") {
        "failure"
    } else if is_lit_exec(conclusion, "NEUTRAL") || is_lit_exec(conclusion, "SKIPPED") {
        "neutral"
    } else {
        "pending"
    }
}

/// A legacy commit-status StatusState in the four-state vocabulary.
pub open spec fn status_context_of(s: Option<Seq<char>>) -> Seq<char> {
    if is_lit(s, "SUCCESS"@) {
        "success"@
    } else if is_lit(s, "FAILURE"@) || is_lit(s, "ERROR"@) {
        "failure"@
    } else {
        "pending"@
    }
}

/// Map a legacy commit-status StatusState to the four-state vocabulary.
pub fn status_context_state(s: Option<&str>) -> (r: &'static str)
    ensures
        r@ == status_context_of(ref_view(s)),
{
    if is_lit_exec(s, "SUCCESS") {
        "success"
    } else if is_lit_exec(s, "FAILURE") || is_lit_exec(s, "ERROR") {
        "failure"
    } else {
        "pending"
    }
}

/// A workflow run's REST (status, conclusion) in the four-state vocabulary.
pub open spec fn workflow_run_of(status: Seq<char>, conclusion: Option<Seq<char>>) -> Seq<char> {
    if status != "completed"@ {
        "pending"@
    } else if is_lit(conclusion, "success"@) {
        "success"@
    } else if is_lit(conclusion, "failure"@) || is_lit(conclusion, "timed_out"@) || is_lit(
        conclusion,
        "startup_failure"@,
    ) {
        "failure"@
    } else {
        "none"@
    }
}

/// Map a workflow run's REST (status, conclusion) to the four-state vocabulary.
pub fn workflow_run_state(status: &str, conclusion: Option<&str>) -> (r: &'static str)
    ensures
        r@ == workflow_run_of(status@, ref_view(conclusion)),
{
    if !str_eq(status, "completed") {
        return "pending";
    }
    if is_lit_exec(conclusion, "success") {
        "success"
    } else if is_lit_exec(conclusion, "failure") || is_lit_exec(conclusion, "timed_out")
        || is_lit_exec(conclusion, "startup_failure") {
        "failure"
    } else {
        "none"
    }
}

/// How a non-2xx answer of the workflow-runs endpoint is reported. `status`
/// is the HTTP code and `status_text` its display form ("403 Forbidden");
/// `source` and `client_id` select the 403 hint.
pub open spec fn ci_error_of(
    status: u16,
    status_text: Seq<char>,
    rate_remaining: Option<Seq<char>>,
    body_msg: Option<Seq<char>>,
    source: Option<GithubTokenSource>,
    client_id: Seq<char>,
) -> Option<Seq<char>> {
    if status == 404 {
        None
    } else if status == 429 || (status == 403 && is_lit(rate_remaining, "0"@)) {
        Some("GitHub CI rate limited — try again later"@)
    } else if status == 401 {
        Some("GitHub CI 401 — reconnect GitHub in Settings"@)
    } else if status == 403 {
        Some(forbidden_hint(source, client_id))
    } else if body_msg matches Some(m) && m.len() > 0 {
        Some("GitHub CI "@ + status_text + ": "@ + body_msg->0)
    } else {
        Some("GitHub CI "@ + status_text)
    }
}

/// How a non-2xx from the workflow-runs endpoint is treated: 404 means no CI
/// to show (`None`); auth, permission, rate-limit and server failures are
/// errors the caller must see.
pub fn ci_error_for_status(
    status: u16,
    status_text: &str,
    rate_remaining: Option<&str>,
    body_msg: Option<&str>,
    source: Option<GithubTokenSource>,
    client_id: &str,
) -> (r: Option<String>)
    ensures
        match r {
            Some(e) => ci_error_of(
                status,
                status_text@,
                ref_view(rate_remaining),
                ref_view(body_msg),
                source,
                client_id@,
            ) == Some(e@),
            None => ci_error_of(
                status,
                status_text@,
                ref_view(rate_remaining),
                ref_view(body_msg),
                source,
                client_id@,
            ) is None,
        },
{
    if status == 404 {
        return None;
    }
    if status == 429 || (status == 403 && is_lit_exec(rate_remaining, "0")) {
        return Some(string_from(&chars_of("GitHub CI rate limited — try again later")));
    }
    if status == 401 {
        return Some(string_from(&chars_of("GitHub CI 401 — reconnect GitHub in Settings")));
    }
    if status == 403 {
        return Some(ci_forbidden_hint(source, client_id));
    }
    let mut v: Vec<char> = Vec::new();
    push_str(&mut v, "GitHub CI ");
    push_str(&mut v, status_text);
    match body_msg {
        Some(m) => {
            if m.unicode_len() > 0 {
                push_str(&mut v, ": ");
                push_str(&mut v, m);
            }
        },
        None => {},
    }
    Some(string_from(&v))
}

/// At most `max` characters, with an ellipsis when something was cut.
pub open spec fn truncated(s: Seq<char>, max: nat) -> Seq<char> {
    if s.len() > max {
        s.take(max as int) + "…"@
    } else {
        s
    }
}

/// Cut `s` to `max` characters plus an ellipsis when it is longer.
pub fn truncate(s: String, max: usize) -> (r: String)
    ensures
        r@ == truncated(s@, max as nat),
{
    let c = chars_of(s.as_str());
    if c.len() > max {
        let mut t = slice_of(&c, 0, max);
        push_str(&mut t, "…");
        string_from(&t)
    } else {
        s
    }
}


/// Whether the first 19 characters exist and are ASCII.
pub open spec fn ascii_head19(s: Seq<char>) -> bool {
    s.len() >= 19 && forall|k: int| 0 <= k < 19 ==> (#[trigger] s[k] as u32) < 128
}

/// `(if y2 >= 0 { y2 } else { y2 - 399 }) / 400` with Rust's truncating division.
pub open spec fn era_of(y2: int) -> int {
    if y2 >= 0 {
        y2 / 400
    } else {
        -((399 - y2) / 400)
    }
}

/// Seconds since 1970-01-01T00:00:00Z of a civil UTC date-time (Hinnant's
/// days-from-civil).
pub open spec fn epoch_secs(y: int, mo: int, d: int, h: int, mi: int, se: int) -> int {
    let y2 = if mo <= 2 {
        y - 1
    } else {
        y
    };
    let era = era_of(y2);
    let yoe = y2 - era * 400;
    let mp = if mo > 2 {
        mo - 3
    } else {
        mo + 9
    };
    let doy = (153 * mp + 2) / 5 + d - 1;
    let doe = yoe * 365 + yoe / 4 - yoe / 100 + doy;
    let days = era * 146097 + doe - 719468;
    days * 86400 + h * 3600 + mi * 60 + se
}

/// Unix seconds of an ISO-8601 UTC timestamp ("2024-01-15T10:30:00Z"): the
/// six numeric fields at their fixed offsets, each as `str::parse::<i64>`.
pub open spec fn iso_secs(s: Seq<char>) -> Option<int> {
    if !ascii_head19(s) {
        None
    } else {
        match (
            parse_i64(s.subrange(0, 4)),
            parse_i64(s.subrange(5, 7)),
            parse_i64(s.subrange(8, 10)),
            parse_i64(s.subrange(11, 13)),
            parse_i64(s.subrange(14, 16)),
            parse_i64(s.subrange(17, 19)),
        ) {
            (Some(y), Some(mo), Some(d), Some(h), Some(mi), Some(se)) => Some(
                epoch_secs(y, mo, d, h, mi, se),
            ),
            _ => None,
        }
    }
}

fn field(c: &[char], a: usize, b: usize) -> (r: Option<i64>)
    requires
        a <= b <= c@.len(),
        b - a == 2 || b - a == 4,
    ensures
        match r {
            Some(v) => parse_i64(c@.subrange(a as int, b as int)) == Some(v as int) && (b - a == 2
                ==> -10 < v < 100) && (b - a == 4 ==> -1000 < v < 10000),
            None => parse_i64(c@.subrange(a as int, b as int)) is None,
        },
{
    let f = slice_of(c, a, b);
    let r = parse_i64_chars(&f);
    proof {
        if let Some(v) = r {
            lemma_parse_i64_short(f@);
        }
    }
    r
}

proof fn lemma_digits_bound(s: Seq<char>)
    requires
        crate::text::all_digits(s),
    ensures
        crate::text::digits_val(s) < crate::text::pow10(s.len()),
    decreases s.len(),
{
    if s.len() > 0 {
        let t = s.drop_last();
        assert(crate::text::all_digits(t)) by {
            assert forall|k: int| 0 <= k < t.len() implies crate::text::is_digit(#[trigger] t[k]) by {
                assert(t[k] == s[k]);
            }
        }
        lemma_digits_bound(t);
        assert(crate::text::is_digit(s[s.len() - 1]));
    }
}

proof fn lemma_parse_i64_short(s: Seq<char>)
    requires
        s.len() == 2 || s.len() == 4,
        parse_i64(s) is Some,
    ensures
        s.len() == 2 ==> -10 < parse_i64(s)->0 < 100,
        s.len() == 4 ==> -1000 < parse_i64(s)->0 < 10000,
{
    reveal_with_fuel(crate::text::pow10, 5);
    assert(crate::text::pow10(1) == 10);
    assert(crate::text::pow10(2) == 100);
    assert(crate::text::pow10(3) == 1000);
    assert(crate::text::pow10(4) == 10000);
    if s.len() > 0 && s[0] == '-' {
        lemma_digits_bound(s.drop_first());
    } else if s.len() > 0 && s[0] == '+' {
        lemma_digits_bound(s.drop_first());
    } else {
        lemma_digits_bound(s);
    }
}

/// Unix seconds from an ISO-8601 UTC timestamp ("2024-01-15T10:30:00Z").
pub fn parse_iso8601(s: &str) -> (r: Option<i64>)
    ensures
        match r {
            Some(v) => iso_secs(s@) == Some(v as int),
            None => iso_secs(s@) is None,
        },
{
    let c = chars_of(s);
    if c.len() < 19 {
        return None;
    }
    let mut k: usize = 0;
    while k < 19
        invariant
            c@ == s@,
            c@.len() >= 19,
            k <= 19,
            forall|m: int| 0 <= m < k ==> (#[trigger] c@[m] as u32) < 128,
        decreases 19 - k,
    {
        if (c[k] as u32) >= 128 {
            return None;
        }
        k = k + 1;
    }
    let y = match field(&c, 0, 4) {
        Some(v) => v,
        None => return None,
    };
    let mo = match field(&c, 5, 7) {
        Some(v) => v,
        None => return None,
    };
    let d = match field(&c, 8, 10) {
        Some(v) => v,
        None => return None,
    };
    let h = match field(&c, 11, 13) {
        Some(v) => v,
        None => return None,
    };
    let mi = match field(&c, 14, 16) {
        Some(v) => v,
        None => return None,
    };
    let se = match field(&c, 17, 19) {
        Some(v) => v,
        None => return None,
    };
    let y2: i64 = if mo <= 2 {
        y - 1
    } else {
        y
    };
    let era: i64 = if y2 >= 0 {
        ((y2 as u64) / 400) as i64
    } else {
        -(((399 - y2) as u64 / 400) as i64)
    };
    assert(era == era_of(y2 as int));
    assert(-4 <= era <= 25) by (nonlinear_arith)
        requires
            era == era_of(y2 as int),
            -1001 <= y2 <= 9999,
    ;
    let yoe: i64 = y2 - era * 400;
    assert(0 <= yoe < 400) by (nonlinear_arith)
        requires
            era == era_of(y2 as int),
            yoe == y2 - era * 400,
            -1001 <= y2 <= 9999,
    ;
    let mp: i64 = if mo > 2 {
        mo - 3
    } else {
        mo + 9
    };
    let q: i64 = ((153 * mp + 2) as u64 / 5) as i64;
    assert(q == (153 * mp + 2) / 5);
    assert(0 <= q <= 3000) by (nonlinear_arith)
        requires
            q == (153 * mp + 2) / 5,
            0 <= mp <= 96,
    ;
    let doy: i64 = q + d - 1;
    let q4: i64 = ((yoe as u64) / 4) as i64;
    let q100: i64 = ((yoe as u64) / 100) as i64;
    assert(q4 == yoe / 4 && q100 == yoe / 100);
    assert(0 <= q4 <= 100 && 0 <= q100 <= 4) by (nonlinear_arith)
        requires
            q4 == yoe / 4,
            q100 == yoe / 100,
            0 <= yoe < 400,
    ;
    let doe: i64 = yoe * 365 + q4 - q100 + doy;
    let days: i64 = era * 146097 + doe - 719468;
    assert(-3000000 <= days <= 4000000) by (nonlinear_arith)
        requires
            -4 <= era <= 25,
            -1000000 <= doe <= 1000000,
            days == era * 146097 + doe - 719468,
    ;
    Some(days * 86400 + h * 3600 + mi * 60 + se)
}


// ───────────────────────────── PR action panel ─────────────────────────────

/// A check context on a PR's head commit as the GraphQL API reports it: a
/// `CheckRun` or a legacy `StatusContext`, fields optional per kind.
#[derive(Debug, Clone)]
pub struct RawContext {
    pub typename: String,
    pub name: Option<String>,
    pub conclusion: Option<String>,
    pub status: Option<String>,
    pub details_url: Option<String>,
    pub context: Option<String>,
    pub state: Option<String>,
    pub target_url: Option<String>,
}

/// The head commit's check rollup.
#[derive(Debug, Clone)]
pub struct RawRollup {
    pub state: Option<String>,
    pub contexts: Vec<RawContext>,
}

/// A submitted review (approval or change request).
#[derive(Debug, Clone)]
pub struct RawReview {
    pub author: Option<String>,
    pub state: String,
}

/// One open PR as the GraphQL API reports it.
#[derive(Debug, Clone)]
pub struct RawPr {
    pub number: u64,
    pub title: String,
    pub url: String,
    pub is_draft: bool,
    pub base_ref_name: String,
    pub head_ref_name: String,
    pub mergeable: Option<String>,
    pub review_decision: Option<String>,
    pub author: Option<String>,
    /// The check rollup of the PR's last commit, when it has one.
    pub rollup: Option<RawRollup>,
    pub reviews: Vec<RawReview>,
}

/// A repository's merge settings and open PRs as the GraphQL API reports them.
#[derive(Debug, Clone)]
pub struct RawPrRepo {
    pub merge_commit_allowed: bool,
    pub squash_merge_allowed: bool,
    pub rebase_merge_allowed: bool,
    pub prs: Vec<RawPr>,
}

/// An optional string, or empty.
pub open spec fn or_empty(o: Option<String>) -> Seq<char> {
    match o {
        Some(s) => s@,
        None => Seq::empty(),
    }
}

/// An optional string, or empty.
pub fn or_empty_pub(o: &Option<String>) -> (r: String)
    ensures
        r@ == or_empty(*o),
{
    or_empty_exec(o)
}

fn or_empty_exec(o: &Option<String>) -> (r: String)
    ensures
        r@ == or_empty(*o),
{
    match o {
        Some(s) => s.clone(),
        None => String::new(),
    }
}

fn as_ref_str(o: &Option<String>) -> (r: Option<&str>)
    ensures
        ref_view(r) == opt_view(*o),
{
    match o {
        Some(s) => Some(s.as_str()),
        None => None,
    }
}

/// (name, state, url) of a check.
pub open spec fn check_view(c: CheckRun) -> (Seq<char>, Seq<char>, Option<Seq<char>>) {
    (c.name@, c.state@, opt_view(c.url))
}

/// The check a context shows.
pub open spec fn check_of(c: RawContext) -> (Seq<char>, Seq<char>, Option<Seq<char>>) {
    if c.typename@ == "CheckRun"@ {
        (or_empty(c.name), check_run_of(opt_view(c.status), opt_view(c.conclusion)), opt_view(c.details_url))
    } else {
        (or_empty(c.context), status_context_of(opt_view(c.state)), opt_view(c.target_url))
    }
}

/// The check row for one context.
pub fn check_from(c: &RawContext) -> (r: CheckRun)
    ensures
        check_view(r) == check_of(*c),
{
    if str_eq(c.typename.as_str(), "CheckRun") {
        CheckRun {
            name: or_empty_exec(&c.name),
            state: string_from(
                &chars_of(check_run_state(as_ref_str(&c.status), as_ref_str(&c.conclusion))),
            ),
            url: crate::model::clone_opt(&c.details_url),
        }
    } else {
        CheckRun {
            name: or_empty_exec(&c.context),
            state: string_from(&chars_of(status_context_state(as_ref_str(&c.state)))),
            url: crate::model::clone_opt(&c.target_url),
        }
    }
}

/// `mergeable` in the panel's vocabulary.
pub open spec fn mergeable_of(m: Option<Seq<char>>) -> Seq<char> {
    if m == Some("MERGEABLE"@) {
        "clean"@
    } else if m == Some("CONFLICTING"@) {
        "conflicting"@
    } else {
        "unknown"@
    }
}

/// `reviewDecision` in the panel's vocabulary.
pub open spec fn review_decision_of(d: Option<Seq<char>>) -> Seq<char> {
    if d == Some("APPROVED"@) {
        "approved"@
    } else if d == Some("CHANGES_REQUESTED"@) {
        "changes_requested"@
    } else if d == Some("REVIEW_REQUIRED"@) {
        "review_required"@
    } else {
        "none"@
    }
}

/// (author, state) of a review.
pub open spec fn review_view(r: PrReview) -> (Seq<char>, Seq<char>) {
    (r.author@, r.state@)
}

/// The review row for a submitted review.
pub open spec fn review_of(r: RawReview) -> (Seq<char>, Seq<char>) {
    (
        or_empty(r.author),
        if r.state@ == "APPROVED"@ {
            "approved"@
        } else {
            "changes_requested"@
        },
    )
}

/// The aggregate check state of a PR: its rollup's state, or "none".
pub open spec fn checks_state_of(rollup: Option<RawRollup>) -> Seq<char> {
    match rollup {
        Some(r) => match r.state {
            Some(st) => rollup_of(st@),
            None => "none"@,
        },
        None => "none"@,
    }
}

/// The checks a PR shows: every context of its rollup, in order.
pub open spec fn checks_of(rollup: Option<RawRollup>) -> Seq<(Seq<char>, Seq<char>, Option<Seq<char>>)> {
    match rollup {
        Some(r) => r.contexts@.map_values(|c: RawContext| check_of(c)),
        None => Seq::empty(),
    }
}

/// The panel entry for one PR matches what the API reported.
pub open spec fn detail_matches(d: PrDetail, p: RawPr) -> bool {
    &&& d.number == p.number
    &&& d.title@ == p.title@
    &&& d.url@ == p.url@
    &&& d.draft == p.is_draft
    &&& d.base@ == p.base_ref_name@
    &&& d.head@ == p.head_ref_name@
    &&& opt_view(d.author) == opt_view(p.author)
    &&& d.mergeable@ == mergeable_of(opt_view(p.mergeable))
    &&& d.review_decision@ == review_decision_of(opt_view(p.review_decision))
    &&& d.checks_state@ == checks_state_of(p.rollup)
    &&& d.checks@.map_values(|c: CheckRun| check_view(c)) == checks_of(p.rollup)
    &&& d.reviews@.map_values(|r: PrReview| review_view(r)) == p.reviews@.map_values(
        |r: RawReview| review_of(r),
    )
}

fn mergeable_text(m: Option<&str>) -> (r: String)
    ensures
        r@ == mergeable_of(ref_view(m)),
{
    let t = if is_lit_exec(m, "MERGEABLE") {
        "clean"
    } else if is_lit_exec(m, "CONFLICTING") {
        "conflicting"
    } else {
        "unknown"
    };
    string_from(&chars_of(t))
}

fn review_decision_text(d: Option<&str>) -> (r: String)
    ensures
        r@ == review_decision_of(ref_view(d)),
{
    let t = if is_lit_exec(d, "APPROVED") {
        "approved"
    } else if is_lit_exec(d, "CHANGES_REQUESTED") {
        "changes_requested"
    } else if is_lit_exec(d, "REVIEW_REQUIRED") {
        "review_required"
    } else {
        "none"
    };
    string_from(&chars_of(t))
}

/// The panel entry for one open PR.
pub fn pr_detail(p: &RawPr) -> (r: PrDetail)
    ensures
        detail_matches(r, *p),
{
    let (checks_state, checks) = match &p.rollup {
        Some(rl) => {
            let st = match &rl.state {
                Some(x) => string_from(&chars_of(rollup_state(x.as_str()))),
                None => string_from(&chars_of("none")),
            };
            let mut cs: Vec<CheckRun> = Vec::new();
            let mut k: usize = 0;
            while k < rl.contexts.len()
                invariant
                    k <= rl.contexts@.len(),
                    cs@.map_values(|c: CheckRun| check_view(c)) == rl.contexts@.take(
                        k as int,
                    ).map_values(|c: RawContext| check_of(c)),
                decreases rl.contexts.len() - k,
            {
                let c = check_from(&rl.contexts[k]);
                proof {
                    assert(cs@.push(c).map_values(|c: CheckRun| check_view(c)) =~= cs@.map_values(
                        |c: CheckRun| check_view(c),
                    ).push(check_view(c)));
                    assert(rl.contexts@.take(k + 1).map_values(|c: RawContext| check_of(c))
                        =~= rl.contexts@.take(k as int).map_values(|c: RawContext| check_of(c)).push(
                        check_of(rl.contexts@[k as int]),
                    ));
                }
                cs.push(c);
                k = k + 1;
            }
            proof {
                assert(rl.contexts@.take(rl.contexts@.len() as int) =~= rl.contexts@);
            }
            (st, cs)
        },
        None => {
            let cs: Vec<CheckRun> = Vec::new();
            proof {
                assert(cs@.map_values(|c: CheckRun| check_view(c)) =~= Seq::<
                    (Seq<char>, Seq<char>, Option<Seq<char>>),
                >::empty());
            }
            (string_from(&chars_of("none")), cs)
        },
    };
    let mut reviews: Vec<PrReview> = Vec::new();
    let mut k: usize = 0;
    while k < p.reviews.len()
        invariant
            k <= p.reviews@.len(),
            reviews@.map_values(|r: PrReview| review_view(r)) == p.reviews@.take(k as int).map_values(
                |r: RawReview| review_of(r),
            ),
        decreases p.reviews.len() - k,
    {
        let raw = &p.reviews[k];
        let state = if str_eq(raw.state.as_str(), "APPROVED") {
            "approved"
        } else {
            "changes_requested"
        };
        let rv = PrReview { author: or_empty_exec(&raw.author), state: string_from(&chars_of(state)) };
        proof {
            assert(reviews@.push(rv).map_values(|r: PrReview| review_view(r)) =~= reviews@.map_values(
                |r: PrReview| review_view(r),
            ).push(review_view(rv)));
            assert(p.reviews@.take(k + 1).map_values(|r: RawReview| review_of(r)) =~= p.reviews@.take(
                k as int,
            ).map_values(|r: RawReview| review_of(r)).push(review_of(p.reviews@[k as int])));
        }
        reviews.push(rv);
        k = k + 1;
    }
    proof {
        assert(p.reviews@.take(p.reviews@.len() as int) =~= p.reviews@);
    }
    PrDetail {
        number: p.number,
        title: p.title.clone(),
        url: p.url.clone(),
        draft: p.is_draft,
        base: p.base_ref_name.clone(),
        head: p.head_ref_name.clone(),
        author: crate::model::clone_opt(&p.author),
        mergeable: mergeable_text(as_ref_str(&p.mergeable)),
        review_decision: review_decision_text(as_ref_str(&p.review_decision)),
        checks_state,
        checks,
        reviews,
    }
}

/// The merge methods a repo allows, in the order squash, rebase, merge.
pub open spec fn merge_methods_of(squash: bool, rebase: bool, merge: bool) -> Seq<Seq<char>> {
    (if squash {
        seq!["squash"@]
    } else {
        Seq::empty()
    }) + (if rebase {
        seq!["rebase"@]
    } else {
        Seq::empty()
    }) + (if merge {
        seq!["merge"@]
    } else {
        Seq::empty()
    })
}

/// The merge methods the repo permits.
pub fn merge_methods(squash: bool, rebase: bool, merge: bool) -> (r: Vec<String>)
    ensures
        crate::text::str_views(r@) == merge_methods_of(squash, rebase, merge),
{
    let mut v: Vec<String> = Vec::new();
    if squash {
        v.push(string_from(&chars_of("squash")));
    }
    if rebase {
        v.push(string_from(&chars_of("rebase")));
    }
    if merge {
        v.push(string_from(&chars_of("merge")));
    }
    proof {
        assert(crate::text::str_views(v@) =~= merge_methods_of(squash, rebase, merge));
    }
    v
}

/// A repo's PR panel: the merge methods it allows and every open PR.
pub fn pr_panel(repo: &RawPrRepo) -> (r: PrPanel)
    ensures
        crate::text::str_views(r.merge_methods@) == merge_methods_of(
            repo.squash_merge_allowed,
            repo.rebase_merge_allowed,
            repo.merge_commit_allowed,
        ),
        r.prs@.len() == repo.prs@.len(),
        forall|i: int| 0 <= i < r.prs@.len() ==> detail_matches(#[trigger] r.prs@[i], repo.prs@[i]),
{
    let methods = merge_methods(
        repo.squash_merge_allowed,
        repo.rebase_merge_allowed,
        repo.merge_commit_allowed,
    );
    let mut prs: Vec<PrDetail> = Vec::new();
    let mut k: usize = 0;
    while k < repo.prs.len()
        invariant
            k <= repo.prs@.len(),
            prs@.len() == k,
            forall|i: int| 0 <= i < k ==> detail_matches(#[trigger] prs@[i], repo.prs@[i]),
        decreases repo.prs.len() - k,
    {
        prs.push(pr_detail(&repo.prs[k]));
        k = k + 1;
    }
    PrPanel { merge_methods: methods, prs }
}

/// A merge method the API accepts, or why not.
pub fn merge_method(method: &str) -> (r: Result<String, String>)
    ensures
        (method@ == "squash"@ || method@ == "rebase"@ || method@ == "merge"@) ==> r
            == Ok::<String, String>(r->Ok_0) && r->Ok_0@ == method@,
        !(method@ == "squash"@ || method@ == "rebase"@ || method@ == "merge"@) ==> (r matches Err(
            e,
        ) && e@ == "invalid merge method: "@ + method@),
{
    if str_eq(method, "squash") || str_eq(method, "rebase") || str_eq(method, "merge") {
        Ok(string_from(&chars_of(method)))
    } else {
        let mut v = chars_of("invalid merge method: ");
        push_str(&mut v, method);
        Err(string_from(&v))
    }
}

/// An API failure message: the body's `message` when it has one, else the
/// fallback (`GitHub merge 405 …`).
pub fn api_failure_message(body_message: Option<String>, fallback: String) -> (r: String)
    ensures
        r@ == match body_message {
            Some(m) => m@,
            None => fallback@,
        },
{
    match body_message {
        Some(m) => m,
        None => fallback,
    }
}


// ───────────────────────────── activity feed ─────────────────────────────

/// Characters of release notes kept in a feed item.
pub const FEED_DETAIL_CHARS: usize = 320;
/// Items kept in the merged feed.
pub const FEED_MAX: usize = 80;

/// The fields of a feed item as plain values: kind, actor, repo, title, tag,
/// detail, url, timestamp, prerelease, host.
pub type FeedFields = (
    Seq<char>,
    Option<Seq<char>>,
    Seq<char>,
    Seq<char>,
    Seq<char>,
    Seq<char>,
    Seq<char>,
    i64,
    bool,
    Host,
);

/// The fields of a feed item as plain values.
pub open spec fn feed_view(f: FeedItem) -> FeedFields {
    (f.kind@, opt_view(f.actor), f.repo@, f.title@, f.tag@, f.detail@, f.url@, f.timestamp, f.prerelease, f.host)
}

pub open spec fn feed_views(v: Seq<FeedItem>) -> Seq<FeedFields> {
    v.map_values(|f: FeedItem| feed_view(f))
}

proof fn lemma_feed_views_push(v: Seq<FeedItem>, x: FeedItem)
    ensures
        feed_views(v.push(x)) == feed_views(v).push(feed_view(x)),
{
    assert(feed_views(v.push(x)) =~= feed_views(v).push(feed_view(x)));
}

/// A repo's latest release as the GraphQL API reports it.
#[derive(Debug, Clone)]
pub struct RawRelease {
    pub name: Option<String>,
    pub tag_name: String,
    pub url: String,
    pub published_at: Option<String>,
    pub description: Option<String>,
    pub prerelease: bool,
    pub draft: bool,
}

/// A starred repo with its latest release, if any.
#[derive(Debug, Clone)]
pub struct RawStarNode {
    pub name_with_owner: String,
    pub latest_release: Option<RawRelease>,
}

/// A release's display title: its name when not blank, else its tag.
pub open spec fn release_title(name: Option<String>, tag: Seq<char>) -> Seq<char> {
    match name {
        Some(n) => if crate::text::trim(n@).len() > 0 {
            n@
        } else {
            tag
        },
        None => tag,
    }
}

/// Unix seconds of an optional timestamp (0 when absent or unreadable).
pub open spec fn stamp_of(t: Option<String>) -> int {
    match t {
        Some(s) => match iso_secs(s@) {
            Some(v) => v,
            None => 0,
        },
        None => 0,
    }
}

fn release_title_exec(name: &Option<String>, tag: &String) -> (r: String)
    ensures
        r@ == release_title(*name, tag@),
{
    match name {
        Some(n) => if !crate::text::is_blank_chars(&chars_of(n.as_str())) {
            n.clone()
        } else {
            tag.clone()
        },
        None => tag.clone(),
    }
}

fn stamp_exec(t: &Option<String>) -> (r: i64)
    ensures
        r == stamp_of(*t),
{
    match t {
        Some(s) => match parse_iso8601(s.as_str()) {
            Some(v) => v,
            None => 0,
        },
        None => 0,
    }
}

/// The feed item a starred repo's latest release makes (drafts make none).
pub open spec fn release_feed_of(node: RawStarNode) -> Option<FeedFields> {
    match node.latest_release {
        None => None,
        Some(rel) => if rel.draft {
            None
        } else {
            Some(
                (
                    "release"@,
                    None,
                    node.name_with_owner@,
                    release_title(rel.name, rel.tag_name@),
                    rel.tag_name@,
                    truncated(or_empty(rel.description), FEED_DETAIL_CHARS as nat),
                    rel.url@,
                    stamp_of(rel.published_at) as i64,
                    rel.prerelease,
                    Host::Github,
                ),
            )
        },
    }
}

/// The feed items of starred repos' latest releases, in order.
pub open spec fn release_feed(nodes: Seq<RawStarNode>) -> Seq<FeedFields>
    decreases nodes.len(),
{
    if nodes.len() == 0 {
        Seq::empty()
    } else {
        let r = release_feed(nodes.drop_last());
        match release_feed_of(nodes.last()) {
            Some(f) => r.push(f),
            None => r,
        }
    }
}

/// The feed items of starred repos' latest releases, in order.
pub fn release_items(nodes: &[RawStarNode]) -> (r: Vec<FeedItem>)
    ensures
        feed_views(r@) == release_feed(nodes@),
{
    let mut out: Vec<FeedItem> = Vec::new();
    let mut k: usize = 0;
    proof {
        assert(nodes@.take(0) =~= Seq::<RawStarNode>::empty());
        assert(feed_views(out@) =~= Seq::<FeedFields>::empty());
    }
    while k < nodes.len()
        invariant
            k <= nodes@.len(),
            feed_views(out@) == release_feed(nodes@.take(k as int)),
        decreases nodes.len() - k,
    {
        proof {
            assert(nodes@.take(k + 1).drop_last() =~= nodes@.take(k as int));
            assert(nodes@.take(k + 1).last() == nodes@[k as int]);
        }
        let node = &nodes[k];
        match &node.latest_release {
            Some(rel) => {
                if !rel.draft {
                    let item = FeedItem {
                        kind: string_from(&chars_of("release")),
                        actor: None,
                        repo: node.name_with_owner.clone(),
                        title: release_title_exec(&rel.name, &rel.tag_name),
                        tag: rel.tag_name.clone(),
                        detail: truncate(or_empty_exec(&rel.description), FEED_DETAIL_CHARS),
                        url: rel.url.clone(),
                        timestamp: stamp_exec(&rel.published_at),
                        prerelease: rel.prerelease,
                        host: Host::Github,
                    };
                    proof {
                        lemma_feed_views_push(out@, item);
                    }
                    out.push(item);
                }
            },
            None => {},
        }
        k = k + 1;
    }
    proof {
        assert(nodes@.take(nodes@.len() as int) =~= nodes@);
    }
    out
}


/// The release carried by a `ReleaseEvent`.
#[derive(Debug, Clone)]
pub struct RawEventRelease {
    pub name: Option<String>,
    pub tag_name: Option<String>,
    pub html_url: Option<String>,
    pub body: Option<String>,
    pub prerelease: bool,
}

/// One "received event" of a followed user, as the REST API reports it
/// (`ref_type` and `release` come from its payload).
#[derive(Debug, Clone)]
pub struct RawEvent {
    pub kind: Option<String>,
    pub actor: Option<String>,
    pub repo: Option<String>,
    pub ref_type: Option<String>,
    pub release: Option<RawEventRelease>,
    pub created_at: Option<String>,
}

/// A plain action item (starred, created, forked, made public).
pub open spec fn action_fields(kind: Seq<char>, e: RawEvent, repo: Seq<char>) -> FeedFields {
    (
        kind,
        opt_view(e.actor),
        repo,
        Seq::empty(),
        Seq::empty(),
        Seq::empty(),
        "https://github.com/"@ + repo,
        stamp_of(e.created_at) as i64,
        false,
        Host::Github,
    )
}

/// The feed item a followed user's event makes: releases, stars, new
/// repositories, forks and repos made public; other events make none.
pub open spec fn event_feed_of(e: RawEvent) -> Option<FeedFields> {
    match e.repo {
        None => None,
        Some(r) => {
            let repo = r@;
            let k = opt_view(e.kind);
            if k == Some("ReleaseEvent"@) {
                match e.release {
                    Some(rel) => {
                        let tag = or_empty(rel.tag_name);
                        Some(
                            (
                                "release"@,
                                opt_view(e.actor),
                                repo,
                                release_title(rel.name, tag),
                                tag,
                                truncated(or_empty(rel.body), FEED_DETAIL_CHARS as nat),
                                match rel.html_url {
                                    Some(u) => u@,
                                    None => "https://github.com/"@ + repo,
                                },
                                stamp_of(e.created_at) as i64,
                                rel.prerelease,
                                Host::Github,
                            ),
                        )
                    },
                    None => None,
                }
            } else if k == Some("WatchEvent"@) {
                Some(action_fields("starred"@, e, repo))
            } else if k == Some("CreateEvent"@) && opt_view(e.ref_type) == Some("repository"@) {
                Some(action_fields("created"@, e, repo))
            } else if k == Some("ForkEvent"@) {
                Some(action_fields("forked"@, e, repo))
            } else if k == Some("PublicEvent"@) {
                Some(action_fields("public"@, e, repo))
            } else {
                None
            }
        },
    }
}

/// The feed items of followed users' events, in order.
pub open spec fn event_feed(events: Seq<RawEvent>) -> Seq<FeedFields>
    decreases events.len(),
{
    if events.len() == 0 {
        Seq::empty()
    } else {
        let r = event_feed(events.drop_last());
        match event_feed_of(events.last()) {
            Some(f) => r.push(f),
            None => r,
        }
    }
}

fn action_item(kind: &str, e: &RawEvent, repo: &String) -> (r: FeedItem)
    ensures
        feed_view(r) == action_fields(kind@, *e, repo@),
{
    let mut url = chars_of("https://github.com/");
    push_str(&mut url, repo.as_str());
    FeedItem {
        kind: string_from(&chars_of(kind)),
        actor: crate::model::clone_opt(&e.actor),
        repo: repo.clone(),
        title: String::new(),
        tag: String::new(),
        detail: String::new(),
        url: string_from(&url),
        timestamp: stamp_exec(&e.created_at),
        prerelease: false,
        host: Host::Github,
    }
}

/// The feed item one event makes, if any.
pub fn event_item(e: &RawEvent) -> (r: Option<FeedItem>)
    ensures
        match r {
            Some(f) => event_feed_of(*e) == Some(feed_view(f)),
            None => event_feed_of(*e) is None,
        },
{
    let repo = match &e.repo {
        None => return None,
        Some(r) => r,
    };
    let k = as_ref_str(&e.kind);
    if is_lit_exec(k, "ReleaseEvent") {
        match &e.release {
            Some(rel) => {
                let tag = or_empty_exec(&rel.tag_name);
                let url = match &rel.html_url {
                    Some(u) => u.clone(),
                    None => {
                        let mut v = chars_of("https://github.com/");
                        push_str(&mut v, repo.as_str());
                        string_from(&v)
                    },
                };
                Some(
                    FeedItem {
                        kind: string_from(&chars_of("release")),
                        actor: crate::model::clone_opt(&e.actor),
                        repo: repo.clone(),
                        title: release_title_exec(&rel.name, &tag),
                        tag,
                        detail: truncate(or_empty_exec(&rel.body), FEED_DETAIL_CHARS),
                        url,
                        timestamp: stamp_exec(&e.created_at),
                        prerelease: rel.prerelease,
                        host: Host::Github,
                    },
                )
            },
            None => None,
        }
    } else if is_lit_exec(k, "WatchEvent") {
        Some(action_item("starred", e, repo))
    } else if is_lit_exec(k, "CreateEvent") && is_lit_exec(as_ref_str(&e.ref_type), "repository") {
        Some(action_item("created", e, repo))
    } else if is_lit_exec(k, "ForkEvent") {
        Some(action_item("forked", e, repo))
    } else if is_lit_exec(k, "PublicEvent") {
        Some(action_item("public", e, repo))
    } else {
        None
    }
}

/// Activity from the people you follow, as feed items in event order.
pub fn following_items(events: &[RawEvent]) -> (r: Vec<FeedItem>)
    ensures
        feed_views(r@) == event_feed(events@),
{
    let mut out: Vec<FeedItem> = Vec::new();
    let mut k: usize = 0;
    proof {
        assert(events@.take(0) =~= Seq::<RawEvent>::empty());
        assert(feed_views(out@) =~= Seq::<FeedFields>::empty());
    }
    while k < events.len()
        invariant
            k <= events@.len(),
            feed_views(out@) == event_feed(events@.take(k as int)),
        decreases events.len() - k,
    {
        proof {
            assert(events@.take(k + 1).drop_last() =~= events@.take(k as int));
            assert(events@.take(k + 1).last() == events@[k as int]);
        }
        match event_item(&events[k]) {
            Some(item) => {
                proof {
                    lemma_feed_views_push(out@, item);
                }
                out.push(item);
            },
            None => {},
        }
        k = k + 1;
    }
    proof {
        assert(events@.take(events@.len() as int) =~= events@);
    }
    out
}

// ───────────────────────────── merging the feed ─────────────────────────────

/// Where an item with timestamp `t` goes in a newest-first list: before the
/// first one (at or after `j`) that is older.
pub open spec fn feed_pos(s: Seq<FeedFields>, t: i64, j: int) -> int
    decreases s.len() - j,
{
    if j < 0 || j >= s.len() {
        s.len() as int
    } else if s[j].7 < t {
        j
    } else {
        feed_pos(s, t, j + 1)
    }
}

/// Feed items newest first (stable on equal timestamps).
pub open spec fn newest_feed(v: Seq<FeedFields>) -> Seq<FeedFields>
    decreases v.len(),
{
    if v.len() == 0 {
        Seq::empty()
    } else {
        let r = newest_feed(v.drop_last());
        r.insert(feed_pos(r, v.last().7, 0), v.last())
    }
}

/// Whether some item of `s` has the url `u`.
pub open spec fn has_url(s: Seq<FeedFields>, u: Seq<char>) -> bool {
    exists|i: int| 0 <= i < s.len() && (#[trigger] s[i]).6 == u
}

/// The first item for each url, in order.
pub open spec fn unique_urls(v: Seq<FeedFields>) -> Seq<FeedFields>
    decreases v.len(),
{
    if v.len() == 0 {
        Seq::empty()
    } else {
        let r = unique_urls(v.drop_last());
        if has_url(r, v.last().6) {
            r
        } else {
            r.push(v.last())
        }
    }
}

/// The merged feed: newest first, one item per url, at most `FEED_MAX`.
pub open spec fn merged_feed(items: Seq<FeedFields>) -> Seq<FeedFields> {
    let u = unique_urls(newest_feed(items));
    if u.len() > FEED_MAX {
        u.take(FEED_MAX as int)
    } else {
        u
    }
}

proof fn lemma_feed_pos(s: Seq<FeedFields>, t: i64, j: int)
    requires
        0 <= j <= s.len(),
    ensures
        j <= feed_pos(s, t, j) <= s.len(),
    decreases s.len() - j,
{
    if j < s.len() && s[j].7 >= t {
        lemma_feed_pos(s, t, j + 1);
    }
}

fn has_url_exec(v: &Vec<FeedItem>, u: &str) -> (r: bool)
    ensures
        r == has_url(feed_views(v@), u@),
{
    let mut k: usize = 0;
    while k < v.len()
        invariant
            k <= v@.len(),
            forall|m: int| 0 <= m < k ==> v@[m].url@ != u@,
        decreases v.len() - k,
    {
        if str_eq(v[k].url.as_str(), u) {
            proof {
                assert(feed_views(v@)[k as int].6 == u@);
            }
            return true;
        }
        k = k + 1;
    }
    proof {
        if has_url(feed_views(v@), u@) {
            let m = choose|m: int| 0 <= m < feed_views(v@).len() && (#[trigger] feed_views(v@)[m]).6 == u@;
            assert(v@[m].url@ == u@);
        }
    }
    false
}

/// The unified feed from its sources: every source's items newest first,
/// one per url, at most `FEED_MAX`; an error only when nothing came back and
/// some source failed (the failures joined by "; ").
pub fn merge_feed(sources: Vec<Result<Vec<FeedItem>, String>>) -> (r: Result<Vec<FeedItem>, String>)
    ensures
        match r {
            Ok(items) => feed_views(items@) == merged_feed(source_items(sources@)),
            Err(e) => source_items(sources@).len() == 0 && source_errors(sources@).len() > 0
                && e@ == join(source_errors(sources@), "; "@),
        },
        r is Err <==> (source_items(sources@).len() == 0 && source_errors(sources@).len() > 0),
{
    let ghost srcs = sources@;
    let mut items: Vec<FeedItem> = Vec::new();
    let mut errors: Vec<String> = Vec::new();
    let mut rest = sources;
    let mut k: usize = 0;
    let n = rest.len();
    proof {
        assert(srcs.take(0) =~= Seq::<Result<Vec<FeedItem>, String>>::empty());
        assert(feed_views(items@) =~= Seq::<FeedFields>::empty());
        assert(crate::text::str_views(errors@) =~= Seq::<Seq<char>>::empty());
        assert(srcs.skip(0) =~= srcs);
    }
    while k < n
        invariant
            n == srcs.len(),
            k <= n,
            rest@ == srcs.skip(k as int),
            feed_views(items@) == source_items(srcs.take(k as int)),
            crate::text::str_views(errors@) == source_errors(srcs.take(k as int)),
        decreases n - k,
    {
        proof {
            assert(srcs.take(k + 1).drop_last() =~= srcs.take(k as int));
            assert(srcs.take(k + 1).last() == srcs[k as int]);
        }
        let src = rest.remove(0);
        proof {
            assert(src == srcs[k as int]);
            assert(rest@ =~= srcs.skip(k + 1));
        }
        match src {
            Ok(mut list) => {
                let ghost before = feed_views(items@);
                let ghost lv = feed_views(list@);
                let mut m: usize = 0;
                let ln = list.len();
                proof {
                    assert(lv.take(0) =~= Seq::<FeedFields>::empty());
                    assert(before + lv.take(0) =~= before);
                    assert(list@.skip(0) =~= list@);
                }
                let ghost all_list = list@;
                while m < ln
                    invariant
                        ln == all_list.len(),
                        m <= ln,
                        lv == feed_views(all_list),
                        list@ == all_list.skip(m as int),
                        feed_views(items@) == before + lv.take(m as int),
                    decreases ln - m,
                {
                    let x = list.remove(0);
                    proof {
                        assert(x == all_list[m as int]);
                        assert(list@ =~= all_list.skip(m + 1));
                        lemma_feed_views_push(items@, x);
                        assert(lv.take(m + 1) =~= lv.take(m as int).push(feed_view(x)));
                    }
                    items.push(x);
                    m = m + 1;
                }
                proof {
                    assert(lv.take(ln as int) =~= lv);
                }
            },
            Err(e) => {
                proof {
                    assert(crate::text::str_views(errors@.push(e)) =~= crate::text::str_views(
                        errors@,
                    ).push(e@));
                }
                errors.push(e);
            },
        }
        k = k + 1;
    }
    proof {
        assert(srcs.take(n as int) =~= srcs);
    }
    if items.len() == 0 && errors.len() > 0 {
        return Err(crate::semantic::join_with(errors.as_slice(), "; "));
    }
    // newest first (stable)
    let ghost all = feed_views(items@);
    let mut sorted: Vec<FeedItem> = Vec::new();
    let ni = items.len();
    let mut k: usize = 0;
    let ghost all_items = items@;
    proof {
        assert(all.take(0) =~= Seq::<FeedFields>::empty());
        assert(feed_views(sorted@) =~= Seq::<FeedFields>::empty());
        assert(items@.skip(0) =~= items@);
    }
    while k < ni
        invariant
            ni == all_items.len(),
            k <= ni,
            all == feed_views(all_items),
            items@ == all_items.skip(k as int),
            feed_views(sorted@) == newest_feed(all.take(k as int)),
        decreases ni - k,
    {
        proof {
            assert(all.take(k + 1).drop_last() =~= all.take(k as int));
            assert(all.take(k + 1).last() == all[k as int]);
        }
        let x = items.remove(0);
        proof {
            assert(x == all_items[k as int]);
            assert(items@ =~= all_items.skip(k + 1));
        }
        let ghost sv = feed_views(sorted@);
        let mut p: usize = 0;
        while p < sorted.len() && sorted[p].timestamp >= x.timestamp
            invariant
                p <= sorted@.len(),
                sv == feed_views(sorted@),
                feed_pos(sv, x.timestamp, p as int) == feed_pos(sv, x.timestamp, 0),
            decreases sorted.len() - p,
        {
            p = p + 1;
        }
        proof {
            lemma_feed_pos(sv, x.timestamp, 0);
        }
        sorted.insert(p, x);
        proof {
            assert(feed_views(sorted@) =~= sv.insert(p as int, feed_view(x)));
        }
        k = k + 1;
    }
    proof {
        assert(all.take(ni as int) =~= all);
    }
    // one per url
    let ghost sorted_v = feed_views(sorted@);
    let mut uniq: Vec<FeedItem> = Vec::new();
    let ns = sorted.len();
    let ghost all_sorted = sorted@;
    let mut k: usize = 0;
    proof {
        assert(sorted_v.take(0) =~= Seq::<FeedFields>::empty());
        assert(feed_views(uniq@) =~= Seq::<FeedFields>::empty());
        assert(sorted@.skip(0) =~= sorted@);
    }
    while k < ns
        invariant
            ns == all_sorted.len(),
            k <= ns,
            sorted_v == feed_views(all_sorted),
            sorted@ == all_sorted.skip(k as int),
            feed_views(uniq@) == unique_urls(sorted_v.take(k as int)),
        decreases ns - k,
    {
        proof {
            assert(sorted_v.take(k + 1).drop_last() =~= sorted_v.take(k as int));
            assert(sorted_v.take(k + 1).last() == sorted_v[k as int]);
        }
        let x = sorted.remove(0);
        proof {
            assert(x == all_sorted[k as int]);
            assert(sorted@ =~= all_sorted.skip(k + 1));
        }
        if !has_url_exec(&uniq, x.url.as_str()) {
            proof {
                lemma_feed_views_push(uniq@, x);
            }
            uniq.push(x);
        }
        k = k + 1;
    }
    proof {
        assert(sorted_v.take(ns as int) =~= sorted_v);
    }
    let ghost u = feed_views(uniq@);
    uniq.truncate(FEED_MAX);
    proof {
        if u.len() > FEED_MAX {
            assert(feed_views(uniq@) =~= u.take(FEED_MAX as int));
        }
    }
    Ok(uniq)
}

/// The items of the sources that answered, in source order.
pub open spec fn source_items(sources: Seq<Result<Vec<FeedItem>, String>>) -> Seq<FeedFields>
    decreases sources.len(),
{
    if sources.len() == 0 {
        Seq::empty()
    } else {
        source_items(sources.drop_last()) + match sources.last() {
            Ok(v) => feed_views(v@),
            Err(_) => Seq::empty(),
        }
    }
}

/// The failures of the sources that failed, in source order.
pub open spec fn source_errors(sources: Seq<Result<Vec<FeedItem>, String>>) -> Seq<Seq<char>>
    decreases sources.len(),
{
    if sources.len() == 0 {
        Seq::empty()
    } else {
        let r = source_errors(sources.drop_last());
        match sources.last() {
            Ok(_) => r,
            Err(e) => r.push(e@),
        }
    }
}


// ───────────────────────────── search, notifications, CI ─────────────────────────────

/// Results per search page, and pages fetched at most.
pub const SEARCH_PER_PAGE: usize = 50;
pub const SEARCH_MAX_PAGES: usize = 3;

/// One issue-search hit as the REST API reports it.
#[derive(Debug, Clone)]
pub struct RawSearchItem {
    pub title: String,
    pub html_url: String,
    pub number: u64,
    pub repository_url: String,
    pub draft: bool,
}

/// The inbox entry a search hit makes.
pub open spec fn search_entry_matches(it: InboxItem, raw: RawSearchItem, kind: Seq<char>) -> bool {
    &&& it.kind@ == kind
    &&& it.title@ == raw.title@
    &&& it.repo@ == repo_of_url(raw.repository_url@)
    &&& it.url@ == raw.html_url@
    &&& it.number == raw.number
    &&& it.draft == raw.draft
    &&& it.host == Host::Github
}

/// Inbox entries of one kind from a page of search hits, in order.
pub fn search_items(raw: &[RawSearchItem], kind: &str) -> (r: Vec<InboxItem>)
    ensures
        r@.len() == raw@.len(),
        forall|i: int| 0 <= i < r@.len() ==> search_entry_matches(#[trigger] r@[i], raw@[i], kind@),
{
    let mut out: Vec<InboxItem> = Vec::new();
    let mut k: usize = 0;
    while k < raw.len()
        invariant
            k <= raw@.len(),
            out@.len() == k,
            forall|i: int| 0 <= i < k ==> search_entry_matches(#[trigger] out@[i], raw@[i], kind@),
        decreases raw.len() - k,
    {
        let it = &raw[k];
        out.push(
            InboxItem {
                kind: string_from(&chars_of(kind)),
                title: it.title.clone(),
                repo: repo_from_url(it.repository_url.as_str()),
                url: it.html_url.clone(),
                number: it.number,
                draft: it.draft,
                host: Host::Github,
            },
        );
        k = k + 1;
    }
    out
}

/// The three inbox searches for a login, as (query, kind): authored open
/// PRs, open PRs awaiting the user's review, open issues assigned to them.
pub fn inbox_searches(login: &str) -> (r: Vec<(String, String)>)
    ensures
        r@.len() == 3,
        r@[0].0@ == "is:open is:pr author:"@ + login@ && r@[0].1@ == "pr"@,
        r@[1].0@ == "is:open is:pr review-requested:"@ + login@ && r@[1].1@ == "review"@,
        r@[2].0@ == "is:open is:issue assignee:"@ + login@ && r@[2].1@ == "issue"@,
{
    let mut q1 = chars_of("is:open is:pr author:");
    push_str(&mut q1, login);
    let mut q2 = chars_of("is:open is:pr review-requested:");
    push_str(&mut q2, login);
    let mut q3 = chars_of("is:open is:issue assignee:");
    push_str(&mut q3, login);
    let mut v: Vec<(String, String)> = Vec::new();
    v.push((string_from(&q1), string_from(&chars_of("pr"))));
    v.push((string_from(&q2), string_from(&chars_of("review"))));
    v.push((string_from(&q3), string_from(&chars_of("issue"))));
    v
}

/// The latest workflow run as the REST API reports it.
#[derive(Debug, Clone)]
pub struct RawRun {
    pub status: String,
    pub conclusion: Option<String>,
    pub html_url: Option<String>,
}

/// The CI status shown when there is nothing to show (no token, 404, no run).
pub fn ci_none() -> (r: CiStatus)
    ensures
        r.state@ == "none"@,
        r.url is None,
{
    CiStatus { state: string_from(&chars_of("none")), url: None }
}

/// The CI status of a repo from its latest workflow run (if any).
pub fn ci_status_from_run(run: Option<RawRun>) -> (r: CiStatus)
    ensures
        match run {
            Some(x) => r.state@ == workflow_run_of(x.status@, opt_view(x.conclusion)) && opt_view(
                r.url,
            ) == opt_view(x.html_url),
            None => r.state@ == "none"@ && r.url is None,
        },
{
    match run {
        Some(x) => {
            let st = workflow_run_state(x.status.as_str(), as_ref_str(&x.conclusion));
            CiStatus { state: string_from(&chars_of(st)), url: x.html_url }
        },
        None => ci_none(),
    }
}

} // verus!
