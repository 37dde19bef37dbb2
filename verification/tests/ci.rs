use repoharbor::cache::CiEntry;
use repoharbor::ci::{apply_results, build_jobs, facts, Outcome};
use repoharbor::inbox::CiStatus;
use repoharbor::model::{Activity, GitStatus, Host, Repo};

fn sample(id: &str, host: Host, domain: &str, slug: &str) -> Repo {
    Repo {
        id: id.to_string(),
        display_name: "Test".into(),
        slug: Some(slug.into()),
        path: "~/dev/test".into(),
        description: None,
        language: Some("Rust".into()),
        git: GitStatus::default(),
        last_commit_unix: 0,
        activity: Activity::Active,
        root: "~/dev".into(),
        host: Some(host),
        remote_host: Some(domain.into()),
        stars: 0,
        topics: Vec::new(),
        open_issues: 0,
        latest_release: None,
        private: false,
        favorite: false,
        ai_summary: None,
        parent_id: None,
        submodule_path: None,
    }
}

fn key(domain: &str, slug: &str) -> (String, String) {
    (domain.into(), slug.into())
}

#[test]
fn build_jobs_takes_github_repos_only() {
    let gitlab = sample("/gl", Host::Gitlab, "gitlab.com", "o/gl");
    let no_slug = Repo { slug: None, ..sample("/ns", Host::Github, "github.com", "o/ns") };
    let no_host = Repo { host: None, ..sample("/nh", Host::Github, "github.com", "o/nh") };
    let gh = sample("/gh", Host::Github, "github.com", "o/gh");
    let jobs = build_jobs(&[gitlab, no_slug, no_host, gh], &[]);
    assert_eq!(jobs, vec![("github.com".into(), "o/gh".into(), "/gh".into())]);
}

#[test]
fn build_jobs_dedupes_and_skips_fresh() {
    let repos = [
        sample("/a", Host::Github, "github.com", "o/test"),
        sample("/a-fork", Host::Github, "github.com", "o/test"),
        sample("/b", Host::Github, "github.com", "o/fresh"),
        sample("/c", Host::Github, "github.com", "o/stale"),
    ];
    let fresh = vec![key("github.com", "o/fresh")];
    let jobs = build_jobs(&repos, &fresh);
    assert_eq!(
        jobs,
        vec![
            ("github.com".into(), "o/test".into(), "/a".into()),
            ("github.com".into(), "o/stale".into(), "/c".into()),
        ]
    );
}

#[test]
fn errors_do_not_clobber_cached_state() {
    let (outcome, writes) = apply_results(vec![Err("GitHub CI 401 Unauthorized".into())]);
    assert_eq!(outcome.updated, 0);
    assert_eq!(outcome.errors, 1);
    assert_eq!(outcome.last_error.as_deref(), Some("GitHub CI 401 Unauthorized"));
    assert!(outcome.all_failed());
    assert!(writes.is_empty(), "Err must not overwrite state");
}

#[test]
fn ok_results_are_written_alongside_errors() {
    let (outcome, writes) = apply_results(vec![
        Ok((
            "github.com".into(),
            "o/red".into(),
            CiStatus { state: "failure".into(), url: Some("https://github.com/o/red/actions/runs/7".into()) },
        )),
        Err("GitHub CI 500".into()),
    ]);
    assert_eq!(outcome.updated, 1);
    assert_eq!(outcome.errors, 1);
    assert!(!outcome.all_failed(), "partial success is not a dead pass");
    assert_eq!(writes.len(), 1);
    assert_eq!((writes[0].0.as_str(), writes[0].1.as_str()), ("github.com", "o/red"));
    assert_eq!(writes[0].2.state, "failure");
    assert_eq!(writes[0].2.url.as_deref(), Some("https://github.com/o/red/actions/runs/7"));
}

#[test]
fn facts_cover_present_repos_only() {
    let states = vec![
        (
            key("github.com", "o/test"),
            CiEntry {
                state: "failure".into(),
                url: Some("https://github.com/o/test/actions/runs/2".into()),
                updated_at: 1_000,
            },
        ),
        (key("github.com", "o/deleted"), CiEntry { state: "failure".into(), url: None, updated_at: 1_000 }),
        (key("gitlab.acme.io", "o/test"), CiEntry { state: "failure".into(), url: None, updated_at: 1_000 }),
    ];
    let repos = [sample("/a", Host::Github, "github.com", "o/test")];
    let facts = facts(&states, &repos);
    assert_eq!(facts.len(), 1);
    assert_eq!(facts[0].remote_host, "github.com");
    assert_eq!(facts[0].slug, "o/test");
    assert_eq!(facts[0].state, "failure");
    assert_eq!(facts[0].url.as_deref(), Some("https://github.com/o/test/actions/runs/2"));
}

#[test]
fn an_empty_pass_is_not_a_failed_pass() {
    let (outcome, writes) = apply_results(vec![]);
    assert!(!outcome.all_failed());
    assert!(writes.is_empty());
    assert!(!Outcome::default().all_failed());
}
