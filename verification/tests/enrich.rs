use repoharbor::enrich::build_jobs;
use repoharbor::model::{Activity, GitStatus, Host, Repo};

fn sample(id: &str, host: Host, domain: &str, slug: &str) -> Repo {
    Repo {
        id: id.to_string(),
        display_name: "Test".into(),
        slug: Some(slug.into()),
        path: "~/dev/test".into(),
        description: None,
        language: None,
        git: GitStatus::default(),
        last_commit_unix: 0,
        activity: Activity::Active,
        root: "~/dev".into(),
        host: Some(host),
        remote_host: Some(domain.into()),
        stars: 0,
        topics: Vec::new(),
        open_issues: 0,
        latest_release: None,
        private: false,
        favorite: false,
        ai_summary: None,
        parent_id: None,
        submodule_path: None,
    }
}

fn key(domain: &str, slug: &str) -> (String, String) {
    (domain.into(), slug.into())
}

#[test]
fn same_slug_on_two_hosts_builds_two_jobs() {
    let repos = [
        sample("/a", Host::Github, "github.com", "o/test"),
        sample("/b", Host::Gitlab, "gitlab.acme.io", "o/test"),
    ];
    let jobs = build_jobs(&repos, &[]);
    assert_eq!(
        jobs,
        vec![
            (Host::Github, "github.com".into(), "o/test".into()),
            (Host::Gitlab, "gitlab.acme.io".into(), "o/test".into()),
        ]
    );
}

#[test]
fn dedupes_forks_of_the_same_remote() {
    let repos = [
        sample("/a", Host::Github, "github.com", "o/test"),
        sample("/a-fork", Host::Github, "github.com", "o/test"),
        sample("/b", Host::Github, "github.com", "o/other"),
    ];
    let jobs = build_jobs(&repos, &[]);
    assert_eq!(jobs.len(), 2);
    assert_eq!(jobs[0].2, "o/test");
    assert_eq!(jobs[1].2, "o/other");
}

#[test]
fn freshness_is_per_host_not_per_slug() {
    let repos = [
        sample("/a", Host::Github, "github.com", "o/test"),
        sample("/b", Host::Gitlab, "gitlab.acme.io", "o/test"),
    ];
    let fresh = vec![key("github.com", "o/test")];
    let jobs = build_jobs(&repos, &fresh);
    assert_eq!(jobs, vec![(Host::Gitlab, "gitlab.acme.io".into(), "o/test".into())]);
}

#[test]
fn fresh_entries_are_skipped() {
    let repos = [
        sample("/a", Host::Github, "github.com", "o/fresh"),
        sample("/b", Host::Github, "github.com", "o/stale"),
    ];
    let fresh = vec![key("github.com", "o/fresh")];
    let jobs = build_jobs(&repos, &fresh);
    assert_eq!(jobs, vec![(Host::Github, "github.com".into(), "o/stale".into())]);
}

#[test]
fn repos_without_host_or_slug_are_skipped() {
    let no_host = Repo { host: None, ..sample("/a", Host::Github, "github.com", "o/test") };
    let no_slug = Repo { slug: None, ..sample("/b", Host::Github, "github.com", "o/test") };
    assert!(build_jobs(&[no_host, no_slug], &[]).is_empty());
}

#[test]
fn missing_remote_host_falls_back_to_empty_domain() {
    let repo = Repo { remote_host: None, ..sample("/a", Host::Github, "github.com", "o/test") };
    let jobs = build_jobs(std::slice::from_ref(&repo), &[]);
    assert_eq!(jobs, vec![(Host::Github, String::new(), "o/test".into())]);
    let fresh = vec![key("", "o/test")];
    assert!(build_jobs(std::slice::from_ref(&repo), &fresh).is_empty());
}
