use repoharbor::cache::{apply_host_info, apply_summaries, fresh_keys, is_fresh};
use repoharbor::model::{Activity, GitStatus, HostInfo, Repo};

fn sample(id: &str) -> Repo {
    Repo {
        id: id.to_string(),
        display_name: "Test".into(),
        slug: Some("o/test".into()),
        path: "~/dev/test".into(),
        description: None,
        language: Some("Rust".into()),
        git: GitStatus::default(),
        last_commit_unix: 0,
        activity: Activity::Active,
        root: "~/dev".into(),
        host: None,
        remote_host: None,
        stars: 0,
        topics: Vec::new(),
        open_issues: 0,
        latest_release: None,
        private: false,
        favorite: false,
        ai_summary: None,
        parent_id: None,
        submodule_path: None,
    }
}

fn key(domain: &str, slug: &str) -> (String, String) {
    (domain.into(), slug.into())
}

#[test]
fn fresh_ci_keys_filters_by_ttl() {
    let rows = vec![
        ("github.com".to_string(), "o/fresh".to_string(), 1_000),
        ("github.com".to_string(), "o/stale".to_string(), 100),
    ];
    let fresh = fresh_keys(&rows, 300, 1_200);
    assert!(fresh.contains(&key("github.com", "o/fresh")));
    assert!(!fresh.contains(&key("github.com", "o/stale")));
}

#[test]
fn apply_host_info_rehydrates_repo_from_cache() {
    let info = HostInfo {
        stars: 42,
        topics: vec!["cli".into()],
        open_issues: 3,
        latest_release: Some("v1.2.3".into()),
        private: true,
    };
    let cache = vec![(key("github.com", "o/test"), info)];
    let repos = vec![Repo { remote_host: Some("github.com".into()), ..sample("/a") }];
    let repos = apply_host_info(repos, &cache);
    assert!(repos[0].private);
    assert_eq!(repos[0].stars, 42);
    assert_eq!(repos[0].topics, vec!["cli".to_string()]);
    assert_eq!(repos[0].open_issues, 3);
    assert_eq!(repos[0].latest_release.as_deref(), Some("v1.2.3"));

    let other = vec![Repo {
        slug: Some("o/none".into()),
        remote_host: Some("github.com".into()),
        ..sample("/b")
    }];
    let other = apply_host_info(other, &cache);
    assert!(!other[0].private);
    assert_eq!(other[0].stars, 0);
}

#[test]
fn host_cache_keys_by_host_and_slug() {
    let public = HostInfo { stars: 42, private: false, ..HostInfo::default() };
    let private = HostInfo { stars: 0, private: true, ..HostInfo::default() };
    let cache = vec![(key("github.com", "o/test"), public), (key("gitlab.acme.io", "o/test"), private)];
    let repos = vec![
        Repo { remote_host: Some("github.com".into()), ..sample("/a") },
        Repo { remote_host: Some("gitlab.acme.io".into()), ..sample("/b") },
    ];
    let repos = apply_host_info(repos, &cache);
    assert!(!repos[0].private, "github repo must stay public");
    assert_eq!(repos[0].stars, 42);
    assert!(repos[1].private, "self-hosted repo must stay private");
    assert_eq!(repos[1].stars, 0);
}

#[test]
fn apply_summaries_only_for_current_commit() {
    let rows = vec![
        ("/a".to_string(), "fresh summary".to_string(), 5),
        ("/b".to_string(), "stale summary".to_string(), 1),
    ];
    let repos = vec![
        Repo { last_commit_unix: 5, ..sample("/a") },
        Repo { last_commit_unix: 9, ..sample("/b") },
    ];
    let repos = apply_summaries(repos, &rows);
    assert_eq!(repos[0].ai_summary.as_deref(), Some("fresh summary"));
    assert_eq!(repos[1].ai_summary, None, "stale summary must not apply");
}

#[test]
fn fresh_host_keys_filters_by_ttl() {
    let rows = vec![
        ("github.com".to_string(), "o/fresh".to_string(), 1_000),
        ("github.com".to_string(), "o/stale".to_string(), 100),
        ("gitlab.acme.io".to_string(), "o/fresh".to_string(), 100),
    ];
    let fresh = fresh_keys(&rows, 600, 1_500);
    assert!(fresh.contains(&key("github.com", "o/fresh")));
    assert!(!fresh.contains(&key("github.com", "o/stale")));
    assert!(!fresh.contains(&key("gitlab.acme.io", "o/fresh")));
}

#[test]
fn freshness_is_inclusive_at_the_ttl_and_saturates() {
    assert!(is_fresh(100, 50, 150));
    assert!(!is_fresh(100, 50, 151));
    assert!(!is_fresh(i64::MIN, 10, i64::MAX));
    assert!(is_fresh(i64::MAX, 0, i64::MIN));
}
