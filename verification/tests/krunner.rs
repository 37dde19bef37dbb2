use repoharbor::krunner::{is_known_repo, krunner_matches};
use repoharbor::model::{Activity, GitStatus, Repo};

fn repo(id: &str, name: &str, slug: Option<&str>) -> Repo {
    Repo {
        id: id.into(),
        display_name: name.into(),
        slug: slug.map(|s| s.to_string()),
        path: id.into(),
        description: None,
        language: None,
        git: GitStatus::default(),
        last_commit_unix: 0,
        activity: Activity::Active,
        root: "~".into(),
        host: None,
        remote_host: None,
        stars: 0,
        topics: vec![],
        open_issues: 0,
        latest_release: None,
        private: false,
        favorite: false,
        ai_summary: None,
        parent_id: None,
        submodule_path: None,
    }
}

#[test]
fn krunner_matches_name_slug_or_path_case_insensitively() {
    let repos = vec![
        repo("/dev/harbor", "RepoHarbor", Some("acme/harbor")),
        repo("/dev/other", "Other", None),
    ];
    let m = krunner_matches("  HARB ", &repos);
    assert_eq!(m, vec![("/dev/harbor".to_string(), "RepoHarbor  —  acme/harbor".to_string())]);
    let m = krunner_matches("other", &repos);
    assert_eq!(m, vec![("/dev/other".to_string(), "Other  —  /dev/other".to_string())]);
    assert!(krunner_matches("h", &repos).is_empty(), "one-byte queries match nothing");
}

#[test]
fn krunner_caps_matches_at_ten() {
    let repos: Vec<Repo> = (0..15).map(|i| repo(&format!("/dev/p{i}"), "proj", None)).collect();
    assert_eq!(krunner_matches("proj", &repos).len(), 10);
}

#[test]
fn only_known_repo_ids_are_run() {
    let repos = vec![repo("/dev/harbor", "RepoHarbor", None)];
    assert!(is_known_repo("/dev/harbor", &repos));
    assert!(!is_known_repo("/etc", &repos));
}
