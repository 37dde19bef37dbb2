use repoharbor::scan::{scan_step, IgnoreSet, WalkStep};
use repoharbor::model::{Activity, Host};
use repoharbor::scan::{
    abbreviate, abbreviate_under, classify_activity, clean_markdown, expand, expand_under, extension_language, majority_language,
    parse_remote, read_readme, resolve_display_name, root_language, skip_dir, submodule_entries,
    submodule_paths, truncate, usable_readme_title, SubmoduleEntry,
};

#[test]
fn parse_remote_https_and_ssh_github() {
    assert_eq!(
        parse_remote("https://github.com/owner/repo.git"),
        (Some(Host::Github), Some("owner/repo".into()), Some("github.com".into()))
    );
    assert_eq!(
        parse_remote("git@github.com:owner/repo.git"),
        (Some(Host::Github), Some("owner/repo".into()), Some("github.com".into()))
    );
    assert_eq!(parse_remote("https://github.com/owner/repo").1, Some("owner/repo".into()));
}

#[test]
fn parse_remote_gitlab_including_self_hosted_and_nested() {
    assert_eq!(
        parse_remote("https://gitlab.com/group/proj.git"),
        (Some(Host::Gitlab), Some("group/proj".into()), Some("gitlab.com".into()))
    );
    let (host, _, domain) = parse_remote("ssh://git@gitlab.example.com/team/app.git");
    assert_eq!(host, Some(Host::Gitlab));
    assert_eq!(domain, Some("gitlab.example.com".into()));
    assert_eq!(parse_remote("https://gitlab.com/group/sub/proj.git").1, Some("sub/proj".into()));
}

#[test]
fn parse_remote_unknown_host_has_no_host_but_keeps_slug_and_domain() {
    assert_eq!(
        parse_remote("https://example.com/foo/bar.git"),
        (None, Some("foo/bar".into()), Some("example.com".into()))
    );
}

#[test]
fn clean_markdown_strips_emphasis_and_links() {
    assert_eq!(clean_markdown("**Bold** `code` _x_"), "Bold code x");
    assert_eq!(clean_markdown("[RepoHarbor](https://repoharbor.app) rocks"), "RepoHarbor rocks");
    assert_eq!(clean_markdown("[A](u1) and [B](u2)"), "A and B");
}

#[test]
fn usable_readme_title_accepts_short_project_names() {
    assert!(usable_readme_title("Next.js"));
    assert!(usable_readme_title("RepoHarbor"));
    assert!(usable_readme_title("Digits HR"));
    assert!(!usable_readme_title(""));
    assert!(!usable_readme_title(&"x".repeat(41)));
    assert!(!usable_readme_title("digitshr Modules Overview"));
    assert!(!usable_readme_title("Digits Tools Modules Overview"));
    assert!(!usable_readme_title("Legal Notice & Ownership — إشعار قانوني وتحذير ملكية"));
    assert!(!usable_readme_title("Something Legal Notice Here"));
    assert!(!usable_readme_title("Fleet overview"));
}

#[test]
fn resolve_display_name_prefers_name_like_readme_then_remote_then_dir() {
    assert_eq!(resolve_display_name(Some("Next.js".into()), Some("vercel/next.js"), "next"), "Next.js");
    assert_eq!(
        resolve_display_name(Some("digitshr Modules Overview".into()), Some("owner/digits_hr"), "digits_hr"),
        "digits_hr"
    );
    assert_eq!(
        resolve_display_name(Some("Legal Notice & Ownership — إشعار قانوني".into()), Some("owner/uac"), "uac"),
        "uac"
    );
    assert_eq!(
        resolve_display_name(Some("Digits Tools Modules Overview".into()), None, "digits_tools"),
        "digits_tools"
    );
    assert_eq!(resolve_display_name(None, None, "local-only"), "local-only");
}

#[test]
fn read_readme_title_still_extracted_but_may_be_rejected_for_display() {
    let (title, desc) = read_readme("# digitshr Modules Overview\n\nHR addons for Odoo.\n");
    assert_eq!(title.as_deref(), Some("digitshr Modules Overview"));
    assert_eq!(desc.as_deref(), Some("HR addons for Odoo."));
    assert_eq!(resolve_display_name(title, Some("owner/digits_hr"), "digits_hr"), "digits_hr");
}

#[test]
fn truncate_adds_ellipsis_only_when_needed() {
    assert_eq!(truncate("abc", 5), "abc");
    assert_eq!(truncate("abcdef", 3), "abc…");
}

#[test]
fn classify_activity_buckets() {
    let now = 1_000_000_000;
    assert_eq!(classify_activity(0, now), Activity::Stale);
    assert_eq!(classify_activity(now - 3600, now), Activity::Active);
    assert_eq!(classify_activity(now - 10 * 24 * 3600, now), Activity::Idle);
    assert_eq!(classify_activity(now - 40 * 24 * 3600, now), Activity::Stale);
    assert_eq!(classify_activity(now - 7 * 24 * 3600, now), Activity::Idle);
    assert_eq!(classify_activity(now - 30 * 24 * 3600, now), Activity::Stale);
}

#[test]
fn expand_and_abbreviate_round_trip_home() {
    let home = "/home/tester";
    assert_eq!(expand_under("~/dev/x", Some(home)), "/home/tester/dev/x");
    assert_eq!(expand_under("/abs/path", Some(home)), "/abs/path");
    assert_eq!(abbreviate_under("/home/tester/dev/x", Some(home)), "~/dev/x");
    assert_eq!(abbreviate_under("/elsewhere", Some(home)), "/elsewhere");
    assert_eq!(expand_under("~", Some(home)), "/home/tester");
    assert_eq!(expand_under("~/x", None), "~/x");
    if let Some(real) = dirs::home_dir() {
        let real = real.to_string_lossy().into_owned();
        assert_eq!(expand("~/dev/x"), format!("{real}/dev/x"));
        assert_eq!(abbreviate(&format!("{real}/dev/x")), "~/dev/x");
    }
    assert_eq!(expand("/abs/path"), "/abs/path");
}

#[test]
fn detect_language_prefers_manifests() {
    assert_eq!(root_language(&["Cargo.toml".to_string()]), Some("Rust".into()));
    assert_eq!(root_language(&["package.json".to_string()]), Some("JavaScript".into()));
    assert_eq!(
        root_language(&["package.json".to_string(), "tsconfig.json".to_string()]),
        Some("TypeScript".into())
    );
    assert_eq!(root_language(&["README.md".to_string()]), None);
}

#[test]
fn detect_language_falls_back_to_extensions() {
    let langs: Vec<String> = ["py", "py", "js"]
        .iter()
        .filter_map(|e| extension_language(e))
        .collect();
    assert_eq!(majority_language(&langs), Some("Python".into()));
    assert_eq!(majority_language(&[]), None);
}

#[test]
fn detect_language_prunes_vendored_and_reads_nested() {
    assert!(skip_dir("node_modules", 0, true));
    assert!(skip_dir(".cache", 1, true));
    assert!(!skip_dir("src", 1, true));
    assert_eq!(extension_language("rs"), Some("Rust".into()));
}

#[test]
fn detect_language_covers_added_extensions() {
    assert_eq!(extension_language("vue"), Some("Vue".into()));
}

#[test]
fn submodule_paths_reads_gitmodules() {
    let paths = submodule_paths(
        "[submodule \"tools\"]\n\tpath = vendor/tools\n\turl = git@x:y.git\n\
         [submodule \"hr\"]\n\tpath = vendor/hr\n",
    );
    assert_eq!(paths, vec!["vendor/tools".to_string(), "vendor/hr".to_string()]);
}

#[test]
fn submodule_entries_reads_optional_branch() {
    let entries = submodule_entries(
        "[submodule \"tools\"]\n\tpath = vendor/tools\n\tbranch = develop\n\
         [submodule \"hr\"]\n\tpath = vendor/hr\n\turl = git@x:hr.git\n",
    );
    assert_eq!(
        entries,
        vec![
            SubmoduleEntry { path: "vendor/tools".into(), branch: Some("develop".into()) },
            SubmoduleEntry { path: "vendor/hr".into(), branch: None },
        ]
    );
}

#[test]
fn the_repo_walk_skips_ignored_names_and_stops_at_checkouts() {
    let ignore = IgnoreSet::new(&["node_modules".to_string(), "*.bak".to_string(), "[".to_string()]);
    assert_eq!(scan_step(&ignore, "node_modules", 1, false, false), WalkStep::Skip);
    assert_eq!(scan_step(&ignore, "old.bak", 2, true, true), WalkStep::Skip);
    assert_eq!(scan_step(&ignore, "src", 1, false, false), WalkStep::Descend);
    assert_eq!(scan_step(&ignore, "widget", 1, true, true), WalkStep::Repo);
    // A `.git` file below the root (a linked worktree) is not descended into.
    assert_eq!(scan_step(&ignore, "wt", 2, true, false), WalkStep::Skip);
    // The root itself is a repo even when its `.git` is a file.
    assert_eq!(scan_step(&ignore, "project", 0, true, false), WalkStep::Repo);
    // The root's own `.` is never ignored.
    let dot = IgnoreSet::new(&[".*".to_string()]);
    assert_eq!(scan_step(&dot, ".", 0, false, false), WalkStep::Descend);
    assert_eq!(scan_step(&dot, ".cache", 1, false, false), WalkStep::Skip);
}
