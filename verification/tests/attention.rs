use repoharbor::attention::AttentionKind::{
    AgentFinished, AgentRunning, Ahead, Behind, CiFailing, DirtyWorktree, MergeConflict,
    PrAssigned, PrunableBranches, ReviewRequested, UpstreamCi,
};
use repoharbor::attention::{
    apply_pull_only_policy, compute, AgentFact, AttentionItem, AttentionKind, CiFact,
    PrunableFact, RepoRef, Severity,
};
use repoharbor::inbox::InboxItem;
use repoharbor::model::{Activity, GitStatus, Host, Repo};

fn local_ref(repo: &Repo) -> RepoRef {
    RepoRef {
        id: Some(repo.id.clone()),
        remote_host: repo.remote_host.clone(),
        slug: repo.slug.clone(),
        name: repo.display_name.clone(),
    }
}

fn item(repo: RepoRef, kind: AttentionKind, summary: String, detail: Option<String>) -> AttentionItem {
    AttentionItem { repo, kind, severity: kind.severity(), summary, detail }
}

fn repo(id: &str) -> Repo {
    Repo {
        id: id.to_string(),
        display_name: "Test".into(),
        slug: Some("o/test".into()),
        path: "~/dev/test".into(),
        description: None,
        language: Some("Rust".into()),
        git: GitStatus {
            branch: "main".into(),
            ahead: 0,
            behind: 0,
            dirty: 0,
            ..Default::default()
        },
        last_commit_unix: 0,
        activity: Activity::Active,
        root: "~/dev".into(),
        host: Some(Host::Github),
        remote_host: Some("github.com".into()),
        stars: 0,
        topics: Vec::new(),
        open_issues: 0,
        latest_release: None,
        private: false,
        favorite: false,
        ai_summary: None,
        parent_id: None,
        submodule_path: None,
    }
}

fn inbox_item(kind: &str, slug: &str, draft: bool) -> InboxItem {
    InboxItem {
        kind: kind.to_string(),
        title: "Fix the thing".into(),
        repo: slug.to_string(),
        url: format!("https://github.com/{slug}/pull/7"),
        number: 7,
        draft,
        host: Host::Github,
    }
}

fn compute_repos(repos: &[Repo]) -> Vec<AttentionItem> {
    compute(repos, &[], &[], &[], &[])
}

#[test]
fn quiet_fleet_produces_empty() {
    // Clean repos, empty inbox, green CI, no prunables, no agents.
    let repos = vec![repo("/a"), repo("/b")];
    let ci = vec![CiFact {
        remote_host: "github.com".into(),
        slug: "o/test".into(),
        state: "success".into(),
        url: None,
    }];
    assert!(compute(&repos, &[], &ci, &[], &[]).is_empty());
}

#[test]
fn dirty_worktree_triggers_attention() {
    let mut r = repo("/a");
    r.git.dirty = 3;
    let items = compute_repos(&[r]);
    assert_eq!(items.len(), 1);
    assert_eq!(items[0].kind, AttentionKind::DirtyWorktree);
    assert_eq!(items[0].severity, Severity::Attention);
    assert_eq!(items[0].summary, "3 uncommitted changes");
    assert_eq!(items[0].detail.as_deref(), Some("on main"));
    assert_eq!(items[0].repo.id.as_deref(), Some("/a"));
}

#[test]
fn merge_conflict_triggers_urgent() {
    let mut r = repo("/a");
    r.git.conflicts = 2;
    r.git.dirty = 2;
    let items = compute_repos(&[r]);
    assert!(items
        .iter()
        .any(|i| i.kind == AttentionKind::MergeConflict && i.severity == Severity::Urgent));
    let conflict = items
        .iter()
        .find(|i| i.kind == AttentionKind::MergeConflict)
        .expect("merge conflict item");
    assert_eq!(conflict.summary, "2 merge conflicts");
    assert_eq!(conflict.kind.action_hint(), "Open in IDE to resolve");
}

#[test]
fn ahead_triggers_attention() {
    let mut r = repo("/a");
    r.git.ahead = 1;
    let items = compute_repos(&[r]);
    assert_eq!(items.len(), 1);
    assert_eq!(items[0].kind, AttentionKind::Ahead);
    assert_eq!(items[0].severity, Severity::Attention);
    assert_eq!(items[0].summary, "1 commit not pushed");
}

#[test]
fn behind_triggers_info() {
    let mut r = repo("/a");
    r.git.behind = 2;
    let items = compute_repos(&[r]);
    assert_eq!(items.len(), 1);
    assert_eq!(items[0].kind, AttentionKind::Behind);
    assert_eq!(items[0].severity, Severity::Info);
    assert_eq!(items[0].summary, "2 commits behind upstream");
}

#[test]
fn ci_failure_triggers_urgent_but_other_states_do_not() {
    let repos = vec![repo("/a")];
    let fact = |state: &str| CiFact {
        remote_host: "github.com".into(),
        slug: "o/test".into(),
        state: state.into(),
        url: Some("https://github.com/o/test/actions/runs/9".into()),
    };
    for quiet in ["success", "pending", "none"] {
        assert!(
            compute(&repos, &[], &[fact(quiet)], &[], &[]).is_empty(),
            "{quiet} must not raise attention"
        );
    }
    let items = compute(&repos, &[], &[fact("failure")], &[], &[]);
    assert_eq!(items.len(), 1);
    assert_eq!(items[0].kind, AttentionKind::CiFailing);
    assert_eq!(items[0].severity, Severity::Urgent);
    // Linked to the local repo via the (host, slug) compound key, with
    // the failing run's URL carried as the routing detail.
    assert_eq!(items[0].repo.id.as_deref(), Some("/a"));
    assert_eq!(
        items[0].detail.as_deref(),
        Some("https://github.com/o/test/actions/runs/9")
    );
}

#[test]
fn ci_failure_keys_by_host_and_slug() {
    // Same slug, different host domain → must not link to the local repo
    // (the #159 enrichment-cache lesson).
    let repos = vec![repo("/a")]; // github.com / o/test
    let items = compute(
        &repos,
        &[],
        &[CiFact {
            remote_host: "gitlab.acme.io".into(),
            slug: "o/test".into(),
            state: "failure".into(),
            url: None,
        }],
        &[],
        &[],
    );
    assert_eq!(items.len(), 1);
    assert_eq!(items[0].repo.id, None, "must not cross-link across hosts");
    assert_eq!(items[0].repo.remote_host.as_deref(), Some("gitlab.acme.io"));
}

#[test]
fn review_request_triggers_urgent_and_drafts_are_skipped() {
    let items = compute(&[], &[inbox_item("review", "o/test", false)], &[], &[], &[]);
    assert_eq!(items.len(), 1);
    assert_eq!(items[0].kind, AttentionKind::ReviewRequested);
    assert_eq!(items[0].severity, Severity::Urgent);
    assert_eq!(items[0].summary, "Review requested: Fix the thing (#7)");
    assert_eq!(
        items[0].detail.as_deref(),
        Some("https://github.com/o/test/pull/7")
    );

    // A draft PR can't be merged; review isn't actionable yet.
    let drafts = compute(&[], &[inbox_item("review", "o/test", true)], &[], &[], &[]);
    assert!(drafts.is_empty());
}

#[test]
fn own_pr_triggers_info_and_issues_are_ignored() {
    let items = compute(
        &[],
        &[
            inbox_item("pr", "o/test", false),
            inbox_item("issue", "o/test", false),
        ],
        &[],
        &[],
        &[],
    );
    assert_eq!(items.len(), 1, "assigned issues aren't an attention type");
    assert_eq!(items[0].kind, AttentionKind::PrAssigned);
    assert_eq!(items[0].severity, Severity::Info);
    assert_eq!(items[0].summary, "Open PR #7: Fix the thing");
}

#[test]
fn inbox_links_to_local_repo_by_host_and_slug() {
    // A GitHub inbox item matches the GitHub clone, not a GitLab repo
    // that happens to share the slug.
    let mut gitlab_twin = repo("/b");
    gitlab_twin.host = Some(Host::Gitlab);
    gitlab_twin.remote_host = Some("gitlab.com".into());
    let repos = vec![gitlab_twin, repo("/a")];
    let items = compute(
        &repos,
        &[inbox_item("review", "o/test", false)],
        &[],
        &[],
        &[],
    );
    assert_eq!(items[0].repo.id.as_deref(), Some("/a"));
    assert_eq!(items[0].repo.name, "Test");

    // No local match → slug-only ref, still renderable.
    let items = compute(&[], &[inbox_item("review", "o/x", false)], &[], &[], &[]);
    assert_eq!(items[0].repo.id, None);
    assert_eq!(items[0].repo.name, "o/x");
}

#[test]
fn prunable_branches_trigger_info_only_when_nonzero() {
    let repos = vec![repo("/a")];
    let none = PrunableFact {
        repo_id: "/a".into(),
        count: 0,
    };
    assert!(compute(&repos, &[], &[], &[none], &[]).is_empty());

    let some = PrunableFact {
        repo_id: "/a".into(),
        count: 2,
    };
    let items = compute(&repos, &[], &[], &[some], &[]);
    assert_eq!(items.len(), 1);
    assert_eq!(items[0].kind, AttentionKind::PrunableBranches);
    assert_eq!(items[0].severity, Severity::Info);
    assert_eq!(items[0].summary, "2 prunable branches");
}

#[test]
fn agent_running_is_info_and_finished_is_attention() {
    let repos = vec![repo("/a")];
    let fact = |running: bool| AgentFact {
        repo_id: "/a".into(),
        program: "aider".into(),
        running,
        branch: None,
        commits: 0,
    };
    let items = compute(&repos, &[], &[], &[], &[fact(true), fact(false)]);
    assert_eq!(items.len(), 2);
    // Finished sorts first (Attention < Info).
    assert_eq!(items[0].kind, AttentionKind::AgentFinished);
    assert_eq!(items[0].severity, Severity::Attention);
    assert_eq!(items[0].summary, "Agent finished: aider");
    assert_eq!(items[0].detail, None);
    assert_eq!(items[1].kind, AttentionKind::AgentRunning);
    assert_eq!(items[1].severity, Severity::Info);
    assert_eq!(items[1].summary, "Agent running: aider");
}

#[test]
fn finished_dispatch_carries_branch_and_commit_detail() {
    let items = compute(
        &[repo("/a")],
        &[],
        &[],
        &[],
        &[AgentFact {
            repo_id: "/a".into(),
            program: "aider".into(),
            running: false,
            branch: Some("agent/fix-x-ab12".into()),
            commits: 3,
        }],
    );
    assert_eq!(items.len(), 1);
    assert_eq!(items[0].kind, AttentionKind::AgentFinished);
    assert_eq!(
        items[0].detail.as_deref(),
        Some("3 commits on agent/fix-x-ab12")
    );

    // A running dispatched session shows just the branch.
    let items = compute(
        &[repo("/a")],
        &[],
        &[],
        &[],
        &[AgentFact {
            repo_id: "/a".into(),
            program: "aider".into(),
            running: true,
            branch: Some("agent/fix-x-ab12".into()),
            commits: 0,
        }],
    );
    assert_eq!(items[0].detail.as_deref(), Some("on agent/fix-x-ab12"));
}

#[test]
fn unknown_agent_repo_falls_back_to_path_basename() {
    let items = compute(
        &[],
        &[],
        &[],
        &[],
        &[AgentFact {
            repo_id: "/home/dev/mystery".into(),
            program: "aider".into(),
            running: true,
            branch: None,
            commits: 0,
        }],
    );
    assert_eq!(items[0].repo.name, "mystery");
    assert_eq!(items[0].repo.id.as_deref(), Some("/home/dev/mystery"));
}

#[test]
fn every_kind_maps_to_its_documented_severity() {
    for (kind, severity) in [
        (MergeConflict, Severity::Urgent),
        (CiFailing, Severity::Urgent),
        (ReviewRequested, Severity::Urgent),
        (AgentFinished, Severity::Attention),
        (DirtyWorktree, Severity::Attention),
        (Ahead, Severity::Attention),
        (UpstreamCi, Severity::Info),
        (Behind, Severity::Info),
        (PrAssigned, Severity::Info),
        (PrunableBranches, Severity::Info),
        (AgentRunning, Severity::Info),
    ] {
        assert_eq!(kind.severity(), severity, "{kind:?}");
    }
}

#[test]
fn every_kind_has_a_chip_label() {
    for (kind, label) in [
        (MergeConflict, "Merge conflict"),
        (CiFailing, "CI failing"),
        (UpstreamCi, "Upstream CI"),
        (ReviewRequested, "Review requested"),
        (AgentFinished, "Agent finished"),
        (DirtyWorktree, "Uncommitted changes"),
        (Ahead, "Not pushed"),
        (Behind, "Behind remote"),
        (PrAssigned, "Open PR"),
        (PrunableBranches, "Prunable branches"),
        (AgentRunning, "Agent running"),
    ] {
        assert_eq!(kind.label(), label, "{kind:?}");
    }
}

#[test]
fn every_kind_has_an_action_hint() {
    assert_eq!(Behind.action_hint(), "Pull to update");
    assert_eq!(DirtyWorktree.action_hint(), "Discard or commit");
    assert_eq!(UpstreamCi.action_hint(), "Ignore (pull-only)");
    assert_eq!(MergeConflict.action_hint(), "Open in IDE to resolve");
    for kind in [
        MergeConflict,
        CiFailing,
        UpstreamCi,
        ReviewRequested,
        AgentFinished,
        DirtyWorktree,
        Ahead,
        Behind,
        PrAssigned,
        PrunableBranches,
        AgentRunning,
    ] {
        assert!(!kind.action_hint().is_empty(), "{kind:?}");
    }
}

#[test]
fn pull_only_policy_drops_ci_and_rewrites_ahead_behind() {
    let items = vec![
        item(
            local_ref(&repo("/work/core/enterprise")),
            AttentionKind::CiFailing,
            "CI failing on the default branch".into(),
            None,
        ),
        item(
            local_ref(&repo("/work/core/enterprise")),
            AttentionKind::UpstreamCi,
            "Upstream CI failing — ignore (pull-only)".into(),
            Some("CI on upstream remotes is not your fix".into()),
        ),
        item(
            local_ref(&repo("/work/core/enterprise")),
            AttentionKind::Ahead,
            "2 commits not pushed".into(),
            None,
        ),
        item(
            local_ref(&repo("/work/core/enterprise")),
            AttentionKind::Behind,
            "3 commits behind upstream".into(),
            None,
        ),
        item(
            local_ref(&repo("/work/digits/mine")),
            AttentionKind::CiFailing,
            "CI failing on the default branch".into(),
            None,
        ),
    ];
    let prefixes = vec!["/work/core".into()];
    let out = apply_pull_only_policy(items, &prefixes);
    assert_eq!(out.len(), 3, "pull-only CI items dropped");
    assert!(!out.iter().any(|i| {
        matches!(i.kind, AttentionKind::CiFailing | AttentionKind::UpstreamCi)
            && i.repo.id.as_deref() == Some("/work/core/enterprise")
    }));
    let ahead = out
        .iter()
        .find(|i| i.kind == AttentionKind::Ahead)
        .expect("ahead kept");
    assert!(ahead.summary.contains("don't push"));
    let behind = out
        .iter()
        .find(|i| i.kind == AttentionKind::Behind)
        .expect("behind");
    assert!(behind.summary.contains("Pull to update"));
    assert!(out.iter().any(|i| i.kind == AttentionKind::CiFailing
        && i.repo.id.as_deref() == Some("/work/digits/mine")));
}

#[test]
fn output_sorts_by_severity_then_kind_then_repo_name() {
    // Repo "b" is only dirty (Attention); repo "a" is behind (Info) and has
    // failing CI (Urgent). Expect: Urgent(a) → Attention(b) → Info(a).
    let mut a = repo("/a");
    a.display_name = "alpha".into();
    a.slug = Some("o/alpha".into());
    a.git.behind = 1;
    let mut b = repo("/b");
    b.display_name = "beta".into();
    b.slug = Some("o/beta".into());
    b.git.dirty = 1;
    let ci = vec![CiFact {
        remote_host: "github.com".into(),
        slug: "o/alpha".into(),
        state: "failure".into(),
        url: None,
    }];
    let items = compute(&[a, b], &[], &ci, &[], &[]);
    let got: Vec<(AttentionKind, &str)> = items
        .iter()
        .map(|i| (i.kind, i.repo.name.as_str()))
        .collect();
    assert_eq!(
        got,
        vec![
            (AttentionKind::CiFailing, "alpha"),
            (AttentionKind::DirtyWorktree, "beta"),
            (AttentionKind::Behind, "alpha"),
        ]
    );

    // Same severity + kind → repo name breaks the tie, case-insensitively.
    let mut x = repo("/x");
    x.display_name = "Zed".into();
    x.git.dirty = 1;
    let mut y = repo("/y");
    y.display_name = "apricot".into();
    y.git.dirty = 1;
    let items = compute_repos(&[x, y]);
    let names: Vec<&str> = items.iter().map(|i| i.repo.name.as_str()).collect();
    assert_eq!(names, vec!["apricot", "Zed"]);
}
