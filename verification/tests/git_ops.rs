use repoharbor::git_ops::{pull_plan, push_plan, reset_plan, missing_push_remote, PullPlan, ResetPlan};
use repoharbor::git_ops::{submodule_checkout_plan, CheckoutPlan, SKIP_DIRTY};
use repoharbor::git_ops::{cap_diff, DIFF_CAP_BYTES, DIFF_TRUNCATED};
use repoharbor::git_ops::{
    configured_branch, ff_detail, file_changes, hunk_line, landed_paths, paths_to_stage,
    prunable_branches, push_error, push_rejection, push_summary, staged_kind, status_counts,
    submodule_checkout_note, submodule_detached_note, submodule_pull_note, submodule_report,
    tail_lines, unstaged_kind, BranchInfo, ChangeKind, OpOutcome, StatusBits,
};

fn bits() -> StatusBits {
    StatusBits {
        ignored: false,
        conflicted: false,
        index_new: false,
        index_modified: false,
        index_deleted: false,
        index_renamed: false,
        index_typechange: false,
        wt_new: false,
        wt_modified: false,
        wt_deleted: false,
        wt_renamed: false,
        wt_typechange: false,
    }
}

fn branch(name: &str, is_head: bool, merged: bool, gone: bool) -> BranchInfo {
    BranchInfo { name: name.into(), is_head, upstream: None, gone, merged }
}

#[test]
fn tail_lines_keeps_the_last_lines() {
    assert_eq!(tail_lines("a\nb\nc\nd", 2), "c\nd");
    assert_eq!(tail_lines("only", 5), "only");
    let long = "x".repeat(500);
    assert_eq!(tail_lines(&long, 3).chars().count(), 400);
}

#[test]
fn push_errors_get_actionable_wording() {
    let auth = push_error("authentication required", false);
    assert!(auth.starts_with("authentication failed"), "{auth}");
    assert!(push_error("anything", true).starts_with("authentication failed"));
    let nff = push_error("cannot push non-fastforwardable reference", false);
    assert!(nff.contains("never forces"), "{nff}");
    assert_eq!(push_error("disk full", false), "disk full");
    assert_eq!(
        push_rejection("x"),
        "push rejected (non-fast-forward) — pull or rebase first; RepoHarbor never forces (x)"
    );
}

#[test]
fn status_counts_tallies_changes_and_skips_ignored() {
    let staged = StatusBits { index_modified: true, ..bits() };
    let both = StatusBits { index_new: true, wt_modified: true, ..bits() };
    let conflict = StatusBits { conflicted: true, ..bits() };
    let ignored = StatusBits { ignored: true, wt_new: true, ..bits() };
    let st = status_counts(Some("main".into()), Some((2, 1)), &[staged, both, conflict, ignored]);
    assert_eq!(st.branch, "main");
    assert_eq!((st.ahead, st.behind), (2, 1));
    assert_eq!((st.dirty, st.staged, st.unstaged, st.conflicts), (3, 2, 1, 1));
    let detached = status_counts(None, None, &[]);
    assert_eq!(detached.branch, "HEAD");
    assert_eq!((detached.ahead, detached.behind, detached.dirty), (0, 0, 0));
}

#[test]
fn change_kinds_follow_the_status_bits() {
    assert_eq!(staged_kind(StatusBits { index_renamed: true, index_new: true, ..bits() }), Some(ChangeKind::Renamed));
    assert_eq!(staged_kind(StatusBits { index_deleted: true, ..bits() }), Some(ChangeKind::Deleted));
    assert_eq!(staged_kind(StatusBits { conflicted: true, ..bits() }), Some(ChangeKind::Modified));
    assert_eq!(staged_kind(bits()), None);
    assert_eq!(unstaged_kind(StatusBits { wt_new: true, ..bits() }), Some(ChangeKind::Untracked));
    assert_eq!(unstaged_kind(StatusBits { wt_typechange: true, ..bits() }), Some(ChangeKind::Modified));
}

#[test]
fn file_changes_lists_staged_then_unstaged_per_path() {
    let entries = vec![
        ("a.rs".to_string(), StatusBits { index_modified: true, wt_modified: true, ..bits() }),
        ("".to_string(), StatusBits { wt_new: true, ..bits() }),
        ("new.txt".to_string(), StatusBits { wt_new: true, ..bits() }),
    ];
    let changes = file_changes(&entries);
    let got: Vec<(&str, ChangeKind, bool)> =
        changes.iter().map(|c| (c.path.as_str(), c.kind, c.staged)).collect();
    assert_eq!(
        got,
        vec![
            ("a.rs", ChangeKind::Modified, true),
            ("a.rs", ChangeKind::Modified, false),
            ("new.txt", ChangeKind::Untracked, false),
        ]
    );
    let to_stage = paths_to_stage(&changes);
    assert_eq!(to_stage, vec!["a.rs".to_string(), "new.txt".to_string()]);
}

#[test]
fn landed_paths_are_sorted_unique_and_nonempty() {
    let paths = vec!["b.rs".to_string(), "a.rs".to_string(), "".to_string(), "b.rs".to_string()];
    assert_eq!(landed_paths(&paths), vec!["a.rs".to_string(), "b.rs".to_string()]);
    let many: Vec<String> = (0..300).map(|i| format!("f{i:03}")).collect();
    assert_eq!(landed_paths(&many).len(), 200);
}

#[test]
fn prunable_lists_merged_branches_not_head() {
    let branches = vec![
        branch("main", false, true, false),
        branch("feature", false, true, false),
        branch("current", true, true, false),
        branch("gone-upstream", false, false, true),
        branch("wip", false, false, false),
        branch("master", false, true, true),
        branch("checked", false, true, false),
    ];
    let names: Vec<String> =
        prunable_branches(branches, Some("checked")).into_iter().map(|b| b.name).collect();
    assert_eq!(names, vec!["feature", "gone-upstream"]);
}

#[test]
fn hunk_lines_keep_their_origin_and_drop_line_breaks() {
    assert_eq!(hunk_line('+', "added\n"), "+added");
    assert_eq!(hunk_line('-', "gone\r\n"), "-gone");
    assert_eq!(hunk_line(' ', "same"), " same");
    assert_eq!(hunk_line('=', "context\n"), "context");
}

#[test]
fn pull_and_push_summaries() {
    assert_eq!(ff_detail(3, 0), "fast-forwarded 3");
    assert_eq!(ff_detail(3, 5), "fast-forwarded 3 (5 files)");
    assert_eq!(push_summary("main", "origin", false), "main → origin");
    assert_eq!(push_summary("feat", "origin", true), "feat → origin/feat (upstream set)");
}

#[test]
fn submodule_update_notes_and_report() {
    assert_eq!(configured_branch(Some(" develop ")).as_deref(), Some("develop"));
    assert_eq!(configured_branch(Some("  ")), None);
    assert_eq!(configured_branch(None), None);
    assert_eq!(submodule_pull_note("vendor/x", false, &OpOutcome::Done("fast-forwarded 1".into())), "vendor/x: fast-forwarded 1");
    assert_eq!(
        submodule_pull_note("vendor/x", true, &OpOutcome::Skipped("up to date".into())),
        "vendor/x: initialized; skipped pull (up to date)"
    );
    assert_eq!(submodule_checkout_note("v", false, "dirty"), "v: skipped (dirty)");
    assert_eq!(submodule_detached_note("v", false), "v: skipped (detached HEAD, no branch configured)");
    let ok = submodule_report(&[("a".into(), Ok("a: ok".into())), ("b".into(), Ok("b: ok".into()))]);
    assert_eq!(ok, Ok("a: ok; b: ok".to_string()));
    let bad = submodule_report(&[("a".into(), Ok("a: ok".into())), ("b".into(), Err("boom".into()))]);
    assert_eq!(bad, Err("a: ok; b: boom".to_string()));
}

#[test]
fn a_diff_within_the_cap_is_kept_whole() {
    let d = "+added\n-removed\n".to_string();
    assert_eq!(cap_diff(d.clone()), d);
    let exact = "a".repeat(DIFF_CAP_BYTES);
    assert_eq!(cap_diff(exact.clone()), exact);
}

#[test]
fn a_long_diff_is_cut_on_a_char_boundary_and_marked() {
    let long = "x".repeat(DIFF_CAP_BYTES + 10);
    let capped = cap_diff(long);
    assert!(capped.ends_with(DIFF_TRUNCATED));
    assert_eq!(capped.len(), DIFF_CAP_BYTES + DIFF_TRUNCATED.len());
    // A multi-byte character straddling the cap is dropped whole.
    let mut s = "y".repeat(DIFF_CAP_BYTES - 1);
    s.push('é');
    s.push_str("tail");
    let capped = cap_diff(s);
    assert_eq!(capped, format!("{}{}", "y".repeat(DIFF_CAP_BYTES - 1), DIFF_TRUNCATED));
}

fn finish(p: PullPlan) -> (bool, String) {
    match p {
        PullPlan::Finish(OpOutcome::Done(m)) => (true, m),
        PullPlan::Finish(OpOutcome::Skipped(m)) => (false, m),
        other => panic!("not a finish: {other:?}"),
    }
}

#[test]
fn pull_plan_skips_unsafe_states_and_only_fast_forwards_clean_behind_branches() {
    let b = || Some("main".to_string());
    let a = || Some(vec![1u8, 2]);
    let u = || Some(vec![3u8, 4]);
    assert_eq!(finish(pull_plan(false, b(), a(), u(), None, None)), (false, "detached HEAD".into()));
    assert_eq!(finish(pull_plan(true, None, a(), u(), None, None)), (false, "unborn branch".into()));
    assert_eq!(finish(pull_plan(true, b(), None, u(), None, None)), (false, "unborn branch".into()));
    assert_eq!(finish(pull_plan(true, b(), a(), None, None, None)), (false, "no upstream".into()));
    assert_eq!(finish(pull_plan(true, b(), a(), a(), None, None)), (true, "up to date".into()));
    assert!(matches!(pull_plan(true, b(), a(), u(), None, None), PullPlan::NeedAheadBehind));
    assert_eq!(finish(pull_plan(true, b(), a(), u(), Some((1, 3)), None)), (false, "diverged".into()));
    assert_eq!(finish(pull_plan(true, b(), a(), u(), Some((0, 0)), None)), (true, "up to date".into()));
    assert!(matches!(pull_plan(true, b(), a(), u(), Some((0, 3)), None), PullPlan::NeedDirty));
    assert_eq!(
        finish(pull_plan(true, b(), a(), u(), Some((0, 3)), Some(2))),
        (false, "uncommitted changes".into())
    );
    match pull_plan(true, b(), a(), u(), Some((0, 3)), Some(0)) {
        PullPlan::FastForward { refname, behind } => {
            assert_eq!(refname, "refs/heads/main");
            assert_eq!(behind, 3);
        }
        other => panic!("expected a fast-forward: {other:?}"),
    }
}

#[test]
fn push_plan_picks_remote_refspec_and_upstream() {
    assert_eq!(
        push_plan(false, Some("x".into()), None, None).unwrap_err(),
        "HEAD is detached — check out a branch before pushing"
    );
    assert_eq!(push_plan(true, None, None, None).unwrap_err(), "HEAD has no branch name");
    let first = push_plan(true, Some("feat".into()), None, None).unwrap();
    assert_eq!(first.remote, "origin");
    assert_eq!(first.refspec, "refs/heads/feat:refs/heads/feat");
    assert!(first.set_upstream);
    let configured =
        push_plan(true, Some("feat".into()), Some("fork".into()), Some("refs/heads/feature".into())).unwrap();
    assert_eq!(configured.remote, "fork");
    assert_eq!(configured.refspec, "refs/heads/feat:refs/heads/feature");
    assert!(!configured.set_upstream);
    assert!(!configured.refspec.starts_with('+'));
    assert_eq!(missing_push_remote("fork"), "no 'fork' remote to push to");
}

#[test]
fn reset_plan_names_the_upstream_and_skips_a_clean_tip() {
    let b = || Some("main".to_string());
    let a = || Some(vec![1u8]);
    match reset_plan(true, b(), a(), a(), None, None) {
        ResetPlan::NeedDirty => {}
        other => panic!("{other:?}"),
    }
    match reset_plan(true, b(), a(), a(), None, Some(0)) {
        ResetPlan::Finish(OpOutcome::Done(m)) => assert_eq!(m, "already at origin/main"),
        other => panic!("{other:?}"),
    }
    match reset_plan(true, b(), a(), Some(vec![2u8]), Some("up/main".into()), None) {
        ResetPlan::Reset { done } => assert_eq!(done, "reset --hard up/main"),
        other => panic!("{other:?}"),
    }
    match reset_plan(false, b(), a(), a(), None, None) {
        ResetPlan::Finish(OpOutcome::Skipped(m)) => assert_eq!(m, "detached HEAD"),
        other => panic!("{other:?}"),
    }
}

#[test]
fn submodule_checkout_plan_keeps_a_dirty_tree_and_falls_back_to_origin() {
    match submodule_checkout_plan(Some("main".into()), "main", None, None) {
        CheckoutPlan::Finish(OpOutcome::Done(m)) => assert_eq!(m, "on main"),
        other => panic!("{other:?}"),
    }
    match submodule_checkout_plan(None, "main", None, None) {
        CheckoutPlan::NeedDirty => {}
        other => panic!("{other:?}"),
    }
    match submodule_checkout_plan(Some("dev".into()), "main", Some(2), None) {
        CheckoutPlan::Finish(OpOutcome::Skipped(m)) => assert_eq!(m, SKIP_DIRTY),
        other => panic!("{other:?}"),
    }
    match submodule_checkout_plan(None, "main", Some(0), None) {
        CheckoutPlan::NeedLocal => {}
        other => panic!("{other:?}"),
    }
    match submodule_checkout_plan(None, "main", Some(0), Some(true)) {
        CheckoutPlan::SwitchLocal { done } => assert_eq!(done, "checked out main"),
        other => panic!("{other:?}"),
    }
    match submodule_checkout_plan(None, "main", Some(0), Some(false)) {
        CheckoutPlan::FromOrigin { remote_ref, upstream, done, missing, no_tip } => {
            assert_eq!(remote_ref, "refs/remotes/origin/main");
            assert_eq!(upstream, "origin/main");
            assert_eq!(done, "checked out main");
            assert_eq!(missing, "branch 'main' not found locally or on origin");
            assert_eq!(no_tip, "origin/main has no tip");
        }
        other => panic!("{other:?}"),
    }
}
