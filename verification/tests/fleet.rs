use repoharbor::fleet::{
    commit_all_message, commit_all_op, discard_changes_op, fetch_op, prune_op, pull_op,
    pull_op_collecting, push_op, report_from_slots, reset_hard_op, stage_all_op,
    submodule_update_op, worker_count, Outcome, RepoResult,
};
use repoharbor::git_ops::{OpOutcome, SKIP_DIRTY, SKIP_DIVERGED};
use repoharbor::model::GitStatus;

fn res(repo: &str, outcome: Outcome) -> RepoResult {
    RepoResult { repo: repo.into(), outcome }
}

#[test]
fn prune_op_singular_summary_and_skip_on_clean_repo() {
    assert_eq!(prune_op(Ok(vec!["only".into()])), Outcome::Done("pruned 1 branch".into()));
    assert_eq!(prune_op(Ok(vec![])), Outcome::Skipped("nothing prunable".into()));
}

#[test]
fn prune_op_deletes_merged_branches_and_summarises() {
    assert_eq!(
        prune_op(Ok(vec!["old-a".into(), "old-b".into()])),
        Outcome::Done("pruned 2 branches".into())
    );
    assert_eq!(prune_op(Err("not a repo".into())), Outcome::Failed("not a repo".into()));
}

#[test]
fn commit_all_op_commits_dirty_and_skips_clean() {
    assert_eq!(commit_all_op(Ok("abc1234".into())), Outcome::Done("committed abc1234".into()));
    assert_eq!(
        commit_all_op(Err("no staged changes to commit".into())),
        Outcome::Skipped("nothing to commit".into())
    );
    assert_eq!(commit_all_op(Err("locked".into())), Outcome::Failed("locked".into()));
    assert_eq!(commit_all_message("  msg  "), Ok("msg".to_string()));
    assert_eq!(commit_all_message("   "), Err(Outcome::Failed("empty commit message".into())));
}

#[test]
fn pull_refusals_fail_and_inapplicable_states_skip() {
    assert_eq!(pull_op(Ok((OpOutcome::Done("fast-forwarded".into()), vec![]))), Outcome::Done("fast-forwarded".into()));
    assert_eq!(pull_op(Ok((OpOutcome::Skipped(SKIP_DIVERGED.into()), vec![]))), Outcome::Failed(SKIP_DIVERGED.into()));
    assert_eq!(pull_op(Ok((OpOutcome::Skipped(SKIP_DIRTY.into()), vec![]))), Outcome::Failed(SKIP_DIRTY.into()));
    assert_eq!(pull_op(Ok((OpOutcome::Skipped("no upstream".into()), vec![]))), Outcome::Skipped("no upstream".into()));
    let (o, files) = pull_op_collecting("/r", Ok((OpOutcome::Done("ff".into()), vec!["a.rs".into()])));
    assert_eq!(o, Outcome::Done("ff".into()));
    assert_eq!(files, Some(("/r".to_string(), vec!["a.rs".to_string()])));
    let (_, none) = pull_op_collecting("/r", Ok((OpOutcome::Done("ff".into()), vec![])));
    assert!(none.is_none());
}

#[test]
fn submodule_update_op_skips_repos_without_submodules() {
    assert_eq!(submodule_update_op(Err("no submodules".into())), Outcome::Skipped("no submodules".into()));
    assert_eq!(submodule_update_op(Ok("vendor/x: ok".into())), Outcome::Done("vendor/x: ok".into()));
    assert_eq!(submodule_update_op(Err("boom".into())), Outcome::Failed("boom".into()));
}

#[test]
fn simple_ops_map_results_one_to_one() {
    let st = GitStatus { branch: "main".into(), ahead: 1, behind: 2, ..Default::default() };
    assert_eq!(fetch_op(Ok(st)), Outcome::Done("fetched — main ahead 1, behind 2".into()));
    assert_eq!(stage_all_op(Ok(0)), Outcome::Skipped("nothing to stage".into()));
    assert_eq!(stage_all_op(Ok(3)), Outcome::Done("staged 3".into()));
    assert_eq!(push_op(Ok("pushed".into())), Outcome::Done("pushed".into()));
    assert_eq!(reset_hard_op(Ok(OpOutcome::Skipped("clean".into()))), Outcome::Skipped("clean".into()));
    assert_eq!(discard_changes_op(Err("x".into())), Outcome::Failed("x".into()));
}

#[test]
fn results_keep_input_order_regardless_of_completion_order() {
    let slots = vec![
        Some(res("/a", Outcome::Done("ok".into()))),
        None,
        Some(res("/c", Outcome::Skipped("cancelled".into()))),
        Some(res("/d", Outcome::Failed("no".into()))),
    ];
    let report = report_from_slots(slots, 2, 2, true);
    let repos: Vec<&str> = report.results.iter().map(|r| r.repo.as_str()).collect();
    assert_eq!(repos, vec!["/a", "/c", "/d"]);
    assert_eq!((report.ok_count(), report.skipped_count(), report.failed_count()), (1, 1, 1));
    assert_eq!((report.started, report.completed, report.cancelled), (2, 2, true));
}

#[test]
fn empty_input_yields_empty_report() {
    let report = report_from_slots(vec![], 0, 0, false);
    assert!(report.results.is_empty());
    assert_eq!(report.started, 0);
    assert!(!report.cancelled);
}

#[test]
fn worker_count_is_bounded_by_repos() {
    assert_eq!(worker_count(8, 3), 3);
    assert_eq!(worker_count(0, 3), 1);
    assert_eq!(worker_count(4, 10), 4);
    assert_eq!(worker_count(4, 0), 0);
}
