//! Bulk ("fleet") operations: the per-repo outcome vocabulary, the report
//! counts, and how each git operation's result is classified. The worker
//! pool that runs the operations lives with the I/O.
use vstd::prelude::*;

use crate::git_ops::{OpOutcome, SKIP_DIRTY, SKIP_DIVERGED};
use crate::model::GitStatus;
use crate::text::{chars_of, dec, dec_chars, is_blank_chars, push_all, push_str, str_eq,
    string_from, trim, trim_chars};

verus! {

/// Per-repo outcome of a fleet operation.
#[derive(Debug, Clone, PartialEq, Eq)]
pub enum Outcome {
    /// The op ran to completion; the string is a short human-readable summary.
    Done(String),
    /// The op deliberately did nothing — not applicable, or cancelled.
    Skipped(String),
    /// The op was wanted but could not complete; the string says why.
    Failed(String),
}

/// Mathematical view of an [`Outcome`].
pub enum OutcomeV {
    Done(Seq<char>),
    Skipped(Seq<char>),
    Failed(Seq<char>),
}

impl View for Outcome {
    type V = OutcomeV;

    open spec fn view(&self) -> OutcomeV {
        match self {
            Outcome::Done(s) => OutcomeV::Done(s@),
            Outcome::Skipped(s) => OutcomeV::Skipped(s@),
            Outcome::Failed(s) => OutcomeV::Failed(s@),
        }
    }
}

/// One repo's result; `repo` is the repo id (absolute path).
#[derive(Debug, Clone, PartialEq, Eq)]
pub struct RepoResult {
    pub repo: String,
    pub outcome: Outcome,
}

/// Progress event, fired once per repo completion.
#[derive(Debug, Clone)]
pub struct FleetEvent {
    /// Index of this repo in the input slice.
    pub index: usize,
    /// Completions so far, including this one.
    pub done: usize,
    /// Total number of repos in the run.
    pub total: usize,
    pub result: RepoResult,
}

/// Aggregate result of a fleet run; `results` is in input order.
#[derive(Debug, Clone)]
pub struct FleetReport {
    pub results: Vec<RepoResult>,
    /// Ops actually invoked (repos skipped by cancellation are never started).
    pub started: usize,
    /// Ops that ran to completion.
    pub completed: usize,
    /// The cancel flag was set at some point during the run.
    pub cancelled: bool,
}

/// Which outcome class is counted: 0 done, 1 skipped, 2 failed.
pub open spec fn class_of(o: Outcome) -> nat {
    match o {
        Outcome::Done(_) => 0,
        Outcome::Skipped(_) => 1,
        Outcome::Failed(_) => 2,
    }
}

/// How many results are of class `c`.
pub open spec fn count_class(rs: Seq<RepoResult>, c: nat) -> nat
    decreases rs.len(),
{
    if rs.len() == 0 {
        0
    } else {
        count_class(rs.drop_last(), c) + (if class_of(rs.last().outcome) == c {
            1nat
        } else {
            0nat
        })
    }
}

proof fn lemma_count_bound(rs: Seq<RepoResult>, c: nat)
    ensures
        count_class(rs, c) <= rs.len(),
    decreases rs.len(),
{
    if rs.len() > 0 {
        lemma_count_bound(rs.drop_last(), c);
    }
}

impl FleetReport {
    fn count(&self, c: u8) -> (r: usize)
        ensures
            r == count_class(self.results@, c as nat),
    {
        let mut n: usize = 0;
        let mut k: usize = 0;
        while k < self.results.len()
            invariant
                k <= self.results@.len(),
                n == count_class(self.results@.take(k as int), c as nat),
            decreases self.results.len() - k,
        {
            proof {
                assert(self.results@.take(k + 1).drop_last() =~= self.results@.take(k as int));
                lemma_count_bound(self.results@.take(k as int), c as nat);
            }
            let cls: u8 = match &self.results[k].outcome {
                Outcome::Done(_) => 0,
                Outcome::Skipped(_) => 1,
                Outcome::Failed(_) => 2,
            };
            if cls == c {
                n = n + 1;
            }
            k = k + 1;
        }
        proof {
            assert(self.results@.take(self.results@.len() as int) =~= self.results@);
        }
        n
    }

    /// Results that completed.
    pub fn ok_count(&self) -> (r: usize)
        ensures
            r == count_class(self.results@, 0),
    {
        self.count(0)
    }

    /// Results that were skipped.
    pub fn skipped_count(&self) -> (r: usize)
        ensures
            r == count_class(self.results@, 1),
    {
        self.count(1)
    }

    /// Results that failed.
    pub fn failed_count(&self) -> (r: usize)
        ensures
            r == count_class(self.results@, 2),
    {
        self.count(2)
    }
}

/// Law of the report: every result is counted exactly once among done,
/// skipped and failed.
pub proof fn law_counts_partition(rs: Seq<RepoResult>)
    ensures
        count_class(rs, 0) + count_class(rs, 1) + count_class(rs, 2) == rs.len(),
    decreases rs.len(),
{
    if rs.len() > 0 {
        law_counts_partition(rs.drop_last());
    }
}

/// The filled slots, in slot (input) order.
pub open spec fn filled(slots: Seq<Option<RepoResult>>) -> Seq<RepoResult>
    decreases slots.len(),
{
    if slots.len() == 0 {
        Seq::empty()
    } else {
        let r = filled(slots.drop_last());
        match slots.last() {
            Some(x) => r.push(x),
            None => r,
        }
    }
}

/// The number of workers a run uses: at least one, never more than repos.
pub fn worker_count(workers: usize, total: usize) -> (r: usize)
    ensures
        r == (if total == 0 {
            0
        } else if workers == 0 {
            1
        } else if workers < total {
            workers as int
        } else {
            total as int
        }),
{
    let w = if workers == 0 {
        1
    } else {
        workers
    };
    if w < total {
        w
    } else {
        total
    }
}

/// The report of a run from its per-input slots (one per repo, filled as
/// each repo finished): the results come out in input order whatever order
/// the workers finished in.
pub fn report_from_slots(slots: Vec<Option<RepoResult>>, started: usize, completed: usize, cancelled: bool) -> (r:
    FleetReport)
    ensures
        r.results@ == filled(slots@),
        r.started == started && r.completed == completed && r.cancelled == cancelled,
{
    let ghost all = slots@;
    let n = slots.len();
    let mut rest = slots;
    let mut results: Vec<RepoResult> = Vec::new();
    let mut k: usize = 0;
    proof {
        assert(all.take(0) =~= Seq::<Option<RepoResult>>::empty());
        assert(all.skip(0) =~= all);
    }
    while k < n
        invariant
            k <= n,
            n == all.len(),
            rest@ == all.skip(k as int),
            results@ == filled(all.take(k as int)),
        decreases n - k,
    {
        proof {
            assert(all.take(k + 1).drop_last() =~= all.take(k as int));
            assert(all.take(k + 1).last() == all[k as int]);
            assert(rest@[0] == all[k as int]);
        }
        let slot = rest.remove(0);
        match slot {
            Some(x) => results.push(x),
            None => {},
        }
        proof {
            assert(rest@ =~= all.skip(k + 1));
        }
        k = k + 1;
    }
    proof {
        assert(all.take(n as int) =~= all);
    }
    FleetReport { results, started, completed, cancelled }
}

/// The view of a git result carrying a string.
pub open spec fn failed_or<T>(r: Result<T, String>, ok: spec_fn(T) -> OutcomeV) -> OutcomeV {
    match r {
        Ok(v) => ok(v),
        Err(e) => OutcomeV::Failed(e@),
    }
}

/// Fleet fetch: summarise the refreshed status, or the failure.
pub fn fetch_op(result: Result<GitStatus, String>) -> (r: Outcome)
    ensures
        r@ == (match result {
            Ok(st) => OutcomeV::Done(
                "fetched — "@ + st.branch@ + " ahead "@ + dec(st.ahead as nat) + ", behind "@
                    + dec(st.behind as nat),
            ),
            Err(e) => OutcomeV::Failed(e@),
        }),
{
    match result {
        Ok(st) => {
            let mut v: Vec<char> = Vec::new();
            push_str(&mut v, "fetched — ");
            push_str(&mut v, st.branch.as_str());
            push_str(&mut v, " ahead ");
            push_all(&mut v, &dec_chars(st.ahead as u64));
            push_str(&mut v, ", behind ");
            push_all(&mut v, &dec_chars(st.behind as u64));
            Outcome::Done(string_from(&v))
        },
        Err(e) => Outcome::Failed(e),
    }
}

/// The outcome of a fast-forward pull: a done pull is done; the diverged and
/// dirty refusals failed (a pull was wanted); other skips stay skips.
pub open spec fn pull_outcome(result: Result<(OpOutcome, Vec<String>), String>) -> OutcomeV {
    match result {
        Ok((OpOutcome::Done(s), _)) => OutcomeV::Done(s@),
        Ok((OpOutcome::Skipped(r), _)) => if r@ == SKIP_DIVERGED@ || r@ == SKIP_DIRTY@ {
            OutcomeV::Failed(r@)
        } else {
            OutcomeV::Skipped(r@)
        },
        Err(e) => OutcomeV::Failed(e@),
    }
}

/// Fleet pull: classify a pull's result.
pub fn pull_op(result: Result<(OpOutcome, Vec<String>), String>) -> (r: Outcome)
    ensures
        r@ == pull_outcome(result),
{
    match result {
        Ok((OpOutcome::Done(s), _)) => Outcome::Done(s),
        Ok((OpOutcome::Skipped(r), _)) => {
            if str_eq(r.as_str(), SKIP_DIVERGED) || str_eq(r.as_str(), SKIP_DIRTY) {
                Outcome::Failed(r)
            } else {
                Outcome::Skipped(r)
            }
        },
        Err(e) => Outcome::Failed(e),
    }
}

/// Like [`pull_op`], also returning `(repo path, changed files)` for the
/// sidebar whenever a fast-forward actually moved files.
pub fn pull_op_collecting(path: &str, result: Result<(OpOutcome, Vec<String>), String>) -> (r: (
    Outcome,
    Option<(String, Vec<String>)>,
))
    ensures
        r.0@ == pull_outcome(result),
        match result {
            Ok((OpOutcome::Done(_), files)) => if files@.len() > 0 {
                r.1 matches Some((p, f)) && p@ == path@ && f@ == files@
            } else {
                r.1 is None
            },
            _ => r.1 is None,
        },
{
    match result {
        Ok((OpOutcome::Done(s), files)) => {
            if files.len() > 0 {
                (Outcome::Done(s), Some((string_from(&chars_of(path)), files)))
            } else {
                (Outcome::Done(s), None)
            }
        },
        other => (pull_op(other), None),
    }
}

/// Stage-all: nothing staged is a skip.
pub fn stage_all_op(result: Result<u32, String>) -> (r: Outcome)
    ensures
        r@ == (match result {
            Ok(0) => OutcomeV::Skipped("nothing to stage"@),
            Ok(n) => OutcomeV::Done("staged "@ + dec(n as nat)),
            Err(e) => OutcomeV::Failed(e@),
        }),
{
    match result {
        Ok(0) => Outcome::Skipped(string_from(&chars_of("nothing to stage"))),
        Ok(n) => {
            let mut v: Vec<char> = Vec::new();
            push_str(&mut v, "staged ");
            push_all(&mut v, &dec_chars(n as u64));
            Outcome::Done(string_from(&v))
        },
        Err(e) => Outcome::Failed(e),
    }
}

/// The message a manual bulk Commit All uses: trimmed, or the failure when it
/// is blank (no repo is touched then).
pub fn commit_all_message(message: &str) -> (r: Result<String, Outcome>)
    ensures
        match r {
            Ok(m) => trim(message@).len() > 0 && m@ == trim(message@),
            Err(o) => trim(message@).len() == 0 && o@ == OutcomeV::Failed("empty commit message"@),
        },
{
    let m = trim_chars(&chars_of(message));
    if m.len() == 0 {
        Err(Outcome::Failed(string_from(&chars_of("empty commit message"))))
    } else {
        Ok(string_from(&m))
    }
}

/// Commit All: a clean tree is a skip, other git refusals fail.
pub fn commit_all_op(result: Result<String, String>) -> (r: Outcome)
    ensures
        r@ == (match result {
            Ok(hash) => OutcomeV::Done("committed "@ + hash@),
            Err(e) => if e@ == "no staged changes to commit"@ {
                OutcomeV::Skipped("nothing to commit"@)
            } else {
                OutcomeV::Failed(e@)
            },
        }),
{
    match result {
        Ok(hash) => {
            let mut v: Vec<char> = Vec::new();
            push_str(&mut v, "committed ");
            push_str(&mut v, hash.as_str());
            Outcome::Done(string_from(&v))
        },
        Err(e) => {
            if str_eq(e.as_str(), "no staged changes to commit") {
                Outcome::Skipped(string_from(&chars_of("nothing to commit")))
            } else {
                Outcome::Failed(e)
            }
        },
    }
}

/// Push the current branch: the summary or the failure.
pub fn push_op(result: Result<String, String>) -> (r: Outcome)
    ensures
        r@ == (match result {
            Ok(s) => OutcomeV::Done(s@),
            Err(e) => OutcomeV::Failed(e@),
        }),
{
    match result {
        Ok(s) => Outcome::Done(s),
        Err(e) => Outcome::Failed(e),
    }
}

/// Submodule update: repos without submodules skip.
pub fn submodule_update_op(result: Result<String, String>) -> (r: Outcome)
    ensures
        r@ == (match result {
            Ok(s) => OutcomeV::Done(s@),
            Err(e) => if e@ == "no submodules"@ {
                OutcomeV::Skipped(e@)
            } else {
                OutcomeV::Failed(e@)
            },
        }),
{
    match result {
        Ok(s) => Outcome::Done(s),
        Err(e) => {
            if str_eq(e.as_str(), "no submodules") {
                Outcome::Skipped(e)
            } else {
                Outcome::Failed(e)
            }
        },
    }
}

/// The outcome of a reset or discard: done, skipped, or failed as reported.
pub open spec fn op_outcome(result: Result<OpOutcome, String>) -> OutcomeV {
    match result {
        Ok(OpOutcome::Done(s)) => OutcomeV::Done(s@),
        Ok(OpOutcome::Skipped(r)) => OutcomeV::Skipped(r@),
        Err(e) => OutcomeV::Failed(e@),
    }
}

/// Fleet hard reset to the upstream.
pub fn reset_hard_op(result: Result<OpOutcome, String>) -> (r: Outcome)
    ensures
        r@ == op_outcome(result),
{
    match result {
        Ok(OpOutcome::Done(s)) => Outcome::Done(s),
        Ok(OpOutcome::Skipped(r)) => Outcome::Skipped(r),
        Err(e) => Outcome::Failed(e),
    }
}

/// Discard working-tree + index changes relative to HEAD.
pub fn discard_changes_op(result: Result<OpOutcome, String>) -> (r: Outcome)
    ensures
        r@ == op_outcome(result),
{
    reset_hard_op(result)
}

/// Fleet prune: nothing prunable is a skip; otherwise how many went.
pub fn prune_op(result: Result<Vec<String>, String>) -> (r: Outcome)
    ensures
        r@ == (match result {
            Ok(names) => if names@.len() == 0 {
                OutcomeV::Skipped("nothing prunable"@)
            } else {
                OutcomeV::Done(
                    "pruned "@ + dec(names@.len()) + " "@ + (if names@.len() == 1 {
                        "branch"@
                    } else {
                        "branches"@
                    }),
                )
            },
            Err(e) => OutcomeV::Failed(e@),
        }),
{
    match result {
        Ok(names) => {
            if names.len() == 0 {
                Outcome::Skipped(string_from(&chars_of("nothing prunable")))
            } else {
                let mut v: Vec<char> = Vec::new();
                push_str(&mut v, "pruned ");
                push_all(&mut v, &dec_chars(names.len() as u64));
                push_str(&mut v, " ");
                if names.len() == 1 {
                    push_str(&mut v, "branch");
                } else {
                    push_str(&mut v, "branches");
                }
                Outcome::Done(string_from(&v))
            }
        },
        Err(e) => Outcome::Failed(e),
    }
}

} // verus!
