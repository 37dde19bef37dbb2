//! The pure parts of RepoHarbor's git operations: outcome shapes, skip
//! reasons, and the wording of command and push results.
use vstd::prelude::*;

use crate::attention::{lex_lt, lex_lt_exec};
use crate::model::opt_view;
use crate::text::{
    chars_eq, chars_of, clamp, contains, contains_chars, join, join_chars, lines, lines_of, push_all, push_str,
    slice_of, string_from, utf8_len, views,
};

verus! {

/// Outcome of a fleet write op: either it did something, or it was safely
/// skipped (e.g. a dirty tree). A hard `Err` is reserved for real failures.
#[derive(Debug, Clone)]
pub enum OpOutcome {
    Done(String),
    Skipped(String),
}

/// Skip reason: local history diverged from upstream.
pub const SKIP_DIVERGED: &'static str = "diverged";

/// Skip reason: uncommitted changes in the working tree.
pub const SKIP_DIRTY: &'static str = "uncommitted changes";

/// Result of a command run in a repo directory.
#[derive(Debug, Clone)]
pub struct CmdResult {
    pub code: Option<i32>,
    pub ok: bool,
    /// Last few lines of combined stdout+stderr.
    pub output_tail: String,
}

/// The last `n` lines of `s`, keeping only the final 400 characters.
pub open spec fn tail_of(s: Seq<char>, n: nat) -> Seq<char> {
    let ls = lines(s);
    let start = if ls.len() > n {
        ls.len() - n
    } else {
        0
    };
    let tail = join(ls.skip(start), "\n"@);
    if tail.len() > 400 {
        tail.skip(tail.len() - 400)
    } else {
        tail
    }
}

/// Most bytes of diff text handed to the UI.
pub const DIFF_CAP_BYTES: usize = 200000;

/// The marker appended to a capped diff.
pub const DIFF_TRUNCATED: &'static str = "\n… diff truncated …\n";

/// Bytes of one character in UTF-8.
pub open spec fn char_bytes(c: char) -> nat {
    if (c as u32) < 0x80 {
        1
    } else if (c as u32) < 0x800 {
        2
    } else if (c as u32) < 0x10000 {
        3
    } else {
        4
    }
}

/// A capped diff: the text itself when it fits in `DIFF_CAP_BYTES` bytes,
/// else its longest whole-character prefix that fits, then the marker.
pub open spec fn capped_diff(s: Seq<char>, r: Seq<char>) -> bool {
    if utf8_len(s) <= DIFF_CAP_BYTES {
        r == s
    } else {
        exists|k: int|
            0 <= k < s.len() && utf8_len(#[trigger] s.take(k)) <= DIFF_CAP_BYTES && utf8_len(s.take(k + 1))
                > DIFF_CAP_BYTES && r == s.take(k) + DIFF_TRUNCATED@
    }
}

proof fn lemma_utf8_step(s: Seq<char>, k: int)
    requires
        0 <= k < s.len(),
    ensures
        utf8_len(s.take(k + 1)) == utf8_len(s.take(k)) + char_bytes(s[k]),
{
    assert(s.take(k + 1).drop_last() =~= s.take(k));
    assert(s.take(k + 1).last() == s[k]);
}

fn char_bytes_exec(c: char) -> (r: usize)
    ensures
        r == char_bytes(c),
{
    if (c as u32) < 0x80 {
        1
    } else if (c as u32) < 0x800 {
        2
    } else if (c as u32) < 0x10000 {
        3
    } else {
        4
    }
}

/// Cap diff text for display at `DIFF_CAP_BYTES` bytes, on a character
/// boundary, marking the cut.
pub fn cap_diff(text: String) -> (r: String)
    ensures
        capped_diff(text@, r@),
{
    let c = chars_of(text.as_str());
    let mut n: usize = 0;
    let mut k: usize = 0;
    while k < c.len()
        invariant
            k <= c@.len(),
            c@ == text@,
            n == utf8_len(c@.take(k as int)),
            n <= DIFF_CAP_BYTES,
        decreases c.len() - k,
    {
        let b = char_bytes_exec(c[k]);
        proof {
            lemma_utf8_step(c@, k as int);
        }
        if n + b > DIFF_CAP_BYTES {
            proof {
                assert(utf8_len(c@) > DIFF_CAP_BYTES) by {
                    crate::text::lemma_utf8_len_mono(c@, k + 1);
                }
            }
            let mut v = slice_of(&c, 0, k);
            push_str(&mut v, DIFF_TRUNCATED);
            let r = string_from(&v);
            proof {
                assert(v@ == c@.take(k as int) + DIFF_TRUNCATED@) by {
                    assert(c@.subrange(0, k as int) =~= c@.take(k as int));
                }
                assert(utf8_len(c@.take(k as int)) <= DIFF_CAP_BYTES);
            }
            return r;
        }
        n = n + b;
        k = k + 1;
    }
    proof {
        assert(c@.take(c@.len() as int) =~= c@);
    }
    text
}

/// The last `n` lines of `s`, capped to its final 400 characters for display.
pub fn tail_lines(s: &str, n: usize) -> (r: String)
    ensures
        r@ == tail_of(s@, n as nat),
{
    let c = chars_of(s);
    let ls = lines_of(&c);
    let start: usize = if ls.len() > n {
        ls.len() - n
    } else {
        0
    };
    let mut tail_lines: Vec<Vec<char>> = Vec::new();
    let mut k: usize = start;
    while k < ls.len()
        invariant
            start <= k <= ls@.len(),
            views(tail_lines@) == views(ls@).subrange(start as int, k as int),
        decreases ls.len() - k,
    {
        let l = slice_of(&ls[k], 0, ls[k].len());
        proof {
            assert(views(ls@)[k as int] == ls@[k as int]@);
            assert(l@ =~= ls@[k as int]@);
            crate::text::lemma_views_push(tail_lines@, l);
            assert(views(tail_lines@.push(l)) =~= views(ls@).subrange(start as int, k + 1));
        }
        tail_lines.push(l);
        k = k + 1;
    }
    proof {
        assert(views(ls@).subrange(start as int, ls@.len() as int) =~= lines(s@).skip(start as int));
    }
    let nl = chars_of("\n");
    let tail = join_chars(&tail_lines, &nl);
    if tail.len() > 400 {
        let m = tail.len();
        string_from(&slice_of(&tail, m - 400, m))
    } else {
        string_from(&tail)
    }
}

/// The non-fast-forward rejection message (RepoHarbor never force-pushes).
pub open spec fn rejection_text(detail: Seq<char>) -> Seq<char> {
    "push rejected (non-fast-forward) — pull or rebase first; RepoHarbor never forces ("@ + detail
        + ")"@
}

pub fn push_rejection(detail: &str) -> (r: String)
    ensures
        r@ == rejection_text(detail@),
{
    let mut v: Vec<char> = Vec::new();
    push_str(&mut v, "push rejected (non-fast-forward) — pull or rebase first; RepoHarbor never forces (");
    push_str(&mut v, detail);
    push_str(&mut v, ")");
    string_from(&v)
}

/// The wording of a failed push with libgit2 message `msg`; `ssh_class` is
/// whether libgit2 classed the error as an SSH one.
pub open spec fn push_error_text(msg: Seq<char>, ssh_class: bool) -> Seq<char> {
    if contains(msg, "authentication"@) || contains(msg, "credentials"@) || ssh_class {
        "authentication failed — check your SSH agent or git credential helper ("@ + msg + ")"@
    } else if contains(msg, "non-fastforwardable"@) || contains(msg, "non-fast-forward"@) {
        rejection_text(msg)
    } else {
        msg
    }
}

/// A clear message for a push failure: auth problems and non-fast-forward
/// rejections get actionable phrasing instead of raw libgit2 text.
pub fn push_error(msg: &str, ssh_class: bool) -> (r: String)
    ensures
        r@ == push_error_text(msg@, ssh_class),
{
    let m = chars_of(msg);
    if contains_chars(&m, &chars_of("authentication")) || contains_chars(&m, &chars_of("credentials"))
        || ssh_class {
        let mut v: Vec<char> = Vec::new();
        push_str(&mut v, "authentication failed — check your SSH agent or git credential helper (");
        push_str(&mut v, msg);
        push_str(&mut v, ")");
        return string_from(&v);
    }
    if contains_chars(&m, &chars_of("non-fastforwardable")) || contains_chars(
        &m,
        &chars_of("non-fast-forward"),
    ) {
        return push_rejection(msg);
    }
    string_from(&m)
}


// ───────────────────────────── data shapes ─────────────────────────────

/// A local branch.
#[derive(Debug, Clone)]
pub struct BranchInfo {
    pub name: String,
    pub is_head: bool,
    pub upstream: Option<String>,
    /// Upstream was configured but its remote-tracking ref is gone.
    pub gone: bool,
    /// Fully contained in the default branch (safe to prune).
    pub merged: bool,
}

/// A commit of a log.
#[derive(Debug, Clone)]
pub struct CommitInfo {
    pub id: String,
    pub summary: String,
    pub author: String,
    pub time_unix: i64,
}

/// A linked worktree.
#[derive(Debug, Clone)]
pub struct WorktreeInfo {
    pub name: String,
    pub path: String,
}

/// What kind of pending change a file has (relative to HEAD or the index).
#[derive(Debug, Clone, Copy, PartialEq, Eq, Structural)]
pub enum ChangeKind {
    Modified,
    Added,
    Deleted,
    Renamed,
    Untracked,
}

/// One file's pending change: a path both staged and further modified in the
/// working tree yields two entries.
#[derive(Debug, Clone)]
pub struct FileChange {
    pub path: String,
    pub kind: ChangeKind,
    /// In the index (part of the next commit) vs working-tree only.
    pub staged: bool,
}

/// One hunk of a single file's diff, for hunk-level staging.
#[derive(Debug, Clone)]
pub struct Hunk {
    /// The `@@ -a,b +c,d @@ …` header line (no trailing newline).
    pub header: String,
    /// Body lines, each prefixed with its origin char (` `, `+`, `-`).
    pub lines: Vec<String>,
    pub old_start: u32,
    pub old_lines: u32,
    pub new_start: u32,
    pub new_lines: u32,
}

/// The status bits of one entry of `git status`.
#[derive(Debug, Clone, Copy, PartialEq, Eq, Structural)]
pub struct StatusBits {
    pub ignored: bool,
    pub conflicted: bool,
    pub index_new: bool,
    pub index_modified: bool,
    pub index_deleted: bool,
    pub index_renamed: bool,
    pub index_typechange: bool,
    pub wt_new: bool,
    pub wt_modified: bool,
    pub wt_deleted: bool,
    pub wt_renamed: bool,
    pub wt_typechange: bool,
}

// ───────────────────────────── status counts ─────────────────────────────

/// A change against HEAD in the index.
pub open spec fn index_change(b: StatusBits) -> bool {
    b.index_new || b.index_modified || b.index_deleted || b.index_renamed || b.index_typechange
}

/// A change against the index in the working tree.
pub open spec fn wt_change(b: StatusBits) -> bool {
    b.wt_new || b.wt_modified || b.wt_deleted || b.wt_renamed || b.wt_typechange
}

/// (dirty, staged, unstaged, conflicts) counts of status entries; ignored
/// entries count for nothing.
pub open spec fn counts_of(es: Seq<StatusBits>) -> (nat, nat, nat, nat)
    decreases es.len(),
{
    if es.len() == 0 {
        (0, 0, 0, 0)
    } else {
        let c = counts_of(es.drop_last());
        let b = es.last();
        if b.ignored {
            c
        } else {
            (
                c.0 + 1,
                c.1 + if index_change(b) {
                    1nat
                } else {
                    0nat
                },
                c.2 + if wt_change(b) {
                    1nat
                } else {
                    0nat
                },
                c.3 + if b.conflicted {
                    1nat
                } else {
                    0nat
                },
            )
        }
    }
}

proof fn lemma_counts_bound(es: Seq<StatusBits>)
    ensures
        counts_of(es).0 <= es.len(),
        counts_of(es).1 <= counts_of(es).0,
        counts_of(es).2 <= counts_of(es).0,
        counts_of(es).3 <= counts_of(es).0,
    decreases es.len(),
{
    if es.len() > 0 {
        lemma_counts_bound(es.drop_last());
    }
}

/// How a repo's status entries are counted: every entry that is not ignored
/// is dirty; it is staged when the index holds any change of it (new,
/// modified, deleted, renamed or type-changed), unstaged when the working
/// tree holds any such change, and a conflict when conflicted. Each count is
/// the number of entries with that property.
pub proof fn law_status_counts_by_flags(es: Seq<StatusBits>)
    ensures
        counts_of(es).0 == es.filter(|b: StatusBits| !b.ignored).len(),
        counts_of(es).1 == es.filter(
            |b: StatusBits|
                !b.ignored && (b.index_new || b.index_modified || b.index_deleted || b.index_renamed
                    || b.index_typechange),
        ).len(),
        counts_of(es).2 == es.filter(
            |b: StatusBits|
                !b.ignored && (b.wt_new || b.wt_modified || b.wt_deleted || b.wt_renamed
                    || b.wt_typechange),
        ).len(),
        counts_of(es).3 == es.filter(|b: StatusBits| !b.ignored && b.conflicted).len(),
    decreases es.len(),
{
    reveal(Seq::filter);
    if es.len() > 0 {
        law_status_counts_by_flags(es.drop_last());
    }
}

/// A repo's git status: its branch (`HEAD` when detached or unknown),
/// ahead/behind its upstream (0/0 without one), and the counts of its status
/// entries.
pub fn status_counts(branch: Option<String>, ahead_behind: Option<(u32, u32)>, entries: &[StatusBits]) -> (r:
    crate::model::GitStatus)
    requires
        entries@.len() <= u32::MAX,
    ensures
        r.branch@ == match branch {
            Some(b) => b@,
            None => "HEAD"@,
        },
        (r.ahead, r.behind) == match ahead_behind {
            Some(p) => p,
            None => (0u32, 0u32),
        },
        (r.dirty as nat, r.staged as nat, r.unstaged as nat, r.conflicts as nat) == counts_of(
            entries@,
        ),
{
    let mut dirty: u32 = 0;
    let mut staged: u32 = 0;
    let mut unstaged: u32 = 0;
    let mut conflicts: u32 = 0;
    let mut k: usize = 0;
    while k < entries.len()
        invariant
            k <= entries@.len() <= u32::MAX,
            (dirty as nat, staged as nat, unstaged as nat, conflicts as nat) == counts_of(
                entries@.take(k as int),
            ),
        decreases entries.len() - k,
    {
        proof {
            assert(entries@.take(k + 1).drop_last() =~= entries@.take(k as int));
            assert(entries@.take(k + 1).last() == entries@[k as int]);
            lemma_counts_bound(entries@.take(k as int));
        }
        let b = entries[k];
        if !b.ignored {
            dirty = dirty + 1;
            if b.conflicted {
                conflicts = conflicts + 1;
            }
            if b.index_new || b.index_modified || b.index_deleted || b.index_renamed
                || b.index_typechange {
                staged = staged + 1;
            }
            if b.wt_new || b.wt_modified || b.wt_deleted || b.wt_renamed || b.wt_typechange {
                unstaged = unstaged + 1;
            }
        }
        k = k + 1;
    }
    proof {
        assert(entries@.take(entries@.len() as int) =~= entries@);
    }
    let (ahead, behind) = match ahead_behind {
        Some(p) => p,
        None => (0, 0),
    };
    crate::model::GitStatus {
        branch: match branch {
            Some(b) => b,
            None => string_from(&chars_of("HEAD")),
        },
        ahead,
        behind,
        dirty,
        staged,
        unstaged,
        conflicts,
    }
}

// ───────────────────────────── pending changes ─────────────────────────────

/// The staged change an entry shows (renames first: a rename can also be
/// modified); an unmatched conflict still shows as modified.
pub open spec fn staged_kind_of(b: StatusBits) -> Option<ChangeKind> {
    if b.index_renamed {
        Some(ChangeKind::Renamed)
    } else if b.index_new {
        Some(ChangeKind::Added)
    } else if b.index_deleted {
        Some(ChangeKind::Deleted)
    } else if b.index_modified || b.index_typechange {
        Some(ChangeKind::Modified)
    } else if b.conflicted {
        Some(ChangeKind::Modified)
    } else {
        None
    }
}

/// The working-tree change an entry shows.
pub open spec fn unstaged_kind_of(b: StatusBits) -> Option<ChangeKind> {
    if b.wt_renamed {
        Some(ChangeKind::Renamed)
    } else if b.wt_new {
        Some(ChangeKind::Untracked)
    } else if b.wt_deleted {
        Some(ChangeKind::Deleted)
    } else if b.wt_modified || b.wt_typechange {
        Some(ChangeKind::Modified)
    } else {
        None
    }
}

pub fn staged_kind(b: StatusBits) -> (r: Option<ChangeKind>)
    ensures
        r == staged_kind_of(b),
{
    if b.index_renamed {
        Some(ChangeKind::Renamed)
    } else if b.index_new {
        Some(ChangeKind::Added)
    } else if b.index_deleted {
        Some(ChangeKind::Deleted)
    } else if b.index_modified || b.index_typechange {
        Some(ChangeKind::Modified)
    } else if b.conflicted {
        Some(ChangeKind::Modified)
    } else {
        None
    }
}

pub fn unstaged_kind(b: StatusBits) -> (r: Option<ChangeKind>)
    ensures
        r == unstaged_kind_of(b),
{
    if b.wt_renamed {
        Some(ChangeKind::Renamed)
    } else if b.wt_new {
        Some(ChangeKind::Untracked)
    } else if b.wt_deleted {
        Some(ChangeKind::Deleted)
    } else if b.wt_modified || b.wt_typechange {
        Some(ChangeKind::Modified)
    } else {
        None
    }
}

/// (path, kind, staged) of a change.
pub open spec fn change_view(c: FileChange) -> (Seq<char>, ChangeKind, bool) {
    (c.path@, c.kind, c.staged)
}

/// The change rows of status entries (path, bits), in order: per entry its
/// staged row, then its working-tree row; entries without a path show none.
pub open spec fn changes_of(es: Seq<(String, StatusBits)>) -> Seq<(Seq<char>, ChangeKind, bool)>
    decreases es.len(),
{
    if es.len() == 0 {
        Seq::empty()
    } else {
        let r = changes_of(es.drop_last());
        let (p, b) = es.last();
        if p@.len() == 0 {
            r
        } else {
            let r1 = match staged_kind_of(b) {
                Some(k) => r.push((p@, k, true)),
                None => r,
            };
            match unstaged_kind_of(b) {
                Some(k) => r1.push((p@, k, false)),
                None => r1,
            }
        }
    }
}

pub open spec fn change_views(v: Seq<FileChange>) -> Seq<(Seq<char>, ChangeKind, bool)> {
    v.map_values(|c: FileChange| change_view(c))
}

/// Every pending change, split per file into staged and working-tree rows.
pub fn file_changes(entries: &[(String, StatusBits)]) -> (r: Vec<FileChange>)
    ensures
        change_views(r@) == changes_of(entries@),
{
    let mut out: Vec<FileChange> = Vec::new();
    let mut k: usize = 0;
    proof {
        assert(entries@.take(0) =~= Seq::<(String, StatusBits)>::empty());
        assert(change_views(out@) =~= Seq::<(Seq<char>, ChangeKind, bool)>::empty());
    }
    while k < entries.len()
        invariant
            k <= entries@.len(),
            change_views(out@) == changes_of(entries@.take(k as int)),
        decreases entries.len() - k,
    {
        proof {
            assert(entries@.take(k + 1).drop_last() =~= entries@.take(k as int));
            assert(entries@.take(k + 1).last() == entries@[k as int]);
        }
        let (p, b) = (&entries[k].0, entries[k].1);
        if p.unicode_len() > 0 {
            match staged_kind(b) {
                Some(kind) => {
                    let c = FileChange { path: p.clone(), kind, staged: true };
                    proof {
                        assert(change_views(out@.push(c)) =~= change_views(out@).push(change_view(c)));
                    }
                    out.push(c);
                },
                None => {},
            }
            match unstaged_kind(b) {
                Some(kind) => {
                    let c = FileChange { path: p.clone(), kind, staged: false };
                    proof {
                        assert(change_views(out@.push(c)) =~= change_views(out@).push(change_view(c)));
                    }
                    out.push(c);
                },
                None => {},
            }
        }
        k = k + 1;
    }
    proof {
        assert(entries@.take(entries@.len() as int) =~= entries@);
    }
    out
}

// ───────────────────────────── sorted path lists ─────────────────────────────

/// Strictly increasing (so also free of duplicates).
pub open spec fn strictly_sorted(s: Seq<Seq<char>>) -> bool {
    forall|i: int, j: int| 0 <= i < j < s.len() ==> lex_lt(#[trigger] s[i], #[trigger] s[j])
}

pub proof fn lemma_lex_total(a: Seq<char>, b: Seq<char>)
    requires
        a != b,
    ensures
        lex_lt(a, b) || lex_lt(b, a),
    decreases a.len(),
{
    if a.len() > 0 && b.len() > 0 && a[0] == b[0] {
        assert(a.drop_first() != b.drop_first()) by {
            if a.drop_first() == b.drop_first() {
                assert(a =~= seq![a[0]] + a.drop_first());
                assert(b =~= seq![b[0]] + b.drop_first());
            }
        }
        lemma_lex_total(a.drop_first(), b.drop_first());
    } else if a.len() > 0 && b.len() > 0 {
        assert(a[0] != b[0]);
    } else if a.len() == 0 && b.len() == 0 {
        assert(a =~= b);
    }
}

/// Insert `x` into a strictly increasing list of strings (unless present).
fn insert_sorted_unique(v: &mut Vec<String>, x: String)
    requires
        strictly_sorted(crate::text::str_views(old(v)@)),
    ensures
        strictly_sorted(crate::text::str_views(final(v)@)),
        forall|y: Seq<char>| crate::text::str_views(final(v)@).contains(y) <==> (crate::text::str_views(
            old(v)@,
        ).contains(y) || y == x@),
{
    let ghost sv = crate::text::str_views(v@);
    let xc = chars_of(x.as_str());
    let mut p: usize = 0;
    while p < v.len() && lex_lt_exec(&chars_of(v[p].as_str()), &xc)
        invariant
            p <= v@.len(),
            sv == crate::text::str_views(v@),
            xc@ == x@,
            forall|i: int| 0 <= i < p ==> lex_lt(#[trigger] sv[i], x@),
        decreases v.len() - p,
    {
        p = p + 1;
    }
    if p < v.len() && crate::text::str_eq(v[p].as_str(), x.as_str()) {
        proof {
            assert(sv[p as int] == x@);
        }
        return;
    }
    proof {
        if p < sv.len() {
            assert(!lex_lt(sv[p as int], x@));
            assert(sv[p as int] != x@);
            lemma_lex_total(sv[p as int], x@);
        }
    }
    v.insert(p, x);
    proof {
        let nv = crate::text::str_views(v@);
        assert(nv =~= sv.insert(p as int, x@));
        assert forall|i: int, j: int| 0 <= i < j < nv.len() implies lex_lt(#[trigger] nv[i], #[trigger] nv[j]) by {
            if j < p {
                assert(nv[i] == sv[i] && nv[j] == sv[j]);
            } else if j == p {
                assert(nv[i] == sv[i]);
            } else if i == p {
                assert(nv[j] == sv[j - 1]);
                if j - 1 > p {
                    crate::attention::lemma_lex_trans(x@, sv[p as int], sv[j - 1]);
                }
            } else if i < p {
                assert(nv[i] == sv[i] && nv[j] == sv[j - 1]);
                crate::attention::lemma_lex_trans(sv[i], x@, sv[p as int]);
                if j - 1 > p {
                    crate::attention::lemma_lex_trans(sv[i], sv[p as int], sv[j - 1]);
                }
            } else {
                assert(nv[i] == sv[i - 1] && nv[j] == sv[j - 1]);
            }
        }
        assert forall|y: Seq<char>| nv.contains(y) <==> (sv.contains(y) || y == x@) by {
            if nv.contains(y) {
                let i = choose|i: int| 0 <= i < nv.len() && nv[i] == y;
                if i < p {
                    assert(sv[i] == y);
                } else if i > p {
                    assert(sv[i - 1] == y);
                }
            }
            if sv.contains(y) {
                let i = choose|i: int| 0 <= i < sv.len() && sv[i] == y;
                if i < p {
                    assert(nv[i] == y);
                } else {
                    assert(nv[i + 1] == y);
                }
            }
            if y == x@ {
                assert(nv[p as int] == y);
            }
        }
    }
}

/// Paths changed between two commits as the UI lists them: empty paths
/// dropped, the first `LANDED_CAP` kept, then sorted and de-duplicated.
pub const LANDED_CAP: usize = 200;

/// The non-empty paths of `ps`, at most `cap` of them, in order.
pub open spec fn first_nonempty(ps: Seq<Seq<char>>, cap: nat) -> Seq<Seq<char>>
    decreases ps.len(),
{
    if ps.len() == 0 || cap == 0 {
        Seq::empty()
    } else if ps[0].len() > 0 {
        seq![ps[0]] + first_nonempty(ps.drop_first(), (cap - 1) as nat)
    } else {
        first_nonempty(ps.drop_first(), cap)
    }
}

/// The paths that landed with a fast-forward, for display: sorted, each once.
pub fn landed_paths(paths: &[String]) -> (r: Vec<String>)
    ensures
        strictly_sorted(crate::text::str_views(r@)),
        forall|y: Seq<char>| crate::text::str_views(r@).contains(y) <==> first_nonempty(
            crate::text::str_views(paths@),
            LANDED_CAP as nat,
        ).contains(y),
{
    let ghost pv = crate::text::str_views(paths@);
    let mut kept: Vec<String> = Vec::new();
    let mut out: Vec<String> = Vec::new();
    let mut k: usize = 0;
    proof {
        assert(pv.skip(0) =~= pv);
        assert(crate::text::str_views(kept@) + first_nonempty(pv, LANDED_CAP as nat) =~= first_nonempty(pv, LANDED_CAP as nat));
    }
    while k < paths.len() && kept.len() < LANDED_CAP
        invariant
            k <= paths@.len(),
            kept@.len() <= LANDED_CAP,
            pv == crate::text::str_views(paths@),
            crate::text::str_views(kept@) + first_nonempty(pv.skip(k as int), (LANDED_CAP - kept@.len()) as nat)
                == first_nonempty(pv, LANDED_CAP as nat),
            strictly_sorted(crate::text::str_views(out@)),
            forall|y: Seq<char>| crate::text::str_views(out@).contains(y) <==> crate::text::str_views(kept@).contains(y),
        decreases paths.len() - k,
    {
        proof {
            assert(pv.skip(k as int)[0] == pv[k as int]);
            assert(pv.skip(k as int).drop_first() =~= pv.skip(k + 1));
        }
        if paths[k].unicode_len() > 0 {
            let a = paths[k].clone();
            let b = paths[k].clone();
            proof {
                assert(crate::text::str_views(kept@.push(a)) =~= crate::text::str_views(kept@).push(a@));
                assert(crate::text::str_views(kept@).push(a@) + first_nonempty(pv.skip(k + 1), (LANDED_CAP - kept@.len() - 1) as nat)
                    =~= crate::text::str_views(kept@) + (seq![a@] + first_nonempty(pv.skip(k + 1), (LANDED_CAP - kept@.len() - 1) as nat)));
            }
            let ghost old_kept = crate::text::str_views(kept@);
            kept.push(a);
            insert_sorted_unique(&mut out, b);
            proof {
                assert forall|y: Seq<char>| crate::text::str_views(out@).contains(y) <==> crate::text::str_views(kept@).contains(y) by {
                    let kv = crate::text::str_views(kept@);
                    assert(kv =~= old_kept.push(b@));
                    if y == b@ {
                        assert(kv[kv.len() - 1] == y);
                    }
                    if kv.contains(y) && y != b@ {
                        let i = choose|i: int| 0 <= i < kv.len() && kv[i] == y;
                        assert(old_kept[i] == y);
                    }
                    if old_kept.contains(y) {
                        let i = choose|i: int| 0 <= i < old_kept.len() && old_kept[i] == y;
                        assert(kv[i] == y);
                    }
                }
            }
        }
        k = k + 1;
    }
    proof {
        if k == paths@.len() {
            assert(pv.skip(k as int) =~= Seq::<Seq<char>>::empty());
        }
        let rest = first_nonempty(pv.skip(k as int), (LANDED_CAP - kept@.len()) as nat);
        assert(rest =~= Seq::<Seq<char>>::empty());
        assert(crate::text::str_views(kept@) + rest =~= crate::text::str_views(kept@));
    }
    out
}

/// The paths `stage_all` stages: every working-tree change's path, sorted,
/// each once.
pub fn paths_to_stage(changes: &[FileChange]) -> (r: Vec<String>)
    ensures
        strictly_sorted(crate::text::str_views(r@)),
        forall|y: Seq<char>| crate::text::str_views(r@).contains(y) <==> exists|i: int|
            0 <= i < changes@.len() && !(#[trigger] changes@[i]).staged && changes@[i].path@ == y,
{
    let mut out: Vec<String> = Vec::new();
    let mut k: usize = 0;
    while k < changes.len()
        invariant
            k <= changes@.len(),
            strictly_sorted(crate::text::str_views(out@)),
            forall|y: Seq<char>| crate::text::str_views(out@).contains(y) <==> exists|i: int|
                0 <= i < k && !(#[trigger] changes@[i]).staged && changes@[i].path@ == y,
        decreases changes.len() - k,
    {
        if !changes[k].staged {
            let ghost before = crate::text::str_views(out@);
            insert_sorted_unique(&mut out, changes[k].path.clone());
            proof {
                assert forall|y: Seq<char>| crate::text::str_views(out@).contains(y) <==> exists|i: int|
                    0 <= i < k + 1 && !(#[trigger] changes@[i]).staged && changes@[i].path@ == y by {
                    if y == changes@[k as int].path@ {
                        assert(!changes@[k as int].staged);
                    }
                }
            }
        }
        k = k + 1;
    }
    out
}

/// Branches that are safe to prune: merged or with a gone upstream, never
/// HEAD, `main`, `master`, or the checked-out branch.
pub open spec fn prunable_branch(b: BranchInfo, head: Option<Seq<char>>) -> bool {
    &&& !b.is_head
    &&& b.name@ != "main"@
    &&& b.name@ != "master"@
    &&& head != Some(b.name@)
    &&& (b.merged || b.gone)
}

/// The prunable branches among `branches`, in order.
pub fn prunable_branches(branches: Vec<BranchInfo>, head: Option<&str>) -> (r: Vec<BranchInfo>)
    ensures
        r@ == branches@.filter(|b: BranchInfo| prunable_branch(b, crate::model::ref_view(head))),
{
    let ghost all = branches@;
    let ghost hv = crate::model::ref_view(head);
    let mut rest = branches;
    let mut out: Vec<BranchInfo> = Vec::new();
    let n = rest.len();
    let mut k: usize = 0;
    proof {
        assert(rest@.skip(0) =~= all);
        reveal(Seq::filter);
        assert(all.take(0).filter(|b: BranchInfo| prunable_branch(b, hv)) =~= Seq::<BranchInfo>::empty());
    }
    while k < n
        invariant
            n == all.len(),
            k <= n,
            rest@ == all.skip(k as int),
            hv == crate::model::ref_view(head),
            out@ == all.take(k as int).filter(|b: BranchInfo| prunable_branch(b, hv)),
        decreases n - k,
    {
        proof {
            assert(all.take(k + 1).drop_last() =~= all.take(k as int));
            assert(all.take(k + 1).last() == all[k as int]);
            reveal(Seq::filter);
        }
        let b = rest.remove(0);
        proof {
            assert(b == all[k as int]);
            assert(rest@ =~= all.skip(k + 1));
        }
        let is_head_name = match head {
            Some(h) => crate::text::str_eq(b.name.as_str(), h),
            None => false,
        };
        if !b.is_head && !crate::text::str_eq(b.name.as_str(), "main") && !crate::text::str_eq(
            b.name.as_str(),
            "master",
        ) && !is_head_name && (b.merged || b.gone) {
            out.push(b);
        }
        k = k + 1;
    }
    proof {
        assert(all.take(n as int) =~= all);
    }
    out
}

// ───────────────────────────── wording ─────────────────────────────

/// A diff body line for display: its origin char (` `, `+`, `-`) then the
/// content without trailing line breaks; other origins show the bare content.
pub open spec fn hunk_line_of(origin: char, content: Seq<char>) -> Seq<char> {
    let c = trim_end_breaks(content);
    if origin == ' ' || origin == '+' || origin == '-' {
        seq![origin] + c
    } else {
        c
    }
}

/// `s.trim_end_matches(['\n', '\r'])`.
pub open spec fn trim_end_breaks(s: Seq<char>) -> Seq<char>
    decreases s.len(),
{
    if s.len() > 0 && (s.last() == '\n' || s.last() == '\r') {
        trim_end_breaks(s.drop_last())
    } else {
        s
    }
}

pub fn hunk_line(origin: char, content: &str) -> (r: String)
    ensures
        r@ == hunk_line_of(origin, content@),
{
    let c = chars_of(content);
    let mut e: usize = c.len();
    proof {
        assert(c@.take(e as int) =~= c@);
    }
    while e > 0 && (c[e - 1] == '\n' || c[e - 1] == '\r')
        invariant
            e <= c@.len(),
            trim_end_breaks(c@.take(e as int)) == trim_end_breaks(c@),
        decreases e,
    {
        proof {
            assert(c@.take(e as int).drop_last() =~= c@.take(e - 1));
        }
        e = e - 1;
    }
    let body = slice_of(&c, 0, e);
    proof {
        assert(body@ =~= c@.take(e as int));
    }
    if origin == ' ' || origin == '+' || origin == '-' {
        let mut v: Vec<char> = Vec::new();
        v.push(origin);
        crate::text::push_all(&mut v, &body);
        proof {
            assert(v@ =~= seq![origin] + body@);
        }
        string_from(&v)
    } else {
        string_from(&body)
    }
}

/// The detail of a fast-forward pull.
pub fn ff_detail(behind: usize, files: usize) -> (r: String)
    ensures
        r@ == if files == 0 {
            "fast-forwarded "@ + crate::text::dec(behind as nat)
        } else {
            "fast-forwarded "@ + crate::text::dec(behind as nat) + " ("@ + crate::text::dec(
                files as nat,
            ) + " files)"@
        },
{
    let mut v = chars_of("fast-forwarded ");
    crate::text::push_all(&mut v, &crate::text::dec_chars(behind as u64));
    if files > 0 {
        push_str(&mut v, " (");
        crate::text::push_all(&mut v, &crate::text::dec_chars(files as u64));
        push_str(&mut v, " files)");
    }
    string_from(&v)
}

/// The success toast of a push.
pub fn push_summary(branch: &str, remote: &str, upstream_set: bool) -> (r: String)
    ensures
        r@ == if upstream_set {
            branch@ + " → "@ + remote@ + "/"@ + branch@ + " (upstream set)"@
        } else {
            branch@ + " → "@ + remote@
        },
{
    let mut v = chars_of(branch);
    push_str(&mut v, " → ");
    push_str(&mut v, remote);
    if upstream_set {
        push_str(&mut v, "/");
        push_str(&mut v, branch);
        push_str(&mut v, " (upstream set)");
    }
    string_from(&v)
}

/// A submodule's branch from `.gitmodules`, when set (trimmed, non-empty).
pub fn configured_branch(configured: Option<&str>) -> (r: Option<String>)
    ensures
        match r {
            Some(b) => configured matches Some(c) && b@ == crate::text::trim(c@) && b@.len() > 0,
            None => match configured {
                Some(c) => crate::text::trim(c@).len() == 0,
                None => true,
            },
        },
{
    match configured {
        Some(c) => {
            let t = crate::text::trim_chars(&chars_of(c));
            if t.len() > 0 {
                Some(string_from(&t))
            } else {
                None
            }
        },
        None => None,
    }
}

/// A submodule's report line after its pull: the pull's detail, or why it
/// was skipped (noting a fresh init).
pub fn submodule_pull_note(rel: &str, freshly_inited: bool, outcome: &OpOutcome) -> (r: String)
    ensures
        r@ == match outcome {
            OpOutcome::Done(s) => rel@ + ": "@ + s@,
            OpOutcome::Skipped(x) => if freshly_inited {
                rel@ + ": initialized; skipped pull ("@ + x@ + ")"@
            } else {
                rel@ + ": skipped ("@ + x@ + ")"@
            },
        },
{
    let mut v = chars_of(rel);
    match outcome {
        OpOutcome::Done(s) => {
            push_str(&mut v, ": ");
            push_str(&mut v, s.as_str());
        },
        OpOutcome::Skipped(x) => {
            if freshly_inited {
                push_str(&mut v, ": initialized; skipped pull (");
            } else {
                push_str(&mut v, ": skipped (");
            }
            push_str(&mut v, x.as_str());
            push_str(&mut v, ")");
        },
    }
    string_from(&v)
}

/// A submodule's report line when it could not be put on its branch.
pub fn submodule_checkout_note(rel: &str, freshly_inited: bool, reason: &str) -> (r: String)
    ensures
        r@ == if freshly_inited {
            rel@ + ": initialized; skipped ("@ + reason@ + ")"@
        } else {
            rel@ + ": skipped ("@ + reason@ + ")"@
        },
{
    let mut v = chars_of(rel);
    if freshly_inited {
        push_str(&mut v, ": initialized; skipped (");
    } else {
        push_str(&mut v, ": skipped (");
    }
    push_str(&mut v, reason);
    push_str(&mut v, ")");
    string_from(&v)
}

/// A submodule's report line when it has no branch to follow.
pub fn submodule_detached_note(rel: &str, freshly_inited: bool) -> (r: String)
    ensures
        r@ == if freshly_inited {
            rel@ + ": initialized; skipped pull (detached HEAD, no branch configured)"@
        } else {
            rel@ + ": skipped (detached HEAD, no branch configured)"@
        },
{
    let mut v = chars_of(rel);
    if freshly_inited {
        push_str(&mut v, ": initialized; skipped pull (detached HEAD, no branch configured)");
    } else {
        push_str(&mut v, ": skipped (detached HEAD, no branch configured)");
    }
    string_from(&v)
}

/// The report of a submodule update: each submodule's line (a failure as
/// `path: error`), joined by `; `; an error when any submodule failed.
pub open spec fn submodule_lines(results: Seq<(String, Result<String, String>)>) -> Seq<Seq<char>> {
    results.map_values(
        |x: (String, Result<String, String>)| match x.1 {
            Ok(m) => m@,
            Err(e) => x.0@ + ": "@ + e@,
        },
    )
}

pub fn submodule_report(results: &[(String, Result<String, String>)]) -> (r: Result<String, String>)
    ensures
        (exists|i: int| 0 <= i < results@.len() && (#[trigger] results@[i]).1 is Err) ==> (r matches Err(
            e,
        ) && e@ == join(submodule_lines(results@), "; "@)),
        !(exists|i: int| 0 <= i < results@.len() && (#[trigger] results@[i]).1 is Err) ==> (r matches Ok(
            s,
        ) && s@ == join(submodule_lines(results@), "; "@)),
{
    let mut parts: Vec<String> = Vec::new();
    let mut hard_fail = false;
    let mut k: usize = 0;
    while k < results.len()
        invariant
            k <= results@.len(),
            crate::text::str_views(parts@) == submodule_lines(results@).take(k as int),
            hard_fail == exists|i: int| 0 <= i < k && (#[trigger] results@[i]).1 is Err,
        decreases results.len() - k,
    {
        let line = match &results[k].1 {
            Ok(m) => m.clone(),
            Err(e) => {
                hard_fail = true;
                let mut v = chars_of(results[k].0.as_str());
                push_str(&mut v, ": ");
                push_str(&mut v, e.as_str());
                string_from(&v)
            },
        };
        proof {
            assert(crate::text::str_views(parts@.push(line)) =~= crate::text::str_views(parts@).push(line@));
            assert(submodule_lines(results@).take(k + 1) =~= submodule_lines(results@).take(k as int).push(
                submodule_lines(results@)[k as int],
            ));
        }
        parts.push(line);
        k = k + 1;
    }
    proof {
        assert(submodule_lines(results@).take(results@.len() as int) =~= submodule_lines(results@));
    }
    let summary = crate::semantic::join_with(parts.as_slice(), "; ");
    if hard_fail {
        Err(summary)
    } else {
        Ok(summary)
    }
}


// ───────────────────────────── pull and push decisions ─────────────────────────────

/// The next step of a fast-forward-only pull.
#[derive(Debug, Clone)]
pub enum PullPlan {
    /// The pull ends here with this outcome (a skip, or already up to date).
    Finish(OpOutcome),
    /// How far HEAD is ahead of and behind its upstream is needed next.
    NeedAheadBehind,
    /// Whether the working tree is dirty is needed next.
    NeedDirty,
    /// Move `refname` to the upstream tip, `behind` commits ahead.
    FastForward { refname: String, behind: usize },
}

/// A step of a pull as plain values: the outcome's kind (done or skipped)
/// and text, or one of the other steps.
pub enum PullStep {
    Skip(Seq<char>),
    Done(Seq<char>),
    NeedAheadBehind,
    NeedDirty,
    FastForward(Seq<char>, usize),
}

pub open spec fn pull_step_of(p: PullPlan) -> PullStep {
    match p {
        PullPlan::Finish(OpOutcome::Skipped(m)) => PullStep::Skip(m@),
        PullPlan::Finish(OpOutcome::Done(m)) => PullStep::Done(m@),
        PullPlan::NeedAheadBehind => PullStep::NeedAheadBehind,
        PullPlan::NeedDirty => PullStep::NeedDirty,
        PullPlan::FastForward { refname, behind } => PullStep::FastForward(refname@, behind),
    }
}

/// The pull's decision: skip a detached HEAD, an unborn branch (no name or
/// no tip) and a branch without an upstream tip; up to date when the tips
/// are equal; then skip a diverged branch (anything ahead), report up to
/// date when nothing is behind, skip a dirty tree, and otherwise
/// fast-forward the branch. A fact not yet known is asked for.
pub open spec fn pull_decision(
    is_branch: bool,
    branch: Option<Seq<char>>,
    local: Option<Seq<u8>>,
    upstream: Option<Seq<u8>>,
    ahead_behind: Option<(usize, usize)>,
    dirty: Option<u32>,
) -> PullStep {
    if !is_branch {
        PullStep::Skip("detached HEAD"@)
    } else if branch is None || local is None {
        PullStep::Skip("unborn branch"@)
    } else if upstream is None {
        PullStep::Skip("no upstream"@)
    } else if local == upstream {
        PullStep::Done("up to date"@)
    } else {
        match ahead_behind {
            None => PullStep::NeedAheadBehind,
            Some((ahead, behind)) => if ahead > 0 {
                PullStep::Skip(SKIP_DIVERGED@)
            } else if behind == 0 {
                PullStep::Done("up to date"@)
            } else {
                match dirty {
                    None => PullStep::NeedDirty,
                    Some(d) => if d > 0 {
                        PullStep::Skip(SKIP_DIRTY@)
                    } else {
                        PullStep::FastForward("refs/heads/"@ + branch->0, behind)
                    },
                }
            },
        }
    }
}

fn bytes_eq(a: &Vec<u8>, b: &Vec<u8>) -> (r: bool)
    ensures
        r == (a@ == b@),
{
    if a.len() != b.len() {
        return false;
    }
    let mut k: usize = 0;
    while k < a.len()
        invariant
            a@.len() == b@.len(),
            k <= a@.len(),
            forall|i: int| 0 <= i < k ==> a@[i] == b@[i],
        decreases a.len() - k,
    {
        if a[k] != b[k] {
            return false;
        }
        k = k + 1;
    }
    proof {
        assert(a@ =~= b@);
    }
    true
}

/// Decide the next step of a fast-forward-only pull from what is known of
/// HEAD (a branch? its name and tip), its upstream tip, and, once asked
/// for, how far it is ahead/behind and how dirty the tree is. A fleet pull
/// never moves a diverged or dirty branch: a fast-forward is planned only
/// when nothing is ahead, something is behind and the tree is clean.
pub fn pull_plan(
    is_branch: bool,
    branch: Option<String>,
    local: Option<Vec<u8>>,
    upstream: Option<Vec<u8>>,
    ahead_behind: Option<(usize, usize)>,
    dirty: Option<u32>,
) -> (r: PullPlan)
    ensures
        pull_step_of(r) == pull_decision(
            is_branch,
            opt_view(branch),
            match local {
                Some(v) => Some(v@),
                None => None,
            },
            match upstream {
                Some(v) => Some(v@),
                None => None,
            },
            ahead_behind,
            dirty,
        ),
        r is FastForward ==> is_branch && (ahead_behind matches Some((a, b)) && a == 0 && b > 0)
            && dirty == Some(0u32),
{
    if !is_branch {
        return PullPlan::Finish(OpOutcome::Skipped(string_from(&chars_of("detached HEAD"))));
    }
    let (b, l) = match (branch, local) {
        (Some(b), Some(l)) => (b, l),
        _ => return PullPlan::Finish(OpOutcome::Skipped(string_from(&chars_of("unborn branch")))),
    };
    let u = match upstream {
        Some(u) => u,
        None => return PullPlan::Finish(OpOutcome::Skipped(string_from(&chars_of("no upstream")))),
    };
    if bytes_eq(&l, &u) {
        return PullPlan::Finish(OpOutcome::Done(string_from(&chars_of("up to date"))));
    }
    let (ahead, behind) = match ahead_behind {
        Some(ab) => ab,
        None => return PullPlan::NeedAheadBehind,
    };
    if ahead > 0 {
        return PullPlan::Finish(OpOutcome::Skipped(string_from(&chars_of(SKIP_DIVERGED))));
    }
    if behind == 0 {
        return PullPlan::Finish(OpOutcome::Done(string_from(&chars_of("up to date"))));
    }
    let d = match dirty {
        Some(d) => d,
        None => return PullPlan::NeedDirty,
    };
    if d > 0 {
        return PullPlan::Finish(OpOutcome::Skipped(string_from(&chars_of(SKIP_DIRTY))));
    }
    let mut v = chars_of("refs/heads/");
    push_str(&mut v, b.as_str());
    PullPlan::FastForward { refname: string_from(&v), behind }
}

/// What a push does: the branch and its ref, the remote, the refspec, and
/// whether the upstream is set afterwards.
#[derive(Debug, Clone)]
pub struct PushPlan {
    pub branch: String,
    pub refname: String,
    pub remote: String,
    pub refspec: String,
    pub set_upstream: bool,
}

/// Plan a push of the checked-out branch: refused on a detached HEAD or a
/// branch without a name; to the upstream remote, else `origin`; from
/// `refs/heads/<branch>` to the configured merge ref, else the same ref
/// name (never a forced `+` refspec); the upstream is set only when none
/// was configured.
pub fn push_plan(is_branch: bool, branch: Option<String>, upstream_remote: Option<String>, merge_ref: Option<String>) -> (r:
    Result<PushPlan, String>)
    ensures
        !is_branch ==> (r matches Err(e) && e@ == "HEAD is detached — check out a branch before pushing"@),
        is_branch && branch is None ==> (r matches Err(e) && e@ == "HEAD has no branch name"@),
        is_branch && branch is Some ==> (r matches Ok(p) && {
            let b = branch->0@;
            let refname = "refs/heads/"@ + b;
            &&& p.branch@ == b
            &&& p.refname@ == refname
            &&& p.remote@ == match upstream_remote {
                Some(u) => u@,
                None => "origin"@,
            }
            &&& p.refspec@ == refname + ":"@ + match merge_ref {
                Some(m) => m@,
                None => refname,
            }
            &&& p.refspec@[0] != '+'
            &&& p.set_upstream == (upstream_remote is None)
        }),
{
    if !is_branch {
        return Err(string_from(&chars_of("HEAD is detached — check out a branch before pushing")));
    }
    let b = match branch {
        Some(b) => b,
        None => return Err(string_from(&chars_of("HEAD has no branch name"))),
    };
    let mut rv = chars_of("refs/heads/");
    push_str(&mut rv, b.as_str());
    let refname = string_from(&rv);
    let set_upstream = upstream_remote.is_none();
    let remote = match upstream_remote {
        Some(u) => u,
        None => string_from(&chars_of("origin")),
    };
    let mut sv = rv.clone();
    push_str(&mut sv, ":");
    match &merge_ref {
        Some(m) => push_str(&mut sv, m.as_str()),
        None => push_str(&mut sv, refname.as_str()),
    }
    proof {
        reveal_strlit("refs/heads/");
        assert(sv@[0] == 'r');
    }
    let refspec = string_from(&sv);
    Ok(PushPlan { branch: b, refname, remote, refspec, set_upstream })
}

/// The error when the remote to push to does not exist.
pub fn missing_push_remote(remote: &str) -> (r: String)
    ensures
        r@ == "no '"@ + remote@ + "' remote to push to"@,
{
    let mut v = chars_of("no '");
    push_str(&mut v, remote);
    push_str(&mut v, "' remote to push to");
    string_from(&v)
}


/// The next step of a hard reset to the upstream.
#[derive(Debug, Clone)]
pub enum ResetPlan {
    /// The reset ends here with this outcome.
    Finish(OpOutcome),
    /// Whether the working tree is dirty is needed next.
    NeedDirty,
    /// Reset hard to the upstream tip; `done` is the outcome text afterwards.
    Reset { done: String },
}

/// A step of a reset as plain values.
pub enum ResetStep {
    Skip(Seq<char>),
    Done(Seq<char>),
    NeedDirty,
    Reset(Seq<char>),
}

pub open spec fn reset_step_of(p: ResetPlan) -> ResetStep {
    match p {
        ResetPlan::Finish(OpOutcome::Skipped(m)) => ResetStep::Skip(m@),
        ResetPlan::Finish(OpOutcome::Done(m)) => ResetStep::Done(m@),
        ResetPlan::NeedDirty => ResetStep::NeedDirty,
        ResetPlan::Reset { done } => ResetStep::Reset(done@),
    }
}

/// The reset's decision: skip a detached HEAD, an unborn branch and a branch
/// without an upstream tip; nothing to do when already at the upstream tip
/// with a clean tree; otherwise reset hard. The upstream is named by its
/// short name, else `origin/<branch>`.
pub open spec fn reset_decision(
    is_branch: bool,
    branch: Option<Seq<char>>,
    local: Option<Seq<u8>>,
    upstream: Option<Seq<u8>>,
    upstream_name: Option<Seq<char>>,
    dirty: Option<u32>,
) -> ResetStep {
    if !is_branch {
        ResetStep::Skip("detached HEAD"@)
    } else if branch is None || local is None {
        ResetStep::Skip("unborn branch"@)
    } else if upstream is None {
        ResetStep::Skip("no upstream"@)
    } else {
        let name = match upstream_name {
            Some(n) => n,
            None => "origin/"@ + branch->0,
        };
        if local == upstream {
            match dirty {
                None => ResetStep::NeedDirty,
                Some(d) => if d == 0 {
                    ResetStep::Done("already at "@ + name)
                } else {
                    ResetStep::Reset("reset --hard "@ + name)
                },
            }
        } else {
            ResetStep::Reset("reset --hard "@ + name)
        }
    }
}

/// Decide the next step of a hard reset of the checked-out branch to its
/// upstream (after a fetch), from what is known of HEAD, the upstream tip
/// and name, and, once asked for, how dirty the tree is.
pub fn reset_plan(
    is_branch: bool,
    branch: Option<String>,
    local: Option<Vec<u8>>,
    upstream: Option<Vec<u8>>,
    upstream_name: Option<String>,
    dirty: Option<u32>,
) -> (r: ResetPlan)
    ensures
        reset_step_of(r) == reset_decision(
            is_branch,
            opt_view(branch),
            match local {
                Some(v) => Some(v@),
                None => None,
            },
            match upstream {
                Some(v) => Some(v@),
                None => None,
            },
            opt_view(upstream_name),
            dirty,
        ),
{
    if !is_branch {
        return ResetPlan::Finish(OpOutcome::Skipped(string_from(&chars_of("detached HEAD"))));
    }
    let (b, l) = match (branch, local) {
        (Some(b), Some(l)) => (b, l),
        _ => return ResetPlan::Finish(OpOutcome::Skipped(string_from(&chars_of("unborn branch")))),
    };
    let u = match upstream {
        Some(u) => u,
        None => return ResetPlan::Finish(OpOutcome::Skipped(string_from(&chars_of("no upstream")))),
    };
    let name = match upstream_name {
        Some(n) => chars_of(n.as_str()),
        None => {
            let mut v = chars_of("origin/");
            push_str(&mut v, b.as_str());
            v
        },
    };
    if bytes_eq(&l, &u) {
        match dirty {
            None => return ResetPlan::NeedDirty,
            Some(d) => if d == 0 {
                let mut v = chars_of("already at ");
                push_all(&mut v, &name);
                return ResetPlan::Finish(OpOutcome::Done(string_from(&v)));
            },
        }
    }
    let mut v = chars_of("reset --hard ");
    push_all(&mut v, &name);
    ResetPlan::Reset { done: string_from(&v) }
}

/// The next step of putting a submodule checkout on its target branch.
#[derive(Debug, Clone)]
pub enum CheckoutPlan {
    /// Nothing more to do: this outcome (already on the branch, or skipped).
    Finish(OpOutcome),
    /// Whether the working tree is dirty is needed next.
    NeedDirty,
    /// Whether a local branch of that name exists is needed next.
    NeedLocal,
    /// Switch to the existing local branch, then report `done`.
    SwitchLocal { done: String },
    /// Create the local branch at the tip of `remote_ref`, track `upstream`
    /// (best effort), switch to it and report `done`; fail with `missing`
    /// when `remote_ref` does not exist and with `no_tip` when it has no tip.
    FromOrigin { remote_ref: String, upstream: String, done: String, missing: String, no_tip: String },
}

/// A step of a submodule checkout as plain values.
pub enum CheckoutStep {
    Skip(Seq<char>),
    Done(Seq<char>),
    NeedDirty,
    NeedLocal,
    SwitchLocal(Seq<char>),
    FromOrigin(Seq<char>, Seq<char>, Seq<char>, Seq<char>, Seq<char>),
}

pub open spec fn checkout_step_of(p: CheckoutPlan) -> CheckoutStep {
    match p {
        CheckoutPlan::Finish(OpOutcome::Skipped(m)) => CheckoutStep::Skip(m@),
        CheckoutPlan::Finish(OpOutcome::Done(m)) => CheckoutStep::Done(m@),
        CheckoutPlan::NeedDirty => CheckoutStep::NeedDirty,
        CheckoutPlan::NeedLocal => CheckoutStep::NeedLocal,
        CheckoutPlan::SwitchLocal { done } => CheckoutStep::SwitchLocal(done@),
        CheckoutPlan::FromOrigin { remote_ref, upstream, done, missing, no_tip } => CheckoutStep::FromOrigin(
            remote_ref@,
            upstream@,
            done@,
            missing@,
            no_tip@,
        ),
    }
}

/// The checkout's decision: nothing to do when HEAD is already that branch;
/// otherwise skip a dirty tree, switch to a local branch of that name, or
/// create it from `origin/<branch>`.
pub open spec fn checkout_decision(
    head_branch: Option<Seq<char>>,
    branch: Seq<char>,
    dirty: Option<u32>,
    has_local: Option<bool>,
) -> CheckoutStep {
    if head_branch == Some(branch) {
        CheckoutStep::Done("on "@ + branch)
    } else {
        match dirty {
            None => CheckoutStep::NeedDirty,
            Some(d) => if d > 0 {
                CheckoutStep::Skip(SKIP_DIRTY@)
            } else {
                match has_local {
                    None => CheckoutStep::NeedLocal,
                    Some(true) => CheckoutStep::SwitchLocal("checked out "@ + branch),
                    Some(false) => CheckoutStep::FromOrigin(
                        "refs/remotes/origin/"@ + branch,
                        "origin/"@ + branch,
                        "checked out "@ + branch,
                        "branch '"@ + branch + "' not found locally or on origin"@,
                        "origin/"@ + branch + " has no tip"@,
                    ),
                }
            },
        }
    }
}

fn prefixed(prefix: &str, b: &str) -> (r: String)
    ensures
        r@ == prefix@ + b@,
{
    let mut v = chars_of(prefix);
    push_str(&mut v, b);
    string_from(&v)
}

/// Decide the next step of putting a submodule on `branch`, from the branch
/// HEAD is on (if any) and, once asked for, how dirty the tree is and
/// whether a local branch of that name exists. A dirty submodule is never
/// switched.
pub fn submodule_checkout_plan(
    head_branch: Option<String>,
    branch: &str,
    dirty: Option<u32>,
    has_local: Option<bool>,
) -> (r: CheckoutPlan)
    ensures
        checkout_step_of(r) == checkout_decision(opt_view(head_branch), branch@, dirty, has_local),
{
    let on_branch = match &head_branch {
        Some(h) => chars_eq(&chars_of(h.as_str()), &chars_of(branch)),
        None => false,
    };
    if on_branch {
        return CheckoutPlan::Finish(OpOutcome::Done(prefixed("on ", branch)));
    }
    let d = match dirty {
        Some(d) => d,
        None => return CheckoutPlan::NeedDirty,
    };
    if d > 0 {
        return CheckoutPlan::Finish(OpOutcome::Skipped(string_from(&chars_of(SKIP_DIRTY))));
    }
    match has_local {
        None => CheckoutPlan::NeedLocal,
        Some(true) => CheckoutPlan::SwitchLocal { done: prefixed("checked out ", branch) },
        Some(false) => {
            let mut missing = chars_of("branch '");
            push_str(&mut missing, branch);
            push_str(&mut missing, "' not found locally or on origin");
            let mut no_tip = chars_of("origin/");
            push_str(&mut no_tip, branch);
            push_str(&mut no_tip, " has no tip");
            CheckoutPlan::FromOrigin {
                remote_ref: prefixed("refs/remotes/origin/", branch),
                upstream: prefixed("origin/", branch),
                done: prefixed("checked out ", branch),
                missing: string_from(&missing),
                no_tip: string_from(&no_tip),
            }
        },
    }
}

} // verus!
