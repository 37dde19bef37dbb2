//! The attention engine's pure core: fold local git state, the host inbox,
//! CI, branch hygiene and agent sessions into one prioritized "needs you now"
//! list, ranked by severity, then kind, then repo name, then summary.
use vstd::prelude::*;

use crate::inbox::InboxItem;
use crate::model::{clone_opt, opt_view, pull_only, path_is_pull_only, Host, Repo};
use crate::text::{
    after_last, after_last_chars, chars_eq, chars_of, contains, contains_chars, dec, dec_chars,
    lowercase, push_all, push_str, replace, replace_str, str_eq, string_from, to_lowercase,
};

verus! {

/// What kind of thing needs attention. Declaration order is the
/// within-severity sort order.
#[derive(Debug, Clone, Copy, PartialEq, Eq, PartialOrd, Ord, Hash, Structural)]
pub enum AttentionKind {
    /// Unresolved merge/rebase conflict paths in the index.
    MergeConflict,
    /// The latest default-branch CI run failed.
    CiFailing,
    /// Upstream CI on a pull-only checkout.
    UpstreamCi,
    /// A PR is waiting on your review.
    ReviewRequested,
    /// A coding-agent session finished and its output awaits you.
    AgentFinished,
    /// Uncommitted changes in the working tree.
    DirtyWorktree,
    /// Local commits not pushed to the upstream.
    Ahead,
    /// Upstream commits not pulled yet.
    Behind,
    /// A PR you authored is open.
    PrAssigned,
    /// Merged or upstream-gone branches that can be pruned.
    PrunableBranches,
    /// A coding-agent session is currently running.
    AgentRunning,
}

/// How urgently a kind needs the user. Variant order is the sort order.
#[derive(Debug, Clone, Copy, PartialEq, Eq, PartialOrd, Ord, Structural)]
pub enum Severity {
    /// Someone or something external is blocked on you right now.
    Urgent,
    /// Your own work is parked or at risk.
    Attention,
    /// Ambient state / hygiene.
    Info,
}

/// The documented severity tier of each kind: Urgent when others are blocked
/// on you, Attention when your own work is parked or at risk, Info otherwise.
pub open spec fn kind_severity(k: AttentionKind) -> Severity {
    match k {
        AttentionKind::MergeConflict | AttentionKind::CiFailing
        | AttentionKind::ReviewRequested => Severity::Urgent,
        AttentionKind::AgentFinished | AttentionKind::DirtyWorktree
        | AttentionKind::Ahead => Severity::Attention,
        _ => Severity::Info,
    }
}

/// Position of a kind in declaration order.
pub open spec fn kind_rank(k: AttentionKind) -> nat {
    match k {
        AttentionKind::MergeConflict => 0,
        AttentionKind::CiFailing => 1,
        AttentionKind::UpstreamCi => 2,
        AttentionKind::ReviewRequested => 3,
        AttentionKind::AgentFinished => 4,
        AttentionKind::DirtyWorktree => 5,
        AttentionKind::Ahead => 6,
        AttentionKind::Behind => 7,
        AttentionKind::PrAssigned => 8,
        AttentionKind::PrunableBranches => 9,
        AttentionKind::AgentRunning => 10,
    }
}

/// Position of a severity in declaration order (Urgent first).
pub open spec fn sev_rank(s: Severity) -> nat {
    match s {
        Severity::Urgent => 0,
        Severity::Attention => 1,
        Severity::Info => 2,
    }
}

/// Short chip label of each kind.
pub open spec fn kind_label(k: AttentionKind) -> Seq<char> {
    match k {
        AttentionKind::MergeConflict => "Merge conflict"@,
        AttentionKind::CiFailing => "CI failing"@,
        AttentionKind::UpstreamCi => "Upstream CI"@,
        AttentionKind::ReviewRequested => "Review requested"@,
        AttentionKind::AgentFinished => "Agent finished"@,
        AttentionKind::DirtyWorktree => "Uncommitted changes"@,
        AttentionKind::Ahead => "Not pushed"@,
        AttentionKind::Behind => "Behind remote"@,
        AttentionKind::PrAssigned => "Open PR"@,
        AttentionKind::PrunableBranches => "Prunable branches"@,
        AttentionKind::AgentRunning => "Agent running"@,
    }
}

/// What the user should do about each kind.
pub open spec fn kind_hint(k: AttentionKind) -> Seq<char> {
    match k {
        AttentionKind::MergeConflict => "Open in IDE to resolve"@,
        AttentionKind::CiFailing => "Open CI on the host"@,
        AttentionKind::UpstreamCi => "Ignore (pull-only)"@,
        AttentionKind::ReviewRequested => "Review the PR"@,
        AttentionKind::AgentFinished => "Review agent output"@,
        AttentionKind::DirtyWorktree => "Discard or commit"@,
        AttentionKind::Ahead => "Push when ready"@,
        AttentionKind::Behind => "Pull to update"@,
        AttentionKind::PrAssigned => "Wait on reviews / CI"@,
        AttentionKind::PrunableBranches => "Prune in Cleanup"@,
        AttentionKind::AgentRunning => "Let it finish"@,
    }
}

impl AttentionKind {
    /// The severity tier for this kind.
    pub fn severity(self) -> (r: Severity)
        ensures
            r == kind_severity(self),
    {
        match self {
            AttentionKind::MergeConflict | AttentionKind::CiFailing
            | AttentionKind::ReviewRequested => Severity::Urgent,
            AttentionKind::AgentFinished | AttentionKind::DirtyWorktree | AttentionKind::Ahead => {
                Severity::Attention
            },
            AttentionKind::UpstreamCi | AttentionKind::Behind | AttentionKind::PrAssigned
            | AttentionKind::PrunableBranches | AttentionKind::AgentRunning => Severity::Info,
        }
    }

    /// Short chip label for Mission Control / cards.
    pub fn label(self) -> (r: &'static str)
        ensures
            r@ == kind_label(self),
    {
        match self {
            AttentionKind::MergeConflict => "Merge conflict",
            AttentionKind::CiFailing => "CI failing",
            AttentionKind::UpstreamCi => "Upstream CI",
            AttentionKind::ReviewRequested => "Review requested",
            AttentionKind::AgentFinished => "Agent finished",
            AttentionKind::DirtyWorktree => "Uncommitted changes",
            AttentionKind::Ahead => "Not pushed",
            AttentionKind::Behind => "Behind remote",
            AttentionKind::PrAssigned => "Open PR",
            AttentionKind::PrunableBranches => "Prunable branches",
            AttentionKind::AgentRunning => "Agent running",
        }
    }

    /// What the user should do — shown in Mission Control subtitles.
    pub fn action_hint(self) -> (r: &'static str)
        ensures
            r@ == kind_hint(self),
    {
        match self {
            AttentionKind::MergeConflict => "Open in IDE to resolve",
            AttentionKind::CiFailing => "Open CI on the host",
            AttentionKind::UpstreamCi => "Ignore (pull-only)",
            AttentionKind::ReviewRequested => "Review the PR",
            AttentionKind::AgentFinished => "Review agent output",
            AttentionKind::DirtyWorktree => "Discard or commit",
            AttentionKind::Ahead => "Push when ready",
            AttentionKind::Behind => "Pull to update",
            AttentionKind::PrAssigned => "Wait on reviews / CI",
            AttentionKind::PrunableBranches => "Prune in Cleanup",
            AttentionKind::AgentRunning => "Let it finish",
        }
    }
}

/// How an attention item points back at a repo.
#[derive(Debug, Clone, PartialEq, Eq)]
pub struct RepoRef {
    /// Local repo id (absolute path) when the repo is in the scanned fleet.
    pub id: Option<String>,
    /// Remote host domain, when known.
    pub remote_host: Option<String>,
    /// owner/name slug, when the repo has a recognized remote.
    pub slug: Option<String>,
    /// Human display name.
    pub name: String,
}

/// One prioritized "needs you" item.
#[derive(Debug, Clone)]
pub struct AttentionItem {
    pub repo: RepoRef,
    pub kind: AttentionKind,
    /// Denormalized from `kind.severity()`.
    pub severity: Severity,
    /// One glanceable line.
    pub summary: String,
    /// Optional second line / routing hint (branch, PR URL, …).
    pub detail: Option<String>,
}

/// A repo's latest default-branch CI state, as polled by the caller.
#[derive(Debug, Clone)]
pub struct CiFact {
    /// Remote host domain — with `slug` the compound key of the fact.
    pub remote_host: String,
    pub slug: String,
    /// "success" | "failure" | "pending" | "none"; only "failure" raises attention.
    pub state: String,
    /// The run's web page, when known.
    pub url: Option<String>,
}

/// Prunable-branch count for a local repo.
#[derive(Debug, Clone)]
pub struct PrunableFact {
    /// Matches `Repo::id`.
    pub repo_id: String,
    pub count: u32,
}

/// A coding-agent session fact.
#[derive(Debug, Clone)]
pub struct AgentFact {
    /// Matches `Repo::id`.
    pub repo_id: String,
    /// Display label for the agent program.
    pub program: String,
    /// True while the session is alive.
    pub running: bool,
    /// The branch a dispatched session works on, when known.
    pub branch: Option<String>,
    /// Commits ahead of the origin's default branch.
    pub commits: u32,
}

impl RepoRef {
    /// A copy with the same view.
    pub fn clone_ref(&self) -> (r: Self)
        ensures
            r@ == self@,
    {
        RepoRef {
            id: clone_opt(&self.id),
            remote_host: clone_opt(&self.remote_host),
            slug: clone_opt(&self.slug),
            name: self.name.clone(),
        }
    }
}

impl AttentionItem {
    /// A copy with the same view.
    pub fn clone_item(&self) -> (r: Self)
        ensures
            r@ == self@,
    {
        AttentionItem {
            repo: self.repo.clone_ref(),
            kind: self.kind,
            severity: self.severity,
            summary: self.summary.clone(),
            detail: clone_opt(&self.detail),
        }
    }
}

/// Mathematical view of a [`RepoRef`].
pub struct RefV {
    pub id: Option<Seq<char>>,
    pub remote_host: Option<Seq<char>>,
    pub slug: Option<Seq<char>>,
    pub name: Seq<char>,
}

/// Mathematical view of an [`AttentionItem`].
pub struct ItemV {
    pub repo: RefV,
    pub kind: AttentionKind,
    pub severity: Severity,
    pub summary: Seq<char>,
    pub detail: Option<Seq<char>>,
}

impl View for RepoRef {
    type V = RefV;

    open spec fn view(&self) -> RefV {
        RefV {
            id: opt_view(self.id),
            remote_host: opt_view(self.remote_host),
            slug: opt_view(self.slug),
            name: self.name@,
        }
    }
}

impl View for AttentionItem {
    type V = ItemV;

    open spec fn view(&self) -> ItemV {
        ItemV {
            repo: self.repo@,
            kind: self.kind,
            severity: self.severity,
            summary: self.summary@,
            detail: opt_view(self.detail),
        }
    }
}

/// Views of a sequence of items.
pub open spec fn item_views(v: Seq<AttentionItem>) -> Seq<ItemV> {
    v.map_values(|x: AttentionItem| x@)
}

/// An item of `kind` about `repo` (severity from the kind).
pub open spec fn mk(repo: RefV, kind: AttentionKind, summary: Seq<char>, detail: Option<Seq<char>>) -> ItemV {
    ItemV { repo, kind, severity: kind_severity(kind), summary, detail }
}

/// "1 uncommitted change" / "3 uncommitted changes".
pub open spec fn count_text(n: nat, one: Seq<char>, many: Seq<char>) -> Seq<char> {
    if n == 1 {
        "1 "@ + one
    } else {
        dec(n) + " "@ + many
    }
}

/// Reference to a scanned repo.
pub open spec fn local_ref(r: Repo) -> RefV {
    RefV {
        id: Some(r.id@),
        remote_host: opt_view(r.remote_host),
        slug: opt_view(r.slug),
        name: r.display_name@,
    }
}

/// The items raised by one repo's local git state, in the order conflict,
/// dirty, ahead, behind.
pub open spec fn repo_items(r: Repo) -> Seq<ItemV> {
    let on = Some("on "@ + r.git.branch@);
    let g = r.git;
    (if g.conflicts > 0 {
        seq![mk(local_ref(r), AttentionKind::MergeConflict, count_text(g.conflicts as nat, "merge conflict"@, "merge conflicts"@), on)]
    } else {
        Seq::empty()
    }) + (if g.dirty > 0 {
        seq![mk(local_ref(r), AttentionKind::DirtyWorktree, count_text(g.dirty as nat, "uncommitted change"@, "uncommitted changes"@), on)]
    } else {
        Seq::empty()
    }) + (if g.ahead > 0 {
        seq![mk(local_ref(r), AttentionKind::Ahead, count_text(g.ahead as nat, "commit"@, "commits"@) + " not pushed"@, on)]
    } else {
        Seq::empty()
    }) + (if g.behind > 0 {
        seq![mk(local_ref(r), AttentionKind::Behind, count_text(g.behind as nat, "commit"@, "commits"@) + " behind upstream"@, on)]
    } else {
        Seq::empty()
    })
}

pub open spec fn local_items(rs: Seq<Repo>) -> Seq<ItemV>
    decreases rs.len(),
{
    if rs.len() == 0 {
        Seq::empty()
    } else {
        local_items(rs.drop_last()) + repo_items(rs.last())
    }
}

/// First repo at or after `i` on host kind `host` with slug `slug`.
pub open spec fn find_host(rs: Seq<Repo>, host: Host, slug: Seq<char>, i: int) -> Option<int>
    decreases rs.len() - i,
{
    if i < 0 || i >= rs.len() {
        None
    } else if rs[i].host == Some(host) && opt_view(rs[i].slug) == Some(slug) {
        Some(i)
    } else {
        find_host(rs, host, slug, i + 1)
    }
}

/// First repo at or after `i` with remote domain `domain` and slug `slug`.
pub open spec fn find_remote(rs: Seq<Repo>, domain: Seq<char>, slug: Seq<char>, i: int) -> Option<int>
    decreases rs.len() - i,
{
    if i < 0 || i >= rs.len() {
        None
    } else if opt_view(rs[i].remote_host) == Some(domain) && opt_view(rs[i].slug) == Some(slug) {
        Some(i)
    } else {
        find_remote(rs, domain, slug, i + 1)
    }
}

/// First repo at or after `i` with id `id`.
pub open spec fn find_id(rs: Seq<Repo>, id: Seq<char>, i: int) -> Option<int>
    decreases rs.len() - i,
{
    if i < 0 || i >= rs.len() {
        None
    } else if rs[i].id@ == id {
        Some(i)
    } else {
        find_id(rs, id, i + 1)
    }
}

/// Link a (host kind, slug) fact to the first matching scanned repo.
pub open spec fn host_ref(rs: Seq<Repo>, host: Host, slug: Seq<char>) -> RefV {
    match find_host(rs, host, slug, 0) {
        Some(i) => local_ref(rs[i]),
        None => RefV { id: None, remote_host: None, slug: Some(slug), name: slug },
    }
}

/// Link a (remote domain, slug) fact to the first matching scanned repo.
pub open spec fn remote_ref(rs: Seq<Repo>, domain: Seq<char>, slug: Seq<char>) -> RefV {
    match find_remote(rs, domain, slug, 0) {
        Some(i) => local_ref(rs[i]),
        None => RefV { id: None, remote_host: Some(domain), slug: Some(slug), name: slug },
    }
}

/// The last path segment, or the whole id when that segment is empty.
pub open spec fn base_name(id: Seq<char>) -> Seq<char> {
    if after_last(id, '/').len() > 0 {
        after_last(id, '/')
    } else {
        id
    }
}

/// Link a local repo id to the fleet, falling back to the path basename.
pub open spec fn id_ref(rs: Seq<Repo>, id: Seq<char>) -> RefV {
    match find_id(rs, id, 0) {
        Some(i) => local_ref(rs[i]),
        None => RefV { id: Some(id), remote_host: None, slug: None, name: base_name(id) },
    }
}

/// Review requests (never drafts) and the user's own open PRs.
pub open spec fn inbox_item(rs: Seq<Repo>, it: InboxItem) -> Seq<ItemV> {
    if it.kind@ == "review"@ && !it.draft {
        seq![mk(host_ref(rs, it.host, it.repo@), AttentionKind::ReviewRequested,
            "Review requested: "@ + it.title@ + " (#"@ + dec(it.number as nat) + ")"@, Some(it.url@))]
    } else if it.kind@ == "pr"@ {
        seq![mk(host_ref(rs, it.host, it.repo@), AttentionKind::PrAssigned,
            "Open PR #"@ + dec(it.number as nat) + ": "@ + it.title@, Some(it.url@))]
    } else {
        Seq::empty()
    }
}

pub open spec fn inbox_items(rs: Seq<Repo>, inbox: Seq<InboxItem>) -> Seq<ItemV>
    decreases inbox.len(),
{
    if inbox.len() == 0 {
        Seq::empty()
    } else {
        inbox_items(rs, inbox.drop_last()) + inbox_item(rs, inbox.last())
    }
}

/// Only a definitive CI failure raises attention.
pub open spec fn ci_item(rs: Seq<Repo>, c: CiFact) -> Seq<ItemV> {
    if c.state@ == "failure"@ {
        seq![mk(remote_ref(rs, c.remote_host@, c.slug@), AttentionKind::CiFailing,
            "CI failing on the default branch"@, opt_view(c.url))]
    } else {
        Seq::empty()
    }
}

pub open spec fn ci_items(rs: Seq<Repo>, ci: Seq<CiFact>) -> Seq<ItemV>
    decreases ci.len(),
{
    if ci.len() == 0 {
        Seq::empty()
    } else {
        ci_items(rs, ci.drop_last()) + ci_item(rs, ci.last())
    }
}

/// Prunable branches raise an item only when there are some.
pub open spec fn prunable_item(rs: Seq<Repo>, p: PrunableFact) -> Seq<ItemV> {
    if p.count > 0 {
        seq![mk(id_ref(rs, p.repo_id@), AttentionKind::PrunableBranches,
            count_text(p.count as nat, "prunable branch"@, "prunable branches"@), None)]
    } else {
        Seq::empty()
    }
}

pub open spec fn prunable_items(rs: Seq<Repo>, ps: Seq<PrunableFact>) -> Seq<ItemV>
    decreases ps.len(),
{
    if ps.len() == 0 {
        Seq::empty()
    } else {
        prunable_items(rs, ps.drop_last()) + prunable_item(rs, ps.last())
    }
}

/// A session's routing detail: its review size and branch.
pub open spec fn agent_detail(a: AgentFact) -> Option<Seq<char>> {
    match a.branch {
        Some(b) => Some(
            if a.commits > 0 {
                count_text(a.commits as nat, "commit"@, "commits"@) + " on "@ + b@
            } else {
                "on "@ + b@
            },
        ),
        None => None,
    }
}

/// Every agent session raises one item: running or finished.
pub open spec fn agent_item(rs: Seq<Repo>, a: AgentFact) -> ItemV {
    if a.running {
        mk(id_ref(rs, a.repo_id@), AttentionKind::AgentRunning, "Agent "@ + "running"@ + ": "@ + a.program@, agent_detail(a))
    } else {
        mk(id_ref(rs, a.repo_id@), AttentionKind::AgentFinished, "Agent "@ + "finished"@ + ": "@ + a.program@, agent_detail(a))
    }
}

pub open spec fn agent_items(rs: Seq<Repo>, ags: Seq<AgentFact>) -> Seq<ItemV>
    decreases ags.len(),
{
    if ags.len() == 0 {
        Seq::empty()
    } else {
        agent_items(rs, ags.drop_last()).push(agent_item(rs, ags.last()))
    }
}

/// All raised items before ranking, in input order.
pub open spec fn raw_items(
    rs: Seq<Repo>,
    inbox: Seq<InboxItem>,
    ci: Seq<CiFact>,
    ps: Seq<PrunableFact>,
    ags: Seq<AgentFact>,
) -> Seq<ItemV> {
    local_items(rs) + inbox_items(rs, inbox) + ci_items(rs, ci) + prunable_items(rs, ps)
        + agent_items(rs, ags)
}

// ───────────────────────────── ranking ─────────────────────────────

/// Lexicographic `<` on character sequences (code-point order, which is
/// `String`'s byte order).
pub open spec fn lex_lt(a: Seq<char>, b: Seq<char>) -> bool
    decreases a.len(),
{
    if a.len() == 0 {
        b.len() > 0
    } else if b.len() == 0 {
        false
    } else if a[0] != b[0] {
        a[0] < b[0]
    } else {
        lex_lt(a.drop_first(), b.drop_first())
    }
}

/// The ranking order: severity, then kind, then repo name
/// (case-insensitive), then summary.
pub open spec fn key_lt(x: ItemV, y: ItemV) -> bool {
    ||| sev_rank(x.severity) < sev_rank(y.severity)
    ||| sev_rank(x.severity) == sev_rank(y.severity) && kind_rank(x.kind) < kind_rank(y.kind)
    ||| sev_rank(x.severity) == sev_rank(y.severity) && kind_rank(x.kind) == kind_rank(y.kind)
        && lex_lt(lowercase(x.repo.name), lowercase(y.repo.name))
    ||| sev_rank(x.severity) == sev_rank(y.severity) && kind_rank(x.kind) == kind_rank(y.kind)
        && lowercase(x.repo.name) == lowercase(y.repo.name) && lex_lt(x.summary, y.summary)
}

/// Where a stable insertion puts `x` into `s`: before the first element
/// (at or after `j`) that ranks strictly after it.
pub open spec fn ins_pos(s: Seq<ItemV>, x: ItemV, j: int) -> int
    decreases s.len() - j,
{
    if j < 0 || j >= s.len() {
        s.len() as int
    } else if key_lt(x, s[j]) {
        j
    } else {
        ins_pos(s, x, j + 1)
    }
}

/// Stable sort by the ranking order (insertion sort).
pub open spec fn ranked(s: Seq<ItemV>) -> Seq<ItemV>
    decreases s.len(),
{
    if s.len() == 0 {
        s
    } else {
        let r = ranked(s.drop_last());
        r.insert(ins_pos(r, s.last(), 0), s.last())
    }
}

proof fn lemma_ins_pos_bound(s: Seq<ItemV>, x: ItemV, j: int)
    requires
        0 <= j <= s.len(),
    ensures
        j <= ins_pos(s, x, j) <= s.len(),
    decreases s.len() - j,
{
    if j < s.len() && !key_lt(x, s[j]) {
        lemma_ins_pos_bound(s, x, j + 1);
    }
}

proof fn lemma_ranked_len(s: Seq<ItemV>)
    ensures
        ranked(s).len() == s.len(),
    decreases s.len(),
{
    if s.len() > 0 {
        lemma_ranked_len(s.drop_last());
        lemma_ins_pos_bound(ranked(s.drop_last()), s.last(), 0);
    }
}

/// `lex_lt` is irreflexive.
pub proof fn lemma_lex_irrefl(a: Seq<char>)
    ensures
        !lex_lt(a, a),
    decreases a.len(),
{
    if a.len() > 0 {
        lemma_lex_irrefl(a.drop_first());
    }
}

pub(crate) fn lex_lt_exec(a: &[char], b: &[char]) -> (r: bool)
    ensures
        r == lex_lt(a@, b@),
{
    let mut k: usize = 0;
    proof {
        assert(a@.skip(0) =~= a@);
        assert(b@.skip(0) =~= b@);
    }
    while k < a.len() && k < b.len() && a[k] == b[k]
        invariant
            k <= a@.len(),
            k <= b@.len(),
            lex_lt(a@, b@) == lex_lt(a@.skip(k as int), b@.skip(k as int)),
        decreases a.len() - k,
    {
        proof {
            assert(a@.skip(k as int).drop_first() =~= a@.skip(k + 1));
            assert(b@.skip(k as int).drop_first() =~= b@.skip(k + 1));
        }
        k = k + 1;
    }
    proof {
        if k < a@.len() {
            assert(a@.skip(k as int)[0] == a@[k as int]);
        }
        if k < b@.len() {
            assert(b@.skip(k as int)[0] == b@[k as int]);
        }
    }
    if k == a.len() {
        k < b.len()
    } else if k == b.len() {
        false
    } else {
        a[k] < b[k]
    }
}

fn sev_rank_exec(s: Severity) -> (r: u8)
    ensures
        r as nat == sev_rank(s),
{
    match s {
        Severity::Urgent => 0,
        Severity::Attention => 1,
        Severity::Info => 2,
    }
}

fn kind_rank_exec(k: AttentionKind) -> (r: u8)
    ensures
        r as nat == kind_rank(k),
{
    match k {
        AttentionKind::MergeConflict => 0,
        AttentionKind::CiFailing => 1,
        AttentionKind::UpstreamCi => 2,
        AttentionKind::ReviewRequested => 3,
        AttentionKind::AgentFinished => 4,
        AttentionKind::DirtyWorktree => 5,
        AttentionKind::Ahead => 6,
        AttentionKind::Behind => 7,
        AttentionKind::PrAssigned => 8,
        AttentionKind::PrunableBranches => 9,
        AttentionKind::AgentRunning => 10,
    }
}

/// `key_lt` on items whose lowercased names are given.
fn item_lt(x: &AttentionItem, xl: &[char], y: &AttentionItem, yl: &[char]) -> (r: bool)
    requires
        xl@ == lowercase(x.repo.name@),
        yl@ == lowercase(y.repo.name@),
    ensures
        r == key_lt(x@, y@),
{
    let sx = sev_rank_exec(x.severity);
    let sy = sev_rank_exec(y.severity);
    if sx != sy {
        return sx < sy;
    }
    let kx = kind_rank_exec(x.kind);
    let ky = kind_rank_exec(y.kind);
    if kx != ky {
        return kx < ky;
    }
    if !chars_eq(xl, yl) {
        return lex_lt_exec(xl, yl);
    }
    let a = chars_of(x.summary.as_str());
    let b = chars_of(y.summary.as_str());
    proof {
        lemma_lex_irrefl(xl@);
    }
    lex_lt_exec(&a, &b)
}

/// Rank `items` stably by the ranking order.
fn rank(items: Vec<AttentionItem>) -> (r: Vec<AttentionItem>)
    ensures
        item_views(r@) == ranked(item_views(items@)),
{
    let mut out: Vec<AttentionItem> = Vec::new();
    let mut lows: Vec<Vec<char>> = Vec::new();
    let mut k: usize = 0;
    while k < items.len()
        invariant
            k <= items@.len(),
            out@.len() == lows@.len(),
            item_views(out@) == ranked(item_views(items@).take(k as int)),
            forall|j: int| 0 <= j < out@.len() ==> #[trigger] lows@[j]@ == lowercase(out@[j].repo.name@),
        decreases items.len() - k,
    {
        let x = items[k].clone_item();
        proof {
            assert(item_views(items@)[k as int] == items@[k as int]@);
        }
        let xn = chars_of(x.repo.name.as_str());
        let xl = to_lowercase(&xn);
        let ghost s = item_views(out@);
        let mut p: usize = 0;
        while p < out.len() && !item_lt(&x, &xl, &out[p], &lows[p])
            invariant
                p <= out@.len(),
                out@.len() == lows@.len(),
                s == item_views(out@),
                xl@ == lowercase(x.repo.name@),
                forall|j: int| 0 <= j < out@.len() ==> #[trigger] lows@[j]@ == lowercase(out@[j].repo.name@),
                ins_pos(s, x@, 0) == ins_pos(s, x@, p as int),
            decreases out.len() - p,
        {
            p = p + 1;
        }
        proof {
            assert(item_views(items@).take(k + 1).drop_last() =~= item_views(items@).take(k as int));
            assert(item_views(items@).take(k + 1).last() == x@);
            assert(ins_pos(s, x@, p as int) == p);
            assert(item_views(out@.insert(p as int, x)) =~= s.insert(p as int, x@));
        }
        let ghost out0 = out@;
        let ghost lows0 = lows@;
        out.insert(p, x);
        lows.insert(p, xl);
        proof {
            assert forall|j: int| 0 <= j < out@.len() implies #[trigger] lows@[j]@ == lowercase(
                out@[j].repo.name@,
            ) by {
                if j < p {
                    assert(lows@[j] == lows0[j] && out@[j] == out0[j]);
                } else if j > p {
                    assert(lows@[j] == lows0[j - 1] && out@[j] == out0[j - 1]);
                    assert(lows0[j - 1]@ == lowercase(out0[j - 1].repo.name@));
                }
            }
        }
        k = k + 1;
    }
    proof {
        assert(item_views(items@).take(items@.len() as int) =~= item_views(items@));
    }
    out
}


// ───────────────────────────── raising items ─────────────────────────────

fn count_exec(n: u64, one: &str, many: &str) -> (r: Vec<char>)
    ensures
        r@ == count_text(n as nat, one@, many@),
{
    if n == 1 {
        let mut v: Vec<char> = Vec::new();
        push_str(&mut v, "1 ");
        push_str(&mut v, one);
        proof {
            assert(v@ =~= "1 "@ + one@);
        }
        v
    } else {
        let mut v = dec_chars(n);
        push_str(&mut v, " ");
        push_str(&mut v, many);
        v
    }
}

fn mk_exec(repo: RepoRef, kind: AttentionKind, summary: &[char], detail: Option<String>) -> (r: AttentionItem)
    ensures
        r@ == mk(repo@, kind, summary@, opt_view(detail)),
{
    AttentionItem { repo, kind, severity: kind.severity(), summary: string_from(summary), detail }
}

fn local_ref_exec(r: &Repo) -> (v: RepoRef)
    ensures
        v@ == local_ref(*r),
{
    RepoRef {
        id: Some(r.id.clone()),
        remote_host: clone_opt(&r.remote_host),
        slug: clone_opt(&r.slug),
        name: r.display_name.clone(),
    }
}

fn push_item(out: &mut Vec<AttentionItem>, x: AttentionItem)
    ensures
        item_views(final(out)@) == item_views(old(out)@).push(x@),
{
    out.push(x);
    proof {
        assert(item_views(out@) =~= item_views(old(out)@).push(x@));
    }
}

fn repo_items_exec(r: &Repo, out: &mut Vec<AttentionItem>)
    ensures
        item_views(final(out)@) == item_views(old(out)@) + repo_items(*r),
{
    let ghost start = item_views(out@);
    let mut on: Vec<char> = Vec::new();
    push_str(&mut on, "on ");
    push_str(&mut on, r.git.branch.as_str());
    proof {
        assert(on@ =~= "on "@ + r.git.branch@);
    }
    let g = &r.git;
    if g.conflicts > 0 {
        let s = count_exec(g.conflicts as u64, "merge conflict", "merge conflicts");
        push_item(out, mk_exec(local_ref_exec(r), AttentionKind::MergeConflict, &s, Some(string_from(&on))));
    }
    let ghost a1 = item_views(out@);
    if g.dirty > 0 {
        let s = count_exec(g.dirty as u64, "uncommitted change", "uncommitted changes");
        push_item(out, mk_exec(local_ref_exec(r), AttentionKind::DirtyWorktree, &s, Some(string_from(&on))));
    }
    let ghost a2 = item_views(out@);
    if g.ahead > 0 {
        let mut s = count_exec(g.ahead as u64, "commit", "commits");
        push_str(&mut s, " not pushed");
        push_item(out, mk_exec(local_ref_exec(r), AttentionKind::Ahead, &s, Some(string_from(&on))));
    }
    let ghost a3 = item_views(out@);
    if g.behind > 0 {
        let mut s = count_exec(g.behind as u64, "commit", "commits");
        push_str(&mut s, " behind upstream");
        push_item(out, mk_exec(local_ref_exec(r), AttentionKind::Behind, &s, Some(string_from(&on))));
    }
    proof {
        assert(item_views(out@) =~= start + repo_items(*r));
    }
}

fn slug_is(o: &Option<String>, v: &[char]) -> (r: bool)
    ensures
        r == (opt_view(*o) == Some(v@)),
{
    match o {
        Some(s) => {
            let c = chars_of(s.as_str());
            chars_eq(&c, v)
        },
        None => false,
    }
}

fn host_ref_exec(rs: &[Repo], host: Host, slug: &[char]) -> (r: RepoRef)
    ensures
        r@ == host_ref(rs@, host, slug@),
{
    let mut i: usize = 0;
    while i < rs.len()
        invariant
            i <= rs@.len(),
            find_host(rs@, host, slug@, 0) == find_host(rs@, host, slug@, i as int),
        decreases rs.len() - i,
    {
        let same_host = match rs[i].host {
            Some(h) => h == host,
            None => false,
        };
        if same_host && slug_is(&rs[i].slug, slug) {
            return local_ref_exec(&rs[i]);
        }
        i = i + 1;
    }
    RepoRef { id: None, remote_host: None, slug: Some(string_from(slug)), name: string_from(slug) }
}

fn remote_ref_exec(rs: &[Repo], domain: &[char], slug: &[char]) -> (r: RepoRef)
    ensures
        r@ == remote_ref(rs@, domain@, slug@),
{
    let mut i: usize = 0;
    while i < rs.len()
        invariant
            i <= rs@.len(),
            find_remote(rs@, domain@, slug@, 0) == find_remote(rs@, domain@, slug@, i as int),
        decreases rs.len() - i,
    {
        if slug_is(&rs[i].remote_host, domain) && slug_is(&rs[i].slug, slug) {
            return local_ref_exec(&rs[i]);
        }
        i = i + 1;
    }
    RepoRef {
        id: None,
        remote_host: Some(string_from(domain)),
        slug: Some(string_from(slug)),
        name: string_from(slug),
    }
}

fn id_ref_exec(rs: &[Repo], id: &[char]) -> (r: RepoRef)
    ensures
        r@ == id_ref(rs@, id@),
{
    let mut i: usize = 0;
    while i < rs.len()
        invariant
            i <= rs@.len(),
            find_id(rs@, id@, 0) == find_id(rs@, id@, i as int),
        decreases rs.len() - i,
    {
        let c = chars_of(rs[i].id.as_str());
        if chars_eq(&c, id) {
            return local_ref_exec(&rs[i]);
        }
        i = i + 1;
    }
    let tail = after_last_chars(id, '/');
    let name = if tail.len() > 0 {
        string_from(&tail)
    } else {
        string_from(id)
    };
    RepoRef { id: Some(string_from(id)), remote_host: None, slug: None, name }
}

fn inbox_item_exec(rs: &[Repo], it: &InboxItem, out: &mut Vec<AttentionItem>)
    ensures
        item_views(final(out)@) == item_views(old(out)@) + inbox_item(rs@, *it),
{
    let slug = chars_of(it.repo.as_str());
    let num = dec_chars(it.number);
    if str_eq(it.kind.as_str(), "review") && !it.draft {
        let mut s: Vec<char> = Vec::new();
        push_str(&mut s, "Review requested: ");
        push_str(&mut s, it.title.as_str());
        push_str(&mut s, " (#");
        push_all(&mut s, &num);
        push_str(&mut s, ")");
        let x = mk_exec(host_ref_exec(rs, it.host, &slug), AttentionKind::ReviewRequested, &s, Some(it.url.clone()));
        push_item(out, x);
        proof {
            assert(s@ =~= "Review requested: "@ + it.title@ + " (#"@ + dec(it.number as nat) + ")"@);
            assert(item_views(out@) =~= item_views(old(out)@) + inbox_item(rs@, *it));
        }
    } else if str_eq(it.kind.as_str(), "pr") {
        let mut s: Vec<char> = Vec::new();
        push_str(&mut s, "Open PR #");
        push_all(&mut s, &num);
        push_str(&mut s, ": ");
        push_str(&mut s, it.title.as_str());
        let x = mk_exec(host_ref_exec(rs, it.host, &slug), AttentionKind::PrAssigned, &s, Some(it.url.clone()));
        push_item(out, x);
        proof {
            assert(s@ =~= "Open PR #"@ + dec(it.number as nat) + ": "@ + it.title@);
            assert(item_views(out@) =~= item_views(old(out)@) + inbox_item(rs@, *it));
        }
    } else {
        proof {
            assert(item_views(out@) =~= item_views(old(out)@) + inbox_item(rs@, *it));
        }
    }
}

fn ci_item_exec(rs: &[Repo], c: &CiFact, out: &mut Vec<AttentionItem>)
    ensures
        item_views(final(out)@) == item_views(old(out)@) + ci_item(rs@, *c),
{
    if str_eq(c.state.as_str(), "failure") {
        let d = chars_of(c.remote_host.as_str());
        let sl = chars_of(c.slug.as_str());
        let s = chars_of("CI failing on the default branch");
        let x = mk_exec(remote_ref_exec(rs, &d, &sl), AttentionKind::CiFailing, &s, clone_opt(&c.url));
        push_item(out, x);
        proof {
            assert(item_views(out@) =~= item_views(old(out)@) + ci_item(rs@, *c));
        }
    } else {
        proof {
            assert(item_views(out@) =~= item_views(old(out)@) + ci_item(rs@, *c));
        }
    }
}

fn prunable_item_exec(rs: &[Repo], p: &PrunableFact, out: &mut Vec<AttentionItem>)
    ensures
        item_views(final(out)@) == item_views(old(out)@) + prunable_item(rs@, *p),
{
    if p.count > 0 {
        let id = chars_of(p.repo_id.as_str());
        let s = count_exec(p.count as u64, "prunable branch", "prunable branches");
        let x = mk_exec(id_ref_exec(rs, &id), AttentionKind::PrunableBranches, &s, None);
        push_item(out, x);
        proof {
            assert(item_views(out@) =~= item_views(old(out)@) + prunable_item(rs@, *p));
        }
    } else {
        proof {
            assert(item_views(out@) =~= item_views(old(out)@) + prunable_item(rs@, *p));
        }
    }
}

fn agent_item_exec(rs: &[Repo], a: &AgentFact) -> (r: AttentionItem)
    ensures
        r@ == agent_item(rs@, *a),
{
    let detail = match &a.branch {
        Some(b) => {
            let mut d: Vec<char> = if a.commits > 0 {
                let mut c = count_exec(a.commits as u64, "commit", "commits");
                push_str(&mut c, " on ");
                c
            } else {
                let mut c: Vec<char> = Vec::new();
                push_str(&mut c, "on ");
                c
            };
            push_str(&mut d, b.as_str());
            proof {
                if a.commits == 0 {
                    assert(d@ =~= "on "@ + b@);
                }
            }
            Some(string_from(&d))
        },
        None => None,
    };
    let id = chars_of(a.repo_id.as_str());
    let mut s: Vec<char> = Vec::new();
    push_str(&mut s, "Agent ");
    if a.running {
        push_str(&mut s, "running");
    } else {
        push_str(&mut s, "finished");
    }
    push_str(&mut s, ": ");
    push_str(&mut s, a.program.as_str());
    let kind = if a.running {
        AttentionKind::AgentRunning
    } else {
        AttentionKind::AgentFinished
    };
    mk_exec(id_ref_exec(rs, &id), kind, &s, detail)
}

/// Every raised item before ranking, in input order.
fn raise(
    repos: &[Repo],
    inbox: &[InboxItem],
    ci: &[CiFact],
    prunable: &[PrunableFact],
    agents: &[AgentFact],
) -> (r: Vec<AttentionItem>)
    ensures
        item_views(r@) == raw_items(repos@, inbox@, ci@, prunable@, agents@),
{
    let mut out: Vec<AttentionItem> = Vec::new();
    let mut k: usize = 0;
    while k < repos.len()
        invariant
            k <= repos@.len(),
            item_views(out@) == local_items(repos@.take(k as int)),
        decreases repos.len() - k,
    {
        proof {
            assert(repos@.take(k + 1).drop_last() =~= repos@.take(k as int));
        }
        repo_items_exec(&repos[k], &mut out);
        k = k + 1;
    }
    proof {
        assert(repos@.take(repos@.len() as int) =~= repos@);
    }
    let ghost base1 = item_views(out@);
    let mut k: usize = 0;
    while k < inbox.len()
        invariant
            k <= inbox@.len(),
            item_views(out@) == base1 + inbox_items(repos@, inbox@.take(k as int)),
        decreases inbox.len() - k,
    {
        proof {
            assert(inbox@.take(k + 1).drop_last() =~= inbox@.take(k as int));
        }
        inbox_item_exec(repos, &inbox[k], &mut out);
        proof {
            assert(item_views(out@) =~= base1 + inbox_items(repos@, inbox@.take(k + 1)));
        }
        k = k + 1;
    }
    proof {
        assert(inbox@.take(inbox@.len() as int) =~= inbox@);
    }
    let ghost base2 = item_views(out@);
    let mut k: usize = 0;
    while k < ci.len()
        invariant
            k <= ci@.len(),
            item_views(out@) == base2 + ci_items(repos@, ci@.take(k as int)),
        decreases ci.len() - k,
    {
        proof {
            assert(ci@.take(k + 1).drop_last() =~= ci@.take(k as int));
        }
        ci_item_exec(repos, &ci[k], &mut out);
        proof {
            assert(item_views(out@) =~= base2 + ci_items(repos@, ci@.take(k + 1)));
        }
        k = k + 1;
    }
    proof {
        assert(ci@.take(ci@.len() as int) =~= ci@);
    }
    let ghost base3 = item_views(out@);
    let mut k: usize = 0;
    while k < prunable.len()
        invariant
            k <= prunable@.len(),
            item_views(out@) == base3 + prunable_items(repos@, prunable@.take(k as int)),
        decreases prunable.len() - k,
    {
        proof {
            assert(prunable@.take(k + 1).drop_last() =~= prunable@.take(k as int));
        }
        prunable_item_exec(repos, &prunable[k], &mut out);
        proof {
            assert(item_views(out@) =~= base3 + prunable_items(repos@, prunable@.take(k + 1)));
        }
        k = k + 1;
    }
    proof {
        assert(prunable@.take(prunable@.len() as int) =~= prunable@);
    }
    let ghost base4 = item_views(out@);
    let mut k: usize = 0;
    while k < agents.len()
        invariant
            k <= agents@.len(),
            item_views(out@) == base4 + agent_items(repos@, agents@.take(k as int)),
        decreases agents.len() - k,
    {
        proof {
            assert(agents@.take(k + 1).drop_last() =~= agents@.take(k as int));
        }
        let x = agent_item_exec(repos, &agents[k]);
        push_item(&mut out, x);
        proof {
            assert(item_views(out@) =~= base4 + agent_items(repos@, agents@.take(k + 1)));
        }
        k = k + 1;
    }
    proof {
        assert(agents@.take(agents@.len() as int) =~= agents@);
        assert(item_views(out@) =~= raw_items(repos@, inbox@, ci@, prunable@, agents@));
    }
    out
}

/// Score everything into one prioritized list: the items raised by local git
/// state, the inbox, CI, prunable branches and agent sessions, ranked stably
/// by severity, then kind, then repo name (case-insensitive), then summary.
pub fn compute(
    repos: &[Repo],
    inbox: &[InboxItem],
    ci: &[CiFact],
    prunable: &[PrunableFact],
    agents: &[AgentFact],
) -> (r: Vec<AttentionItem>)
    ensures
        item_views(r@) == ranked(raw_items(repos@, inbox@, ci@, prunable@, agents@)),
{
    let raw = raise(repos, inbox, ci, prunable, agents);
    rank(raw)
}


// ───────────────────────────── pull-only policy ─────────────────────────────

/// The local path an item points at ("" when it has no local id).
pub open spec fn item_path(x: ItemV) -> Seq<char> {
    match x.repo.id {
        Some(p) => p,
        None => Seq::empty(),
    }
}

/// One item under the pull-only policy: CI on a pull-only tree is dropped,
/// Ahead there is reworded so Push isn't implied, and Behind always says Pull.
pub open spec fn policy_item(x: ItemV, prefixes: Seq<Seq<char>>) -> Option<ItemV> {
    let po = pull_only(item_path(x), prefixes);
    if (x.kind == AttentionKind::CiFailing || x.kind == AttentionKind::UpstreamCi) && po {
        None
    } else if x.kind == AttentionKind::Ahead && po {
        Some(
            ItemV {
                repo: x.repo,
                kind: x.kind,
                severity: x.severity,
                summary: replace(x.summary, "not pushed"@, "local only — don't push"@),
                detail: if x.detail is None {
                    Some("upstream / pull-only checkout"@)
                } else {
                    x.detail
                },
            },
        )
    } else if x.kind == AttentionKind::Behind && !contains(lowercase(x.summary), "pull"@) {
        Some(
            ItemV {
                repo: x.repo,
                kind: x.kind,
                severity: x.severity,
                summary: x.summary + " — Pull to update"@,
                detail: x.detail,
            },
        )
    } else {
        Some(x)
    }
}

/// The policy applied to every item, keeping order.
pub open spec fn policy(items: Seq<ItemV>, prefixes: Seq<Seq<char>>) -> Seq<ItemV>
    decreases items.len(),
{
    if items.len() == 0 {
        Seq::empty()
    } else {
        let r = policy(items.drop_last(), prefixes);
        match policy_item(items.last(), prefixes) {
            Some(y) => r.push(y),
            None => r,
        }
    }
}

/// Apply pull-only / upstream policy: silence CI you can't fix, rewrite Ahead
/// copy so Push isn't implied, and reinforce Behind → Pull.
pub fn apply_pull_only_policy(items: Vec<AttentionItem>, pull_only_prefixes: &[String]) -> (r: Vec<
    AttentionItem,
>)
    ensures
        item_views(r@) == policy(
            item_views(items@),
            pull_only_prefixes@.map_values(|p: String| p@),
        ),
{
    let ghost pv = pull_only_prefixes@.map_values(|p: String| p@);
    let mut out: Vec<AttentionItem> = Vec::new();
    let mut k: usize = 0;
    while k < items.len()
        invariant
            k <= items@.len(),
            pv == pull_only_prefixes@.map_values(|p: String| p@),
            item_views(out@) == policy(item_views(items@).take(k as int), pv),
        decreases items.len() - k,
    {
        let mut x = items[k].clone_item();
        proof {
            assert(item_views(items@)[k as int] == items@[k as int]@);
            assert(item_views(items@).take(k + 1).drop_last() =~= item_views(items@).take(k as int));
            assert(item_views(items@).take(k + 1).last() == x@);
        }
        let ghost x0 = x@;
        let po = match &x.repo.id {
            Some(p) => path_is_pull_only(p.as_str(), pull_only_prefixes),
            None => path_is_pull_only("", pull_only_prefixes),
        };
        proof {
            reveal_strlit("");
        }
        let is_ci = match x.kind {
            AttentionKind::CiFailing | AttentionKind::UpstreamCi => true,
            _ => false,
        };
        if is_ci && po {
        } else {
            if x.kind == AttentionKind::Ahead && po {
                let sc = chars_of(x.summary.as_str());
                proof {
                    reveal_strlit("not pushed");
                }
                let ns = replace_str(&sc, "not pushed", "local only — don't push");
                x.summary = string_from(&ns);
                if x.detail.is_none() {
                    x.detail = Some(string_from(&chars_of("upstream / pull-only checkout")));
                }
            } else if x.kind == AttentionKind::Behind {
                let sc = chars_of(x.summary.as_str());
                let low = to_lowercase(&sc);
                let pull = chars_of("pull");
                if !contains_chars(&low, &pull) {
                    let mut ns = sc;
                    push_str(&mut ns, " — Pull to update");
                    x.summary = string_from(&ns);
                }
            }
            push_item(&mut out, x);
        }
        k = k + 1;
    }
    proof {
        assert(item_views(items@).take(items@.len() as int) =~= item_views(items@));
    }
    out
}


// ───────────────────────────── laws ─────────────────────────────

/// `lex_lt` is transitive.
pub proof fn lemma_lex_trans(a: Seq<char>, b: Seq<char>, c: Seq<char>)
    requires
        lex_lt(a, b),
        lex_lt(b, c),
    ensures
        lex_lt(a, c),
    decreases a.len(),
{
    if a.len() > 0 && b.len() > 0 && c.len() > 0 && a[0] == b[0] && b[0] == c[0] {
        lemma_lex_trans(a.drop_first(), b.drop_first(), c.drop_first());
    }
}

/// `lex_lt` is asymmetric.
pub proof fn lemma_lex_asym(a: Seq<char>, b: Seq<char>)
    requires
        lex_lt(a, b),
    ensures
        !lex_lt(b, a),
    decreases a.len(),
{
    if a.len() > 0 && b.len() > 0 && a[0] == b[0] {
        lemma_lex_asym(a.drop_first(), b.drop_first());
    }
}

proof fn lemma_key_trans(x: ItemV, y: ItemV, z: ItemV)
    requires
        key_lt(x, y),
        key_lt(y, z),
    ensures
        key_lt(x, z),
{
    if lex_lt(lowercase(x.repo.name), lowercase(y.repo.name)) && lex_lt(
        lowercase(y.repo.name),
        lowercase(z.repo.name),
    ) {
        lemma_lex_trans(lowercase(x.repo.name), lowercase(y.repo.name), lowercase(z.repo.name));
    }
    if lex_lt(x.summary, y.summary) && lex_lt(y.summary, z.summary) {
        lemma_lex_trans(x.summary, y.summary, z.summary);
    }
}

proof fn lemma_key_asym(x: ItemV, y: ItemV)
    requires
        key_lt(x, y),
    ensures
        !key_lt(y, x),
{
    if lex_lt(lowercase(x.repo.name), lowercase(y.repo.name)) {
        lemma_lex_asym(lowercase(x.repo.name), lowercase(y.repo.name));
    }
    if lex_lt(x.summary, y.summary) {
        lemma_lex_asym(x.summary, y.summary);
    }
    lemma_lex_irrefl(lowercase(x.repo.name));
}

/// No item ranks strictly before an earlier one.
pub open spec fn is_ranked(s: Seq<ItemV>) -> bool {
    forall|i: int, j: int| 0 <= i < j < s.len() ==> !key_lt(#[trigger] s[j], #[trigger] s[i])
}

proof fn lemma_ins_pos_props(s: Seq<ItemV>, x: ItemV, j: int)
    requires
        0 <= j <= s.len(),
    ensures
        j <= ins_pos(s, x, j) <= s.len(),
        forall|i: int| j <= i < ins_pos(s, x, j) ==> !key_lt(x, #[trigger] s[i]),
        ins_pos(s, x, j) < s.len() ==> key_lt(x, s[ins_pos(s, x, j)]),
    decreases s.len() - j,
{
    if j < s.len() && !key_lt(x, s[j]) {
        lemma_ins_pos_props(s, x, j + 1);
    }
}

/// Ranking yields a sorted list.
pub proof fn lemma_ranked_sorted(s: Seq<ItemV>)
    ensures
        is_ranked(ranked(s)),
    decreases s.len(),
{
    if s.len() > 0 {
        let r = ranked(s.drop_last());
        let x = s.last();
        lemma_ranked_sorted(s.drop_last());
        lemma_ins_pos_props(r, x, 0);
        let p = ins_pos(r, x, 0);
        let t = r.insert(p, x);
        assert forall|i: int, j: int| 0 <= i < j < t.len() implies !key_lt(
            #[trigger] t[j],
            #[trigger] t[i],
        ) by {
            if j < p {
                assert(t[i] == r[i] && t[j] == r[j]);
            } else if j == p {
                assert(t[i] == r[i]);
            } else if i == p {
                assert(t[j] == r[j - 1]);
                if key_lt(r[j - 1], x) {
                    if j - 1 == p {
                        lemma_key_asym(x, r[p]);
                    } else {
                        lemma_key_trans(r[j - 1], x, r[p]);
                        assert(!key_lt(r[j - 1], r[p]));
                    }
                }
            } else if i < p {
                assert(t[i] == r[i] && t[j] == r[j - 1]);
            } else {
                assert(t[i] == r[i - 1] && t[j] == r[j - 1]);
            }
        }
    }
}

/// Ranking only reorders: the ranked list holds exactly the raised items.
pub proof fn lemma_ranked_permutes(s: Seq<ItemV>)
    ensures
        ranked(s).to_multiset() == s.to_multiset(),
    decreases s.len(),
{
    broadcast use vstd::seq_lib::group_to_multiset_ensures;

    if s.len() > 0 {
        let r = ranked(s.drop_last());
        let x = s.last();
        lemma_ranked_permutes(s.drop_last());
        lemma_ins_pos_bound(r, x, 0);
        let p = ins_pos(r, x, 0);
        let t = r.insert(p, x);
        assert(t.remove(p) =~= r);
        assert(t[p] == x);
        assert(s.drop_last().push(x) =~= s);
        assert(t.to_multiset().count(x) > 0) by {
            assert(t.contains(x));
        }
        assert(t.to_multiset() =~= r.to_multiset().insert(x));
    }
}

/// Every item carries its kind's documented severity.
pub open spec fn severities_consistent(s: Seq<ItemV>) -> bool {
    forall|i: int| 0 <= i < s.len() ==> (#[trigger] s[i]).severity == kind_severity(s[i].kind)
}

proof fn lemma_consistent_concat(a: Seq<ItemV>, b: Seq<ItemV>)
    requires
        severities_consistent(a),
        severities_consistent(b),
    ensures
        severities_consistent(a + b),
{
    assert forall|i: int| 0 <= i < (a + b).len() implies (#[trigger] (a + b)[i]).severity
        == kind_severity((a + b)[i].kind) by {
        if i >= a.len() {
            assert((a + b)[i] == b[i - a.len()]);
        }
    }
}

proof fn lemma_raw_consistent(
    rs: Seq<Repo>,
    inbox: Seq<InboxItem>,
    ci: Seq<CiFact>,
    ps: Seq<PrunableFact>,
    ags: Seq<AgentFact>,
)
    ensures
        severities_consistent(raw_items(rs, inbox, ci, ps, ags)),
    decreases rs.len() + inbox.len() + ci.len() + ps.len() + ags.len(),
{
    lemma_local_consistent(rs);
    lemma_inbox_consistent(rs, inbox);
    lemma_ci_consistent(rs, ci);
    lemma_prunable_consistent(rs, ps);
    lemma_agents_consistent(rs, ags);
    lemma_consistent_concat(local_items(rs), inbox_items(rs, inbox));
    lemma_consistent_concat(local_items(rs) + inbox_items(rs, inbox), ci_items(rs, ci));
    lemma_consistent_concat(
        local_items(rs) + inbox_items(rs, inbox) + ci_items(rs, ci),
        prunable_items(rs, ps),
    );
    lemma_consistent_concat(
        local_items(rs) + inbox_items(rs, inbox) + ci_items(rs, ci) + prunable_items(rs, ps),
        agent_items(rs, ags),
    );
}

proof fn lemma_local_consistent(rs: Seq<Repo>)
    ensures
        severities_consistent(local_items(rs)),
    decreases rs.len(),
{
    if rs.len() > 0 {
        lemma_local_consistent(rs.drop_last());
        let r = rs.last();
        let on = Some("on "@ + r.git.branch@);
        let g = r.git;
        let a: Seq<ItemV> = if g.conflicts > 0 {
            seq![mk(local_ref(r), AttentionKind::MergeConflict, count_text(g.conflicts as nat, "merge conflict"@, "merge conflicts"@), on)]
        } else {
            Seq::empty()
        };
        let b: Seq<ItemV> = if g.dirty > 0 {
            seq![mk(local_ref(r), AttentionKind::DirtyWorktree, count_text(g.dirty as nat, "uncommitted change"@, "uncommitted changes"@), on)]
        } else {
            Seq::empty()
        };
        let c: Seq<ItemV> = if g.ahead > 0 {
            seq![mk(local_ref(r), AttentionKind::Ahead, count_text(g.ahead as nat, "commit"@, "commits"@) + " not pushed"@, on)]
        } else {
            Seq::empty()
        };
        let d: Seq<ItemV> = if g.behind > 0 {
            seq![mk(local_ref(r), AttentionKind::Behind, count_text(g.behind as nat, "commit"@, "commits"@) + " behind upstream"@, on)]
        } else {
            Seq::empty()
        };
        assert(repo_items(r) == a + b + c + d);
        lemma_consistent_concat(a, b);
        lemma_consistent_concat(a + b, c);
        lemma_consistent_concat(a + b + c, d);
        lemma_consistent_concat(local_items(rs.drop_last()), repo_items(r));
    }
}

proof fn lemma_inbox_consistent(rs: Seq<Repo>, inbox: Seq<InboxItem>)
    ensures
        severities_consistent(inbox_items(rs, inbox)),
    decreases inbox.len(),
{
    if inbox.len() > 0 {
        lemma_inbox_consistent(rs, inbox.drop_last());
        lemma_consistent_concat(inbox_items(rs, inbox.drop_last()), inbox_item(rs, inbox.last()));
    }
}

proof fn lemma_ci_consistent(rs: Seq<Repo>, ci: Seq<CiFact>)
    ensures
        severities_consistent(ci_items(rs, ci)),
    decreases ci.len(),
{
    if ci.len() > 0 {
        lemma_ci_consistent(rs, ci.drop_last());
        lemma_consistent_concat(ci_items(rs, ci.drop_last()), ci_item(rs, ci.last()));
    }
}

proof fn lemma_prunable_consistent(rs: Seq<Repo>, ps: Seq<PrunableFact>)
    ensures
        severities_consistent(prunable_items(rs, ps)),
    decreases ps.len(),
{
    if ps.len() > 0 {
        lemma_prunable_consistent(rs, ps.drop_last());
        lemma_consistent_concat(prunable_items(rs, ps.drop_last()), prunable_item(rs, ps.last()));
    }
}

proof fn lemma_agents_consistent(rs: Seq<Repo>, ags: Seq<AgentFact>)
    ensures
        severities_consistent(agent_items(rs, ags)),
    decreases ags.len(),
{
    if ags.len() > 0 {
        lemma_agents_consistent(rs, ags.drop_last());
        lemma_consistent_concat(agent_items(rs, ags.drop_last()), seq![agent_item(rs, ags.last())]);
        assert(agent_items(rs, ags) =~= agent_items(rs, ags.drop_last()) + seq![agent_item(rs, ags.last())]);
    }
}

/// Law of `compute`: the output is ranked (no item ranks before an earlier
/// one), it is a permutation of the raised items, and every item carries its
/// kind's documented severity.
pub proof fn law_compute_ranked_permutation(
    repos: Seq<Repo>,
    inbox: Seq<InboxItem>,
    ci: Seq<CiFact>,
    prunable: Seq<PrunableFact>,
    agents: Seq<AgentFact>,
)
    ensures
        is_ranked(ranked(raw_items(repos, inbox, ci, prunable, agents))),
        ranked(raw_items(repos, inbox, ci, prunable, agents)).to_multiset() == raw_items(
            repos,
            inbox,
            ci,
            prunable,
            agents,
        ).to_multiset(),
        severities_consistent(ranked(raw_items(repos, inbox, ci, prunable, agents))),
{
    broadcast use vstd::seq_lib::group_to_multiset_ensures;

    let raw = raw_items(repos, inbox, ci, prunable, agents);
    lemma_ranked_sorted(raw);
    lemma_ranked_permutes(raw);
    lemma_raw_consistent(repos, inbox, ci, prunable, agents);
    let r = ranked(raw);
    assert forall|i: int| 0 <= i < r.len() implies (#[trigger] r[i]).severity == kind_severity(
        r[i].kind,
    ) by {
        assert(r.contains(r[i]));
        assert(r.to_multiset().count(r[i]) > 0);
        assert(raw.contains(r[i]));
        let j = choose|j: int| 0 <= j < raw.len() && raw[j] == r[i];
        assert(raw[j].severity == kind_severity(raw[j].kind));
    }
}

/// Whether a kind is raised by a repo's own git state.
pub open spec fn is_local_kind(k: AttentionKind) -> bool {
    k == AttentionKind::MergeConflict || k == AttentionKind::DirtyWorktree || k == AttentionKind::Ahead
        || k == AttentionKind::Behind
}

/// The git counter of a repo that raises a local kind: conflicted files,
/// uncommitted changes, commits ahead, commits behind.
pub open spec fn local_counter(r: Repo, k: AttentionKind) -> int {
    if k == AttentionKind::MergeConflict {
        r.git.conflicts as int
    } else if k == AttentionKind::DirtyWorktree {
        r.git.dirty as int
    } else if k == AttentionKind::Ahead {
        r.git.ahead as int
    } else if k == AttentionKind::Behind {
        r.git.behind as int
    } else {
        0
    }
}

/// The summary line of a local item whose counter is `n`: "1 merge
/// conflict" / "3 merge conflicts", "1 uncommitted change" / "n uncommitted
/// changes", "1 commit not pushed" / "n commits not pushed", "1 commit behind
/// upstream" / "n commits behind upstream".
pub open spec fn local_summary(k: AttentionKind, n: nat) -> Seq<char> {
    if k == AttentionKind::MergeConflict {
        if n == 1 {
            "1 merge conflict"@
        } else {
            dec(n) + " merge conflicts"@
        }
    } else if k == AttentionKind::DirtyWorktree {
        if n == 1 {
            "1 uncommitted change"@
        } else {
            dec(n) + " uncommitted changes"@
        }
    } else if k == AttentionKind::Ahead {
        if n == 1 {
            "1 commit not pushed"@
        } else {
            dec(n) + " commits not pushed"@
        }
    } else {
        if n == 1 {
            "1 commit behind upstream"@
        } else {
            dec(n) + " commits behind upstream"@
        }
    }
}

proof fn lemma_local_summaries(n: nat)
    ensures
        count_text(n, "merge conflict"@, "merge conflicts"@) == local_summary(AttentionKind::MergeConflict, n),
        count_text(n, "uncommitted change"@, "uncommitted changes"@) == local_summary(
            AttentionKind::DirtyWorktree,
            n,
        ),
        count_text(n, "commit"@, "commits"@) + " not pushed"@ == local_summary(AttentionKind::Ahead, n),
        count_text(n, "commit"@, "commits"@) + " behind upstream"@ == local_summary(AttentionKind::Behind, n),
{
    reveal_strlit("1 ");
    reveal_strlit(" ");
    reveal_strlit("merge conflict");
    reveal_strlit("merge conflicts");
    reveal_strlit("uncommitted change");
    reveal_strlit("uncommitted changes");
    reveal_strlit("commit");
    reveal_strlit("commits");
    reveal_strlit(" not pushed");
    reveal_strlit(" behind upstream");
    reveal_strlit("1 merge conflict");
    reveal_strlit(" merge conflicts");
    reveal_strlit("1 uncommitted change");
    reveal_strlit(" uncommitted changes");
    reveal_strlit("1 commit not pushed");
    reveal_strlit(" commits not pushed");
    reveal_strlit("1 commit behind upstream");
    reveal_strlit(" commits behind upstream");
    if n == 1 {
        assert("1 "@ + "merge conflict"@ =~= "1 merge conflict"@);
        assert("1 "@ + "uncommitted change"@ =~= "1 uncommitted change"@);
        assert("1 "@ + "commit"@ + " not pushed"@ =~= "1 commit not pushed"@);
        assert("1 "@ + "commit"@ + " behind upstream"@ =~= "1 commit behind upstream"@);
    } else {
        let d = dec(n);
        assert(d + " "@ + "merge conflicts"@ =~= d + " merge conflicts"@);
        assert(d + " "@ + "uncommitted changes"@ =~= d + " uncommitted changes"@);
        assert(d + " "@ + "commits"@ + " not pushed"@ =~= d + " commits not pushed"@);
        assert(d + " "@ + "commits"@ + " behind upstream"@ =~= d + " commits behind upstream"@);
    }
}

/// `x` is the item of kind `k` about repo `r`: it points at the repo (its
/// id and display name), names its branch, and carries the kind's tier
/// (a conflict is urgent, being behind is ambient, the rest need attention).
pub open spec fn raised_for(x: ItemV, r: Repo, k: AttentionKind) -> bool {
    &&& x.kind == k
    &&& x.repo.id == Some(r.id@)
    &&& x.repo.name == r.display_name@
    &&& x.detail == Some("on "@ + r.git.branch@)
    &&& x.summary == local_summary(k, local_counter(r, k) as nat)
    &&& x.severity == if k == AttentionKind::MergeConflict {
        Severity::Urgent
    } else if k == AttentionKind::Behind {
        Severity::Info
    } else {
        Severity::Attention
    }
}

#[verifier::spinoff_prover]
proof fn lemma_repo_items_kind(r: Repo, k: AttentionKind)
    requires
        is_local_kind(k),
    ensures
        local_counter(r, k) > 0 ==> exists|i: int|
            0 <= i < repo_items(r).len() && raised_for(#[trigger] repo_items(r)[i], r, k),
        forall|i: int|
            0 <= i < repo_items(r).len() ==> is_local_kind((#[trigger] repo_items(r)[i]).kind),
        forall|i: int|
            0 <= i < repo_items(r).len() && (#[trigger] repo_items(r)[i]).kind == k ==> local_counter(r, k)
                > 0 && raised_for(repo_items(r)[i], r, k),
{
    let on = Some("on "@ + r.git.branch@);
    let g = r.git;
    let a: Seq<ItemV> = if g.conflicts > 0 {
        seq![mk(local_ref(r), AttentionKind::MergeConflict, count_text(g.conflicts as nat, "merge conflict"@, "merge conflicts"@), on)]
    } else {
        Seq::empty()
    };
    let b: Seq<ItemV> = if g.dirty > 0 {
        seq![mk(local_ref(r), AttentionKind::DirtyWorktree, count_text(g.dirty as nat, "uncommitted change"@, "uncommitted changes"@), on)]
    } else {
        Seq::empty()
    };
    let c: Seq<ItemV> = if g.ahead > 0 {
        seq![mk(local_ref(r), AttentionKind::Ahead, count_text(g.ahead as nat, "commit"@, "commits"@) + " not pushed"@, on)]
    } else {
        Seq::empty()
    };
    let d: Seq<ItemV> = if g.behind > 0 {
        seq![mk(local_ref(r), AttentionKind::Behind, count_text(g.behind as nat, "commit"@, "commits"@) + " behind upstream"@, on)]
    } else {
        Seq::empty()
    };
    let all = a + b + c + d;
    assert(repo_items(r) == all);
    lemma_local_summaries(g.conflicts as nat);
    lemma_local_summaries(g.dirty as nat);
    lemma_local_summaries(g.ahead as nat);
    lemma_local_summaries(g.behind as nat);
    assert forall|i: int| 0 <= i < all.len() implies is_local_kind((#[trigger] all[i]).kind) && (all[i].kind
        == k ==> local_counter(r, k) > 0 && raised_for(all[i], r, k)) by {
        if i < a.len() {
            assert(all[i] == a[i]);
        } else if i < a.len() + b.len() {
            assert(all[i] == b[i - a.len()]);
        } else if i < a.len() + b.len() + c.len() {
            assert(all[i] == c[i - a.len() - b.len()]);
        } else {
            assert(all[i] == d[i - a.len() - b.len() - c.len()]);
        }
    }
    if local_counter(r, k) > 0 {
        if k == AttentionKind::MergeConflict {
            assert(raised_for(all[0], r, k));
        } else if k == AttentionKind::DirtyWorktree {
            assert(raised_for(all[a.len() as int], r, k));
        } else if k == AttentionKind::Ahead {
            assert(raised_for(all[(a.len() + b.len()) as int], r, k));
        } else {
            assert(raised_for(all[(a.len() + b.len() + c.len()) as int], r, k));
        }
    }
}

#[verifier::spinoff_prover]
proof fn lemma_local_items_kind(rs: Seq<Repo>, k: AttentionKind)
    requires
        is_local_kind(k),
    ensures
        forall|j: int|
            #![trigger rs[j]]
            0 <= j < rs.len() && local_counter(rs[j], k) > 0 ==> exists|i: int|
                0 <= i < local_items(rs).len() && raised_for(#[trigger] local_items(rs)[i], rs[j], k),
        forall|i: int|
            #![trigger local_items(rs)[i]]
            0 <= i < local_items(rs).len() ==> is_local_kind(local_items(rs)[i].kind) && (local_items(
                rs,
            )[i].kind == k ==> exists|j: int|
                0 <= j < rs.len() && local_counter(#[trigger] rs[j], k) > 0 && raised_for(
                    local_items(rs)[i],
                    rs[j],
                    k,
                )),
    decreases rs.len(),
{
    if rs.len() > 0 {
        let pr = rs.drop_last();
        let r = rs.last();
        let n = rs.len() - 1;
        lemma_local_items_kind(pr, k);
        lemma_repo_items_kind(r, k);
        let p = local_items(pr);
        let q = repo_items(r);
        let all = local_items(rs);
        assert(all == p + q);
        assert forall|j: int| #![trigger rs[j]] 0 <= j < rs.len() && local_counter(rs[j], k) > 0 implies exists|i: int|
            0 <= i < all.len() && raised_for(#[trigger] all[i], rs[j], k) by {
            if j < n {
                assert(pr[j] == rs[j]);
                let i = choose|i: int| 0 <= i < p.len() && raised_for(#[trigger] p[i], pr[j], k);
                assert(all[i] == p[i]);
            } else {
                assert(rs[j] == r);
                let i = choose|i: int| 0 <= i < q.len() && raised_for(#[trigger] q[i], r, k);
                assert(all[p.len() + i] == q[i]);
            }
        }
        assert forall|i: int| #![trigger all[i]] 0 <= i < all.len() implies is_local_kind(all[i].kind) && (
        all[i].kind == k ==> exists|j: int|
            0 <= j < rs.len() && local_counter(#[trigger] rs[j], k) > 0 && raised_for(all[i], rs[j], k)) by {
            if i < p.len() {
                assert(all[i] == p[i]);
                if all[i].kind == k {
                    let j = choose|j: int|
                        0 <= j < pr.len() && local_counter(#[trigger] pr[j], k) > 0 && raised_for(p[i], pr[j], k);
                    assert(pr[j] == rs[j]);
                }
            } else {
                assert(all[i] == q[i - p.len()]);
                assert(rs[n] == r);
            }
        }
    }
}

/// No item of the sequence has a local kind.
pub open spec fn no_local_kind(s: Seq<ItemV>) -> bool {
    forall|i: int| 0 <= i < s.len() ==> !is_local_kind((#[trigger] s[i]).kind)
}

proof fn lemma_no_local_concat(a: Seq<ItemV>, b: Seq<ItemV>)
    requires
        no_local_kind(a),
        no_local_kind(b),
    ensures
        no_local_kind(a + b),
{
    assert forall|i: int| 0 <= i < (a + b).len() implies !is_local_kind((#[trigger] (a + b)[i]).kind) by {
        if i < a.len() {
            assert((a + b)[i] == a[i]);
        } else {
            assert((a + b)[i] == b[i - a.len()]);
        }
    }
}

proof fn lemma_inbox_not_local(rs: Seq<Repo>, inbox: Seq<InboxItem>)
    ensures
        no_local_kind(inbox_items(rs, inbox)),
    decreases inbox.len(),
{
    if inbox.len() > 0 {
        lemma_inbox_not_local(rs, inbox.drop_last());
        lemma_no_local_concat(inbox_items(rs, inbox.drop_last()), inbox_item(rs, inbox.last()));
    }
}

proof fn lemma_ci_not_local(rs: Seq<Repo>, ci: Seq<CiFact>)
    ensures
        no_local_kind(ci_items(rs, ci)),
    decreases ci.len(),
{
    if ci.len() > 0 {
        lemma_ci_not_local(rs, ci.drop_last());
        lemma_no_local_concat(ci_items(rs, ci.drop_last()), ci_item(rs, ci.last()));
    }
}

proof fn lemma_prunable_not_local(rs: Seq<Repo>, ps: Seq<PrunableFact>)
    ensures
        no_local_kind(prunable_items(rs, ps)),
    decreases ps.len(),
{
    if ps.len() > 0 {
        lemma_prunable_not_local(rs, ps.drop_last());
        lemma_no_local_concat(prunable_items(rs, ps.drop_last()), prunable_item(rs, ps.last()));
    }
}

proof fn lemma_agents_not_local(rs: Seq<Repo>, ags: Seq<AgentFact>)
    ensures
        no_local_kind(agent_items(rs, ags)),
    decreases ags.len(),
{
    if ags.len() > 0 {
        lemma_agents_not_local(rs, ags.drop_last());
        assert(agent_items(rs, ags) =~= agent_items(rs, ags.drop_last()) + seq![agent_item(rs, ags.last())]);
        lemma_no_local_concat(agent_items(rs, ags.drop_last()), seq![agent_item(rs, ags.last())]);
    }
}

/// Items of kind `k`.
pub open spec fn of_kind(k: AttentionKind) -> spec_fn(ItemV) -> bool {
    |x: ItemV| x.kind == k
}

/// Repos whose counter for kind `k` is positive.
pub open spec fn counter_positive(k: AttentionKind) -> spec_fn(Repo) -> bool {
    |r: Repo| local_counter(r, k) > 0
}

proof fn lemma_filter_single(x: ItemV, p: spec_fn(ItemV) -> bool)
    ensures
        seq![x].filter(p).len() == if p(x) {
            1int
        } else {
            0int
        },
{
    reveal(Seq::filter);
    assert(seq![x].drop_last() =~= Seq::<ItemV>::empty());
    assert(Seq::<ItemV>::empty().filter(p).len() == 0);
    assert(seq![x].last() == x);
}

proof fn lemma_filter_snoc(s: Seq<ItemV>, p: spec_fn(ItemV) -> bool)
    requires
        s.len() > 0,
    ensures
        s.filter(p).len() == s.drop_last().filter(p).len() + if p(s.last()) {
            1int
        } else {
            0int
        },
{
    assert(s =~= s.drop_last() + seq![s.last()]);
    Seq::filter_distributes_over_add(s.drop_last(), seq![s.last()], p);
    lemma_filter_single(s.last(), p);
}

#[verifier::spinoff_prover]
proof fn lemma_ranked_filter_len(s: Seq<ItemV>, p: spec_fn(ItemV) -> bool)
    ensures
        ranked(s).filter(p).len() == s.filter(p).len(),
    decreases s.len(),
{
    if s.len() > 0 {
        let r = ranked(s.drop_last());
        let x = s.last();
        lemma_ranked_filter_len(s.drop_last(), p);
        lemma_ins_pos_bound(r, x, 0);
        let q = ins_pos(r, x, 0);
        let t = r.take(q);
        let u = r.skip(q);
        assert(ranked(s) == r.insert(q, x));
        assert(r.insert(q, x) =~= t + seq![x] + u);
        assert(r =~= t + u);
        Seq::filter_distributes_over_add(t + seq![x], u, p);
        Seq::filter_distributes_over_add(t, seq![x], p);
        Seq::filter_distributes_over_add(t, u, p);
        lemma_filter_single(x, p);
        lemma_filter_snoc(s, p);
    }
}

proof fn lemma_no_local_filter(s: Seq<ItemV>, k: AttentionKind)
    requires
        no_local_kind(s),
        is_local_kind(k),
    ensures
        s.filter(of_kind(k)).len() == 0,
    decreases s.len(),
{
    if s.len() == 0 {
        reveal(Seq::filter);
    } else {
        lemma_filter_snoc(s, of_kind(k));
        assert(no_local_kind(s.drop_last())) by {
            assert forall|i: int| 0 <= i < s.drop_last().len() implies !is_local_kind(
                (#[trigger] s.drop_last()[i]).kind,
            ) by {
                assert(s.drop_last()[i] == s[i]);
            }
        }
        lemma_no_local_filter(s.drop_last(), k);
        assert(!is_local_kind(s[s.len() - 1].kind));
    }
}

#[verifier::spinoff_prover]
proof fn lemma_repo_items_count(r: Repo, k: AttentionKind)
    requires
        is_local_kind(k),
    ensures
        repo_items(r).filter(of_kind(k)).len() == if local_counter(r, k) > 0 {
            1int
        } else {
            0int
        },
{
    let on = Some("on "@ + r.git.branch@);
    let g = r.git;
    let a: Seq<ItemV> = if g.conflicts > 0 {
        seq![mk(local_ref(r), AttentionKind::MergeConflict, count_text(g.conflicts as nat, "merge conflict"@, "merge conflicts"@), on)]
    } else {
        Seq::empty()
    };
    let b: Seq<ItemV> = if g.dirty > 0 {
        seq![mk(local_ref(r), AttentionKind::DirtyWorktree, count_text(g.dirty as nat, "uncommitted change"@, "uncommitted changes"@), on)]
    } else {
        Seq::empty()
    };
    let c: Seq<ItemV> = if g.ahead > 0 {
        seq![mk(local_ref(r), AttentionKind::Ahead, count_text(g.ahead as nat, "commit"@, "commits"@) + " not pushed"@, on)]
    } else {
        Seq::empty()
    };
    let d: Seq<ItemV> = if g.behind > 0 {
        seq![mk(local_ref(r), AttentionKind::Behind, count_text(g.behind as nat, "commit"@, "commits"@) + " behind upstream"@, on)]
    } else {
        Seq::empty()
    };
    assert(repo_items(r) == a + b + c + d);
    let p = of_kind(k);
    reveal(Seq::filter);
    Seq::filter_distributes_over_add(a + b + c, d, p);
    Seq::filter_distributes_over_add(a + b, c, p);
    Seq::filter_distributes_over_add(a, b, p);
    if g.conflicts > 0 {
        lemma_filter_single(a[0], p);
        assert(a =~= seq![a[0]]);
    }
    if g.dirty > 0 {
        lemma_filter_single(b[0], p);
        assert(b =~= seq![b[0]]);
    }
    if g.ahead > 0 {
        lemma_filter_single(c[0], p);
        assert(c =~= seq![c[0]]);
    }
    if g.behind > 0 {
        lemma_filter_single(d[0], p);
        assert(d =~= seq![d[0]]);
    }
}

proof fn lemma_local_items_count(rs: Seq<Repo>, k: AttentionKind)
    requires
        is_local_kind(k),
    ensures
        local_items(rs).filter(of_kind(k)).len() == rs.filter(counter_positive(k)).len(),
    decreases rs.len(),
{
    reveal(Seq::filter);
    if rs.len() > 0 {
        assert(local_items(rs) == local_items(rs.drop_last()) + repo_items(rs.last()));
        lemma_local_items_count(rs.drop_last(), k);
        lemma_repo_items_count(rs.last(), k);
        Seq::filter_distributes_over_add(local_items(rs.drop_last()), repo_items(rs.last()), of_kind(k));
    }
}

#[verifier::spinoff_prover]
proof fn lemma_raw_count(
    repos: Seq<Repo>,
    inbox: Seq<InboxItem>,
    ci: Seq<CiFact>,
    prunable: Seq<PrunableFact>,
    agents: Seq<AgentFact>,
    k: AttentionKind,
)
    requires
        is_local_kind(k),
    ensures
        ranked(raw_items(repos, inbox, ci, prunable, agents)).filter(of_kind(k)).len() == repos.filter(
            counter_positive(k),
        ).len(),
{
    let raw = raw_items(repos, inbox, ci, prunable, agents);
    lemma_inbox_not_local(repos, inbox);
    lemma_ci_not_local(repos, ci);
    lemma_prunable_not_local(repos, prunable);
    lemma_agents_not_local(repos, agents);
    let l = local_items(repos);
    let i1 = inbox_items(repos, inbox);
    let c1 = ci_items(repos, ci);
    let p1 = prunable_items(repos, prunable);
    let a1 = agent_items(repos, agents);
    lemma_no_local_concat(i1, c1);
    lemma_no_local_concat(i1 + c1, p1);
    lemma_no_local_concat(i1 + c1 + p1, a1);
    let rest = i1 + c1 + p1 + a1;
    assert(raw =~= l + rest);
    lemma_ranked_filter_len(raw, of_kind(k));
    lemma_local_items_count(repos, k);
    lemma_no_local_filter(rest, k);
    Seq::filter_distributes_over_add(l, rest, of_kind(k));
}

#[verifier::spinoff_prover]
proof fn lemma_raised_reach_out(
    repos: Seq<Repo>,
    inbox: Seq<InboxItem>,
    ci: Seq<CiFact>,
    prunable: Seq<PrunableFact>,
    agents: Seq<AgentFact>,
    out: Seq<ItemV>,
    k: AttentionKind,
)
    requires
        out == ranked(raw_items(repos, inbox, ci, prunable, agents)),
        is_local_kind(k),
    ensures
        forall|j: int|
            #![trigger repos[j]]
            0 <= j < repos.len() && local_counter(repos[j], k) > 0 ==> exists|i: int|
                0 <= i < out.len() && raised_for(#[trigger] out[i], repos[j], k),
{
    broadcast use vstd::seq_lib::group_to_multiset_ensures;

    let raw = raw_items(repos, inbox, ci, prunable, agents);
    lemma_ranked_permutes(raw);
    lemma_local_items_kind(repos, k);
    let l = local_items(repos);
    let rest = inbox_items(repos, inbox) + ci_items(repos, ci) + prunable_items(repos, prunable)
        + agent_items(repos, agents);
    assert(raw =~= l + rest);
    assert forall|j: int| #![trigger repos[j]] 0 <= j < repos.len() && local_counter(repos[j], k) > 0 implies exists|i: int|
        0 <= i < out.len() && raised_for(#[trigger] out[i], repos[j], k) by {
        let m = choose|m: int| 0 <= m < l.len() && raised_for(#[trigger] l[m], repos[j], k);
        assert(raw[m] == l[m]);
        assert(raw.contains(l[m]));
        assert(out.to_multiset().count(l[m]) > 0);
        assert(out.contains(l[m]));
        let i = choose|i: int| 0 <= i < out.len() && out[i] == l[m];
        assert(raised_for(out[i], repos[j], k));
    }
}

#[verifier::spinoff_prover]
proof fn lemma_out_from_counters(
    repos: Seq<Repo>,
    inbox: Seq<InboxItem>,
    ci: Seq<CiFact>,
    prunable: Seq<PrunableFact>,
    agents: Seq<AgentFact>,
    out: Seq<ItemV>,
    k: AttentionKind,
)
    requires
        out == ranked(raw_items(repos, inbox, ci, prunable, agents)),
        is_local_kind(k),
    ensures
        forall|i: int|
            #![trigger out[i]]
            0 <= i < out.len() && out[i].kind == k ==> exists|j: int|
                0 <= j < repos.len() && local_counter(#[trigger] repos[j], k) > 0 && raised_for(out[i], repos[j], k),
{
    broadcast use vstd::seq_lib::group_to_multiset_ensures;

    let raw = raw_items(repos, inbox, ci, prunable, agents);
    lemma_ranked_permutes(raw);
    lemma_local_items_kind(repos, k);
    lemma_inbox_not_local(repos, inbox);
    lemma_ci_not_local(repos, ci);
    lemma_prunable_not_local(repos, prunable);
    lemma_agents_not_local(repos, agents);
    let l = local_items(repos);
    let i1 = inbox_items(repos, inbox);
    let c1 = ci_items(repos, ci);
    let p1 = prunable_items(repos, prunable);
    let a1 = agent_items(repos, agents);
    lemma_no_local_concat(i1, c1);
    lemma_no_local_concat(i1 + c1, p1);
    lemma_no_local_concat(i1 + c1 + p1, a1);
    let rest = i1 + c1 + p1 + a1;
    assert(raw =~= l + rest);
    assert forall|i: int| #![trigger out[i]] 0 <= i < out.len() && out[i].kind == k implies exists|j: int|
        0 <= j < repos.len() && local_counter(#[trigger] repos[j], k) > 0 && raised_for(out[i], repos[j], k) by {
        assert(out.contains(out[i]));
        assert(raw.to_multiset().count(out[i]) > 0);
        assert(raw.contains(out[i]));
        let m = choose|m: int| 0 <= m < raw.len() && raw[m] == out[i];
        if m < l.len() {
            assert(raw[m] == l[m]);
        } else {
            assert(raw[m] == rest[m - l.len()]);
            assert(!is_local_kind(rest[m - l.len()].kind));
        }
    }
}

/// Law of the items a repo's git state raises: for each local kind (merge
/// conflict, uncommitted changes, commits ahead, commits behind), every repo
/// whose counter for it is positive gets an item of that kind in the
/// attention list, pointing at the repo and its branch with the kind's tier
/// (a repo with a conflicted file gets an urgent merge-conflict item); and
/// every item of that kind in the list belongs to a repo whose counter is
/// positive, and there are as many items of the kind as such repos. So a
/// repo item of each kind is raised exactly when its counter is positive,
/// once per repo.
pub proof fn law_repo_items_follow_counters(
    repos: Seq<Repo>,
    inbox: Seq<InboxItem>,
    ci: Seq<CiFact>,
    prunable: Seq<PrunableFact>,
    agents: Seq<AgentFact>,
    out: Seq<ItemV>,
    k: AttentionKind,
)
    requires
        out == ranked(raw_items(repos, inbox, ci, prunable, agents)),
        is_local_kind(k),
    ensures
        forall|j: int|
            #![trigger repos[j]]
            0 <= j < repos.len() && local_counter(repos[j], k) > 0 ==> exists|i: int|
                0 <= i < out.len() && raised_for(#[trigger] out[i], repos[j], k),
        forall|i: int|
            #![trigger out[i]]
            0 <= i < out.len() && out[i].kind == k ==> exists|j: int|
                0 <= j < repos.len() && local_counter(#[trigger] repos[j], k) > 0 && raised_for(out[i], repos[j], k),
        out.filter(of_kind(k)).len() == repos.filter(counter_positive(k)).len(),
{
    lemma_raised_reach_out(repos, inbox, ci, prunable, agents, out, k);
    lemma_out_from_counters(repos, inbox, ci, prunable, agents, out, k);
    lemma_raw_count(repos, inbox, ci, prunable, agents, k);
}

/// Law of the pull-only policy: no CI item survives for a pull-only path, the
/// list never grows, and every other item keeps its kind in order.
pub proof fn law_pull_only_drops_only_ci(items: Seq<ItemV>, prefixes: Seq<Seq<char>>)
    ensures
        forall|i: int|
            0 <= i < policy(items, prefixes).len() ==> !(((#[trigger] policy(items, prefixes)[i]).kind
                == AttentionKind::CiFailing || policy(items, prefixes)[i].kind
                == AttentionKind::UpstreamCi) && pull_only(
                item_path(policy(items, prefixes)[i]),
                prefixes,
            )),
        policy(items, prefixes).len() <= items.len(),
        (forall|i: int|
            0 <= i < items.len() ==> !pull_only(item_path(#[trigger] items[i]), prefixes))
            ==> policy(items, prefixes).len() == items.len(),
    decreases items.len(),
{
    if items.len() > 0 {
        law_pull_only_drops_only_ci(items.drop_last(), prefixes);
        let r = policy(items.drop_last(), prefixes);
        let x = items.last();
        if (forall|i: int|
            0 <= i < items.len() ==> !pull_only(item_path(#[trigger] items[i]), prefixes)) {
            assert forall|i: int| 0 <= i < items.drop_last().len() implies !pull_only(
                item_path(#[trigger] items.drop_last()[i]),
                prefixes,
            ) by {
                assert(items.drop_last()[i] == items[i]);
            }
            assert(!pull_only(item_path(items[items.len() - 1]), prefixes));
        }
        match policy_item(x, prefixes) {
            Some(y) => {
                assert(item_path(y) == item_path(x));
                let t = r.push(y);
                assert forall|i: int| 0 <= i < t.len() implies !(((#[trigger] t[i]).kind
                    == AttentionKind::CiFailing || t[i].kind == AttentionKind::UpstreamCi)
                    && pull_only(item_path(t[i]), prefixes)) by {
                    if i < r.len() {
                        assert(t[i] == r[i]);
                    }
                }
            },
            None => {},
        }
    }
}

} // verus!
