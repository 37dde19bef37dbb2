//! Shared domain types: a scanned repo, its git state, host enrichment, and
//! the pull-only path policy.
use vstd::prelude::*;

use crate::text::{
    chars_eq, chars_of, slice_of, string_from, starts_with, starts_with_chars, trim_end_char, trim_end_char_chars,
};

verus! {

/// Recency bucket of a repo's last commit.
#[derive(Debug, Clone, Copy, PartialEq, Eq, Structural)]
pub enum Activity {
    Active,
    Idle,
    Stale,
}

/// A recognised git host.
#[derive(Debug, Clone, Copy, PartialEq, Eq, Structural)]
pub enum Host {
    Github,
    Gitlab,
}

/// Local git state of a checkout.
#[derive(Debug, Clone)]
pub struct GitStatus {
    pub branch: String,
    pub ahead: u32,
    pub behind: u32,
    /// Count of paths with any uncommitted change (staged and/or unstaged).
    pub dirty: u32,
    /// Paths with index (staged) changes vs HEAD.
    pub staged: u32,
    /// Paths with working-tree changes vs the index (incl. untracked).
    pub unstaged: u32,
    /// Paths currently in an unresolved merge/rebase conflict.
    pub conflicts: u32,
}

impl Default for GitStatus {
    fn default() -> (r: Self)
        ensures
            r.branch@ == Seq::<char>::empty(),
            r.ahead == 0 && r.behind == 0 && r.dirty == 0,
            r.staged == 0 && r.unstaged == 0 && r.conflicts == 0,
    {
        GitStatus {
            branch: String::new(),
            ahead: 0,
            behind: 0,
            dirty: 0,
            staged: 0,
            unstaged: 0,
            conflicts: 0,
        }
    }
}

/// One scanned repository.
#[derive(Debug, Clone)]
pub struct Repo {
    /// Stable id — absolute path on disk.
    pub id: String,
    /// Human display name: short README H1 (when name-like) → remote repo → directory.
    pub display_name: String,
    /// owner/repo slug parsed from the origin remote, if any.
    pub slug: Option<String>,
    /// Absolute path, abbreviated with ~ for display.
    pub path: String,
    /// First line/paragraph of the README, if present.
    pub description: Option<String>,
    /// Detected primary language (heuristic).
    pub language: Option<String>,
    pub git: GitStatus,
    /// Seconds since the Unix epoch (UTC) of the last commit.
    pub last_commit_unix: i64,
    pub activity: Activity,
    /// The scanned root this repo was found under (abbreviated).
    pub root: String,
    /// Origin host, if the repo has a recognized remote.
    pub host: Option<Host>,
    /// Remote host domain (e.g. "github.com", "gitlab.acme.io").
    pub remote_host: Option<String>,
    /// Host star count (enrichment; 0 until fetched).
    pub stars: u32,
    /// Host topics/labels (enrichment).
    pub topics: Vec<String>,
    /// Open issues on the host (enrichment).
    pub open_issues: u32,
    /// Latest release tag on the host (enrichment).
    pub latest_release: Option<String>,
    /// Whether the host remote is private (enrichment).
    pub private: bool,
    /// User-favorited (persisted locally).
    pub favorite: bool,
    /// Local-AI summary.
    pub ai_summary: Option<String>,
    /// Absolute path of the parent repo when this checkout is a git submodule.
    pub parent_id: Option<String>,
    /// Path relative to the parent as listed in `.gitmodules`, if a submodule.
    pub submodule_path: Option<String>,
}

/// Host-side enrichment for a repo, fetched from GitHub/GitLab.
#[derive(Debug, Clone)]
pub struct HostInfo {
    pub stars: u32,
    pub topics: Vec<String>,
    pub open_issues: u32,
    pub latest_release: Option<String>,
    pub private: bool,
}

impl Default for HostInfo {
    fn default() -> (r: Self)
        ensures
            r.stars == 0 && r.topics@.len() == 0 && r.open_issues == 0,
            r.latest_release is None && !r.private,
    {
        HostInfo { stars: 0, topics: Vec::new(), open_issues: 0, latest_release: None, private: false }
    }
}

/// A named set of repos matched by absolute path prefixes.
#[derive(Debug, Clone)]
pub struct WorkspaceGroup {
    pub name: String,
    /// Repo path matches if it starts with any of these prefixes.
    pub prefixes: Vec<String>,
}

/// The view of an optional string.
/// The view of an optional `&str`.
pub open spec fn ref_view(o: Option<&str>) -> Option<Seq<char>> {
    match o {
        Some(s) => Some(s@),
        None => None,
    }
}

pub open spec fn opt_view(o: Option<String>) -> Option<Seq<char>> {
    match o {
        Some(s) => Some(s@),
        None => None,
    }
}

/// A copy of an optional string.
pub fn clone_opt(o: &Option<String>) -> (r: Option<String>)
    ensures
        opt_view(r) == opt_view(*o),
{
    match o {
        Some(s) => Some(s.clone()),
        None => None,
    }
}

/// `prefix` (already stripped of trailing slashes) covers `path`: equal, or
/// `path` lies below it.
pub open spec fn prefix_covers(prefix: Seq<char>, path: Seq<char>) -> bool {
    prefix.len() > 0 && (path == prefix || starts_with(path, prefix + seq!['/']))
}

/// `path` lies under one of the pull-only `prefixes` (trailing slashes ignored
/// on both sides; an empty prefix covers nothing).
pub open spec fn pull_only(path: Seq<char>, prefixes: Seq<Seq<char>>) -> bool {
    exists|i: int|
        0 <= i < prefixes.len() && prefix_covers(
            trim_end_char(#[trigger] prefixes[i], '/'),
            trim_end_char(path, '/'),
        )
}

/// True when `path` is under any configured pull-only prefix (upstream /
/// vendor trees you update with Pull and never Push).
pub fn path_is_pull_only(path: &str, prefixes: &[String]) -> (r: bool)
    ensures
        r == pull_only(path@, prefixes@.map_values(|p: String| p@)),
{
    let ghost pv = prefixes@.map_values(|p: String| p@);
    let pc = chars_of(path);
    let p = trim_end_char_chars(&pc, '/');
    let mut k: usize = 0;
    while k < prefixes.len()
        invariant
            k <= prefixes@.len(),
            pv == prefixes@.map_values(|p: String| p@),
            p@ == trim_end_char(path@, '/'),
            forall|i: int|
                0 <= i < k ==> !prefix_covers(trim_end_char(#[trigger] pv[i], '/'), p@),
        decreases prefixes.len() - k,
    {
        let qc = chars_of(prefixes[k].as_str());
        let q = trim_end_char_chars(&qc, '/');
        let mut qs = slice_of(&q, 0, q.len());
        qs.push('/');
        let covers = q.len() > 0 && (chars_eq(&p, &q) || starts_with_chars(&p, &qs));
        proof {
            assert(qs@ =~= q@ + seq!['/']);
            assert(pv[k as int] == prefixes@[k as int]@);
        }
        if covers {
            return true;
        }
        k = k + 1;
    }
    false
}

/// The folder diff command to suggest: meld when installed, else VS Code's
/// diff, else the desktop's opener.
pub fn diff_command_for(has_meld: bool, has_code: bool) -> (r: String)
    ensures
        r@ == if has_meld {
            "meld {path}"@
        } else if has_code {
            "code --diff {path}"@
        } else {
            "xdg-open {path}"@
        },
{
    if has_meld {
        string_from(&chars_of("meld {path}"))
    } else if has_code {
        string_from(&chars_of("code --diff {path}"))
    } else {
        string_from(&chars_of("xdg-open {path}"))
    }
}

/// The default diff command for this machine (which tools are installed is
/// read from `PATH`).
pub fn default_diff_command() -> (r: String)
    ensures
        r@ == "meld {path}"@ || r@ == "code --diff {path}"@ || r@ == "xdg-open {path}"@,
{
    let meld = crate::paths::find_program("meld").is_some();
    let code = crate::paths::find_program("code").is_some();
    diff_command_for(meld, code)
}

} // verus!
