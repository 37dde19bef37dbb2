//! The pure side of the on-disk cache: cached CI entries and dispatched agent
//! worktrees as values, TTL freshness, and rehydrating a repo snapshot from
//! cached host enrichment and AI summaries. The SQLite reads and writes are
//! the caller's part.
use vstd::prelude::*;

use crate::model::{opt_view, HostInfo, Repo};
use crate::text::{str_eq, str_views};

verus! {

/// The cached CI state of one (host domain, slug).
#[derive(Debug, Clone, PartialEq, Eq)]
pub struct CiEntry {
    pub state: String,
    pub url: Option<String>,
    pub updated_at: i64,
}

/// One recorded agent-worktree dispatch.
#[derive(Debug, Clone, PartialEq, Eq)]
pub struct AgentWorktree {
    /// Absolute path of the worktree's working directory (primary key).
    pub worktree_path: String,
    /// The origin repo's id (absolute path).
    pub repo_id: String,
    /// The branch the agent works on.
    pub branch: String,
    /// The git worktree name in the origin repo.
    pub worktree_name: String,
    /// The task prompt the agent was dispatched with.
    pub prompt: String,
    /// Unix time of the dispatch.
    pub created_at: i64,
    /// Unix time an agent process was last observed alive (0 = never).
    pub last_seen_alive: i64,
    /// Unix time the session was observed to have finished (0 = not finished).
    pub finished_at: i64,
    /// Commits ahead of the origin's default branch when the session finished.
    pub commits_ahead: u32,
    /// URL of the PR opened from the worktree's branch ("" = none).
    pub pr_url: String,
}

/// `now - at` saturated to the `i64` range.
pub open spec fn age_of(at: i64, now: i64) -> int {
    if now - at > i64::MAX {
        i64::MAX as int
    } else if now - at < i64::MIN {
        i64::MIN as int
    } else {
        now - at
    }
}

/// Whether an entry written at `at` is still within `max_age_secs` of `now`.
pub fn is_fresh(at: i64, max_age_secs: i64, now: i64) -> (r: bool)
    ensures
        r == (age_of(at, now) <= max_age_secs),
{
    let d: i128 = (now as i128) - (at as i128);
    let age: i128 = if d > (i64::MAX as i128) {
        i64::MAX as i128
    } else if d < (i64::MIN as i128) {
        i64::MIN as i128
    } else {
        d
    };
    age <= (max_age_secs as i128)
}

/// The (host, slug) keys of the rows still fresh, in row order.
pub open spec fn fresh_of(rows: Seq<(String, String, i64)>, max_age_secs: i64, now: i64) -> Seq<
    (Seq<char>, Seq<char>),
>
    decreases rows.len(),
{
    if rows.len() == 0 {
        Seq::empty()
    } else {
        let r = fresh_of(rows.drop_last(), max_age_secs, now);
        let x = rows.last();
        if age_of(x.2, now) <= max_age_secs {
            r.push((x.0@, x.1@))
        } else {
            r
        }
    }
}

pub open spec fn pair_views(v: Seq<(String, String)>) -> Seq<(Seq<char>, Seq<char>)> {
    v.map_values(|p: (String, String)| (p.0@, p.1@))
}

/// The (host, slug) keys whose cached row (host, slug, written at) is still
/// within `max_age_secs`: the passes skip these.
pub fn fresh_keys(rows: &[(String, String, i64)], max_age_secs: i64, now: i64) -> (r: Vec<(String, String)>)
    ensures
        pair_views(r@) == fresh_of(rows@, max_age_secs, now),
{
    let mut out: Vec<(String, String)> = Vec::new();
    let mut k: usize = 0;
    proof {
        assert(rows@.take(0) =~= Seq::<(String, String, i64)>::empty());
        assert(pair_views(out@) =~= Seq::<(Seq<char>, Seq<char>)>::empty());
    }
    while k < rows.len()
        invariant
            k <= rows@.len(),
            pair_views(out@) == fresh_of(rows@.take(k as int), max_age_secs, now),
        decreases rows.len() - k,
    {
        proof {
            assert(rows@.take(k + 1).drop_last() =~= rows@.take(k as int));
            assert(rows@.take(k + 1).last() == rows@[k as int]);
        }
        if is_fresh(rows[k].2, max_age_secs, now) {
            let p = (rows[k].0.clone(), rows[k].1.clone());
            proof {
                assert(pair_views(out@.push(p)) =~= pair_views(out@).push((p.0@, p.1@)));
            }
            out.push(p);
        }
        k = k + 1;
    }
    proof {
        assert(rows@.take(rows@.len() as int) =~= rows@);
    }
    out
}

/// A repo's host-cache key: (remote domain or "", slug), when it has a slug.
pub open spec fn host_key(r: Repo) -> Option<(Seq<char>, Seq<char>)> {
    match r.slug {
        Some(s) => Some((crate::inbox::or_empty(r.remote_host), s@)),
        None => None,
    }
}

/// Index of the first cached entry for `key`.
pub open spec fn entry_for(cache: Seq<((String, String), HostInfo)>, key: (Seq<char>, Seq<char>), i: int) -> Option<int>
    decreases cache.len() - i,
{
    if i < 0 || i >= cache.len() {
        None
    } else if (cache[i].0.0@, cache[i].0.1@) == key {
        Some(i)
    } else {
        entry_for(cache, key, i + 1)
    }
}

fn find_entry(cache: &[((String, String), HostInfo)], host: &str, slug: &str) -> (r: Option<usize>)
    ensures
        match r {
            Some(i) => entry_for(cache@, (host@, slug@), 0) == Some(i as int) && i < cache@.len(),
            None => entry_for(cache@, (host@, slug@), 0) is None,
        },
{
    let mut k: usize = 0;
    while k < cache.len()
        invariant
            k <= cache@.len(),
            entry_for(cache@, (host@, slug@), k as int) == entry_for(cache@, (host@, slug@), 0),
        decreases cache.len() - k,
    {
        if str_eq(cache[k].0.0.as_str(), host) && str_eq(cache[k].0.1.as_str(), slug) {
            return Some(k);
        }
        k = k + 1;
    }
    None
}

/// The enrichment fields of a repo.
pub open spec fn enrichment(r: Repo) -> (u32, Seq<Seq<char>>, u32, Option<Seq<char>>, bool) {
    (r.stars, str_views(r.topics@), r.open_issues, opt_view(r.latest_release), r.private)
}

/// The enrichment fields of a cached host entry.
pub open spec fn info_enrichment(i: HostInfo) -> (u32, Seq<Seq<char>>, u32, Option<Seq<char>>, bool) {
    (i.stars, str_views(i.topics@), i.open_issues, opt_view(i.latest_release), i.private)
}

/// Everything of a repo but its enrichment fields.
pub open spec fn same_identity(a: Repo, b: Repo) -> bool {
    &&& a.id@ == b.id@
    &&& a.display_name@ == b.display_name@
    &&& opt_view(a.slug) == opt_view(b.slug)
    &&& a.path@ == b.path@
    &&& opt_view(a.remote_host) == opt_view(b.remote_host)
    &&& a.last_commit_unix == b.last_commit_unix
    &&& opt_view(a.ai_summary) == opt_view(b.ai_summary)
}

/// Rehydrate stars / topics / open issues / latest release / visibility on a
/// repo snapshot from the cached host enrichment, keyed (domain, slug).
pub fn apply_host_info(repos: Vec<Repo>, cache: &[((String, String), HostInfo)]) -> (r: Vec<Repo>)
    ensures
        r@.len() == repos@.len(),
        forall|i: int|
            0 <= i < r@.len() ==> same_identity(#[trigger] r@[i], repos@[i]) && match host_key(
                repos@[i],
            ) {
                Some(key) => match entry_for(cache@, key, 0) {
                    Some(j) => enrichment(r@[i]) == info_enrichment(cache@[j].1),
                    None => enrichment(r@[i]) == enrichment(repos@[i]),
                },
                None => enrichment(r@[i]) == enrichment(repos@[i]),
            },
{
    let ghost orig = repos@;
    let mut rest = repos;
    let mut out: Vec<Repo> = Vec::new();
    let n = rest.len();
    let mut k: usize = 0;
    proof {
        assert(rest@.skip(0) =~= orig);
    }
    while k < n
        invariant
            n == orig.len(),
            k <= n,
            rest@ == orig.skip(k as int),
            out@.len() == k,
            forall|i: int|
                0 <= i < k ==> same_identity(#[trigger] out@[i], orig[i]) && match host_key(orig[i]) {
                    Some(key) => match entry_for(cache@, key, 0) {
                        Some(j) => enrichment(out@[i]) == info_enrichment(cache@[j].1),
                        None => enrichment(out@[i]) == enrichment(orig[i]),
                    },
                    None => enrichment(out@[i]) == enrichment(orig[i]),
                },
        decreases n - k,
    {
        let mut r = rest.remove(0);
        proof {
            assert(r == orig[k as int]);
            assert(rest@ =~= orig.skip(k + 1));
        }
        let ghost before = r;
        match &r.slug {
            Some(slug) => {
                let host = crate::inbox::or_empty_pub(&r.remote_host);
                match find_entry(cache, host.as_str(), slug.as_str()) {
                    Some(j) => {
                        let info = &cache[j].1;
                        let topics = clone_strings(&info.topics);
                        let release = crate::model::clone_opt(&info.latest_release);
                        r.stars = info.stars;
                        r.topics = topics;
                        r.open_issues = info.open_issues;
                        r.latest_release = release;
                        r.private = info.private;
                    },
                    None => {},
                }
            },
            None => {},
        }
        out.push(r);
        k = k + 1;
    }
    out
}

fn clone_strings(v: &Vec<String>) -> (r: Vec<String>)
    ensures
        str_views(r@) == str_views(v@),
{
    let mut out: Vec<String> = Vec::new();
    let mut k: usize = 0;
    while k < v.len()
        invariant
            k <= v@.len(),
            str_views(out@) == str_views(v@).take(k as int),
        decreases v.len() - k,
    {
        let s = v[k].clone();
        proof {
            assert(str_views(out@.push(s)) =~= str_views(out@).push(s@));
            assert(str_views(v@).take(k + 1) =~= str_views(v@).take(k as int).push(v@[k as int]@));
        }
        out.push(s);
        k = k + 1;
    }
    proof {
        assert(str_views(v@).take(v@.len() as int) =~= str_views(v@));
    }
    out
}

/// Index of the first cached summary row for a repo id.
pub open spec fn summary_for(rows: Seq<(String, String, i64)>, id: Seq<char>, i: int) -> Option<int>
    decreases rows.len() - i,
{
    if i < 0 || i >= rows.len() {
        None
    } else if rows[i].0@ == id {
        Some(i)
    } else {
        summary_for(rows, id, i + 1)
    }
}

/// The summary a repo shows: the cached one only when it was written for the
/// repo's current last commit (a stale one is dropped so it regenerates).
pub open spec fn summary_of(r: Repo, rows: Seq<(String, String, i64)>) -> Option<Seq<char>> {
    match summary_for(rows, r.id@, 0) {
        Some(j) => if rows[j].2 == r.last_commit_unix {
            Some(rows[j].1@)
        } else {
            opt_view(r.ai_summary)
        },
        None => opt_view(r.ai_summary),
    }
}

/// Apply cached AI summaries `(id, summary, last commit)` to a repo snapshot.
pub fn apply_summaries(repos: Vec<Repo>, rows: &[(String, String, i64)]) -> (r: Vec<Repo>)
    ensures
        r@.len() == repos@.len(),
        forall|i: int|
            0 <= i < r@.len() ==> (#[trigger] r@[i]).id@ == repos@[i].id@ && r@[i].last_commit_unix
                == repos@[i].last_commit_unix && enrichment(r@[i]) == enrichment(repos@[i])
                && opt_view(r@[i].ai_summary) == summary_of(repos@[i], rows@),
{
    let ghost orig = repos@;
    let mut rest = repos;
    let mut out: Vec<Repo> = Vec::new();
    let n = rest.len();
    let mut k: usize = 0;
    proof {
        assert(rest@.skip(0) =~= orig);
    }
    while k < n
        invariant
            n == orig.len(),
            k <= n,
            rest@ == orig.skip(k as int),
            out@.len() == k,
            forall|i: int|
                0 <= i < k ==> (#[trigger] out@[i]).id@ == orig[i].id@ && out@[i].last_commit_unix
                    == orig[i].last_commit_unix && enrichment(out@[i]) == enrichment(orig[i])
                    && opt_view(out@[i].ai_summary) == summary_of(orig[i], rows@),
        decreases n - k,
    {
        let mut r = rest.remove(0);
        proof {
            assert(r == orig[k as int]);
            assert(rest@ =~= orig.skip(k + 1));
        }
        let mut j: usize = 0;
        while j < rows.len() && !str_eq(rows[j].0.as_str(), r.id.as_str())
            invariant
                j <= rows@.len(),
                summary_for(rows@, r.id@, j as int) == summary_for(rows@, r.id@, 0),
            decreases rows.len() - j,
        {
            j = j + 1;
        }
        if j < rows.len() && rows[j].2 == r.last_commit_unix {
            r.ai_summary = Some(rows[j].1.clone());
        }
        out.push(r);
        k = k + 1;
    }
    out
}

} // verus!
