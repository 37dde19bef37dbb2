//! The central CI-status pass: which repos need a fetch, how fetch results
//! fold into cache writes (errors never clobber the last known state), and
//! which cached states become attention facts. Fetching and the cache
//! writes themselves are the caller's part.
use vstd::prelude::*;

use crate::attention::{lex_lt, lex_lt_exec, CiFact};
use crate::cache::CiEntry;
use crate::inbox::{or_empty, CiStatus};
use crate::model::{opt_view, Host, Repo};
use crate::text::str_eq;

verus! {

/// How long a cached CI entry stays fresh, in seconds.
pub const TTL_SECS: i64 = 300;
/// Max concurrent CI requests in flight during a pass.
pub const CONCURRENCY: usize = 8;

/// What one pass did: entries (re)written, fetches that failed without
/// touching the cache, and the most recent failure.
#[derive(Debug, Clone)]
pub struct Outcome {
    pub updated: usize,
    pub errors: usize,
    pub last_error: Option<String>,
}

impl Default for Outcome {
    fn default() -> (r: Self)
        ensures
            r.updated == 0 && r.errors == 0 && r.last_error is None,
    {
        Outcome { updated: 0, errors: 0, last_error: None }
    }
}

impl Outcome {
    /// True when the pass attempted work and none of it landed.
    pub fn all_failed(&self) -> (r: bool)
        ensures
            r == (self.errors > 0 && self.updated == 0),
    {
        self.errors > 0 && self.updated == 0
    }
}

/// A repo's CI-cache key: (remote domain or "", slug).
pub open spec fn ci_key(r: Repo) -> (Seq<char>, Seq<char>) {
    (or_empty(r.remote_host), or_empty(r.slug))
}

/// Whether a job for `key` is already in `jobs`.
pub open spec fn has_job(jobs: Seq<(Seq<char>, Seq<char>, Seq<char>)>, key: (Seq<char>, Seq<char>)) -> bool {
    exists|i: int| 0 <= i < jobs.len() && ((#[trigger] jobs[i]).0, jobs[i].1) == key
}

/// The work list: GitHub-remoted repos with a slug whose entry is not fresh,
/// one job (domain, slug, path) per key, first repo wins.
pub open spec fn ci_jobs(repos: Seq<Repo>, fresh: Seq<(Seq<char>, Seq<char>)>) -> Seq<
    (Seq<char>, Seq<char>, Seq<char>),
>
    decreases repos.len(),
{
    if repos.len() == 0 {
        Seq::empty()
    } else {
        let r = ci_jobs(repos.drop_last(), fresh);
        let x = repos.last();
        if x.host == Some(Host::Github) && x.slug is Some && !fresh.contains(ci_key(x)) && !has_job(
            r,
            ci_key(x),
        ) {
            r.push((ci_key(x).0, ci_key(x).1, x.id@))
        } else {
            r
        }
    }
}

pub open spec fn job_views(v: Seq<(String, String, String)>) -> Seq<(Seq<char>, Seq<char>, Seq<char>)> {
    v.map_values(|j: (String, String, String)| (j.0@, j.1@, j.2@))
}

pub(crate) fn contains_key(keys: &[(String, String)], host: &str, slug: &str) -> (r: bool)
    ensures
        r == crate::cache::pair_views(keys@).contains((host@, slug@)),
{
    let mut k: usize = 0;
    while k < keys.len()
        invariant
            k <= keys@.len(),
            forall|m: int| 0 <= m < k ==> (keys@[m].0@, keys@[m].1@) != (host@, slug@),
        decreases keys.len() - k,
    {
        if str_eq(keys[k].0.as_str(), host) && str_eq(keys[k].1.as_str(), slug) {
            proof {
                assert(crate::cache::pair_views(keys@)[k as int] == (host@, slug@));
            }
            return true;
        }
        k = k + 1;
    }
    proof {
        if crate::cache::pair_views(keys@).contains((host@, slug@)) {
            let m = choose|m: int| 0 <= m < crate::cache::pair_views(keys@).len() && crate::cache::pair_views(keys@)[m] == (host@, slug@);
            assert((keys@[m].0@, keys@[m].1@) == (host@, slug@));
        }
    }
    false
}

pub(crate) fn has_job_exec(jobs: &Vec<(String, String, String)>, host: &str, slug: &str) -> (r: bool)
    ensures
        r == has_job(job_views(jobs@), (host@, slug@)),
{
    let mut k: usize = 0;
    while k < jobs.len()
        invariant
            k <= jobs@.len(),
            forall|m: int| 0 <= m < k ==> (jobs@[m].0@, jobs@[m].1@) != (host@, slug@),
        decreases jobs.len() - k,
    {
        if str_eq(jobs[k].0.as_str(), host) && str_eq(jobs[k].1.as_str(), slug) {
            proof {
                assert(job_views(jobs@)[k as int].0 == host@);
            }
            return true;
        }
        k = k + 1;
    }
    proof {
        if has_job(job_views(jobs@), (host@, slug@)) {
            let m = choose|m: int| 0 <= m < job_views(jobs@).len() && ((#[trigger] job_views(jobs@)[m]).0, job_views(jobs@)[m].1) == (host@, slug@);
            assert((jobs@[m].0@, jobs@[m].1@) == (host@, slug@));
        }
    }
    false
}

/// Build the work list of a pass (`fresh` holds the keys still within the
/// TTL; empty when forcing).
pub fn build_jobs(repos: &[Repo], fresh: &[(String, String)]) -> (r: Vec<(String, String, String)>)
    ensures
        job_views(r@) == ci_jobs(repos@, crate::cache::pair_views(fresh@)),
{
    let ghost fv = crate::cache::pair_views(fresh@);
    let mut jobs: Vec<(String, String, String)> = Vec::new();
    let mut k: usize = 0;
    proof {
        assert(repos@.take(0) =~= Seq::<Repo>::empty());
        assert(job_views(jobs@) =~= Seq::<(Seq<char>, Seq<char>, Seq<char>)>::empty());
    }
    while k < repos.len()
        invariant
            k <= repos@.len(),
            fv == crate::cache::pair_views(fresh@),
            job_views(jobs@) == ci_jobs(repos@.take(k as int), fv),
        decreases repos.len() - k,
    {
        proof {
            assert(repos@.take(k + 1).drop_last() =~= repos@.take(k as int));
            assert(repos@.take(k + 1).last() == repos@[k as int]);
        }
        let r = &repos[k];
        let github = match r.host {
            Some(Host::Github) => true,
            _ => false,
        };
        if github {
            match &r.slug {
                Some(slug) => {
                    let domain = crate::inbox::or_empty_pub(&r.remote_host);
                    if !contains_key(fresh, domain.as_str(), slug.as_str()) && !has_job_exec(
                        &jobs,
                        domain.as_str(),
                        slug.as_str(),
                    ) {
                        let j = (domain, slug.clone(), r.id.clone());
                        proof {
                            assert(job_views(jobs@.push(j)) =~= job_views(jobs@).push(
                                (j.0@, j.1@, j.2@),
                            ));
                        }
                        jobs.push(j);
                    }
                },
                None => {},
            }
        }
        k = k + 1;
    }
    proof {
        assert(repos@.take(repos@.len() as int) =~= repos@);
    }
    jobs
}

/// One fetch result, keyed for the cache write.
pub type FetchResult = Result<(String, String, CiStatus), String>;

/// The cache writes of a pass: the answered fetches (domain, slug, state,
/// url), in order; failures are never written.
pub open spec fn writes_of(results: Seq<FetchResult>) -> Seq<(Seq<char>, Seq<char>, Seq<char>, Option<Seq<char>>)>
    decreases results.len(),
{
    if results.len() == 0 {
        Seq::empty()
    } else {
        let r = writes_of(results.drop_last());
        match results.last() {
            Ok((d, s, st)) => r.push((d@, s@, st.state@, opt_view(st.url))),
            Err(_) => r,
        }
    }
}

/// How many fetches failed.
pub open spec fn errors_of(results: Seq<FetchResult>) -> nat
    decreases results.len(),
{
    if results.len() == 0 {
        0
    } else {
        errors_of(results.drop_last()) + match results.last() {
            Ok(_) => 0nat,
            Err(_) => 1nat,
        }
    }
}

/// The most recent failure.
pub open spec fn last_error_of(results: Seq<FetchResult>) -> Option<Seq<char>>
    decreases results.len(),
{
    if results.len() == 0 {
        None
    } else {
        match results.last() {
            Err(e) => Some(e@),
            Ok(_) => last_error_of(results.drop_last()),
        }
    }
}

pub open spec fn write_views(v: Seq<(String, String, CiStatus)>) -> Seq<(Seq<char>, Seq<char>, Seq<char>, Option<Seq<char>>)> {
    v.map_values(|w: (String, String, CiStatus)| (w.0@, w.1@, w.2.state@, opt_view(w.2.url)))
}

proof fn lemma_counts(results: Seq<FetchResult>)
    ensures
        writes_of(results).len() + errors_of(results) == results.len(),
    decreases results.len(),
{
    if results.len() > 0 {
        lemma_counts(results.drop_last());
    }
}

/// Fold fetch results into the cache writes to make and the pass outcome:
/// answered fetches are written, failures only counted, so a failing pass
/// keeps the last known state.
pub fn apply_results(results: Vec<FetchResult>) -> (r: (Outcome, Vec<(String, String, CiStatus)>))
    ensures
        write_views(r.1@) == writes_of(results@),
        r.0.updated == writes_of(results@).len(),
        r.0.errors == errors_of(results@),
        opt_view(r.0.last_error) == last_error_of(results@),
{
    let ghost all = results@;
    let mut rest = results;
    let mut outcome = Outcome::default();
    let mut writes: Vec<(String, String, CiStatus)> = Vec::new();
    let n = rest.len();
    let mut k: usize = 0;
    proof {
        assert(all.take(0) =~= Seq::<FetchResult>::empty());
        assert(write_views(writes@) =~= Seq::<(Seq<char>, Seq<char>, Seq<char>, Option<Seq<char>>)>::empty());
        assert(rest@.skip(0) =~= all);
    }
    while k < n
        invariant
            n == all.len(),
            k <= n,
            rest@ == all.skip(k as int),
            write_views(writes@) == writes_of(all.take(k as int)),
            outcome.updated == writes@.len(),
            outcome.errors == errors_of(all.take(k as int)),
            opt_view(outcome.last_error) == last_error_of(all.take(k as int)),
            outcome.updated + outcome.errors == k,
        decreases n - k,
    {
        proof {
            assert(all.take(k + 1).drop_last() =~= all.take(k as int));
            assert(all.take(k + 1).last() == all[k as int]);
            lemma_counts(all.take(k as int));
        }
        let x = rest.remove(0);
        proof {
            assert(x == all[k as int]);
            assert(rest@ =~= all.skip(k + 1));
        }
        match x {
            Ok(w) => {
                proof {
                    assert(write_views(writes@.push(w)) =~= write_views(writes@).push(
                        (w.0@, w.1@, w.2.state@, opt_view(w.2.url)),
                    ));
                }
                writes.push(w);
                outcome.updated = outcome.updated + 1;
            },
            Err(e) => {
                outcome.errors = outcome.errors + 1;
                outcome.last_error = Some(e);
            },
        }
        k = k + 1;
    }
    proof {
        assert(all.take(n as int) =~= all);
    }
    (outcome, writes)
}

/// (host, slug) orders lexicographically, host first.
pub open spec fn key_before(a: (Seq<char>, Seq<char>), b: (Seq<char>, Seq<char>)) -> bool {
    lex_lt(a.0, b.0) || (a.0 == b.0 && lex_lt(a.1, b.1))
}

/// (host, slug, state, url) of a fact.
pub open spec fn fact_view(f: CiFact) -> (Seq<char>, Seq<char>, Seq<char>, Option<Seq<char>>) {
    (f.remote_host@, f.slug@, f.state@, opt_view(f.url))
}

/// Whether some repo of the fleet has the remote (host, slug).
pub open spec fn present(repos: Seq<Repo>, key: (Seq<char>, Seq<char>)) -> bool {
    exists|i: int| 0 <= i < repos.len() && (#[trigger] repos[i]).slug is Some && ci_key(repos[i]) == key
}

/// The facts of the cached states whose remote is in the fleet, in state order.
pub open spec fn present_facts(states: Seq<((String, String), CiEntry)>, repos: Seq<Repo>) -> Seq<
    (Seq<char>, Seq<char>, Seq<char>, Option<Seq<char>>),
>
    decreases states.len(),
{
    if states.len() == 0 {
        Seq::empty()
    } else {
        let r = present_facts(states.drop_last(), repos);
        let x = states.last();
        if present(repos, (x.0.0@, x.0.1@)) {
            r.push((x.0.0@, x.0.1@, x.1.state@, opt_view(x.1.url)))
        } else {
            r
        }
    }
}

/// Where a fact goes in a (host, slug)-sorted list: before the first one
/// (at or after `j`) whose key is greater (stable on equal keys).
pub open spec fn fact_pos(s: Seq<(Seq<char>, Seq<char>, Seq<char>, Option<Seq<char>>)>, k: (Seq<char>, Seq<char>), j: int) -> int
    decreases s.len() - j,
{
    if j < 0 || j >= s.len() {
        s.len() as int
    } else if key_before(k, (s[j].0, s[j].1)) {
        j
    } else {
        fact_pos(s, k, j + 1)
    }
}

/// Facts sorted by (host, slug).
pub open spec fn sorted_facts(v: Seq<(Seq<char>, Seq<char>, Seq<char>, Option<Seq<char>>)>) -> Seq<
    (Seq<char>, Seq<char>, Seq<char>, Option<Seq<char>>),
>
    decreases v.len(),
{
    if v.len() == 0 {
        Seq::empty()
    } else {
        let r = sorted_facts(v.drop_last());
        r.insert(fact_pos(r, (v.last().0, v.last().1), 0), v.last())
    }
}

proof fn lemma_fact_pos(s: Seq<(Seq<char>, Seq<char>, Seq<char>, Option<Seq<char>>)>, k: (Seq<char>, Seq<char>), j: int)
    requires
        0 <= j <= s.len(),
    ensures
        j <= fact_pos(s, k, j) <= s.len(),
    decreases s.len() - j,
{
    if j < s.len() && !key_before(k, (s[j].0, s[j].1)) {
        lemma_fact_pos(s, k, j + 1);
    }
}

fn present_exec(repos: &[Repo], host: &str, slug: &str) -> (r: bool)
    ensures
        r == present(repos@, (host@, slug@)),
{
    let mut k: usize = 0;
    while k < repos.len()
        invariant
            k <= repos@.len(),
            forall|m: int| 0 <= m < k ==> !((#[trigger] repos@[m]).slug is Some && ci_key(repos@[m]) == (host@, slug@)),
        decreases repos.len() - k,
    {
        let r = &repos[k];
        match &r.slug {
            Some(s) => {
                let d = crate::inbox::or_empty_pub(&r.remote_host);
                if str_eq(d.as_str(), host) && str_eq(s.as_str(), slug) {
                    return true;
                }
            },
            None => {},
        }
        k = k + 1;
    }
    false
}

fn key_before_exec(a0: &str, a1: &str, b0: &str, b1: &str) -> (r: bool)
    ensures
        r == key_before((a0@, a1@), (b0@, b1@)),
{
    let x0 = crate::text::chars_of(a0);
    let y0 = crate::text::chars_of(b0);
    lex_lt_exec(&x0, &y0) || (crate::text::chars_eq(&x0, &y0) && lex_lt_exec(
        &crate::text::chars_of(a1),
        &crate::text::chars_of(b1),
    ))
}

pub open spec fn fact_views(v: Seq<CiFact>) -> Seq<(Seq<char>, Seq<char>, Seq<char>, Option<Seq<char>>)> {
    v.map_values(|f: CiFact| fact_view(f))
}

/// The attention model's CI facts from the cached states `((host, slug),
/// entry)`, restricted to remotes present in the fleet (a cached row for a
/// repo deleted locally must not keep raising attention), sorted by
/// (host, slug) so the input order never matters.
pub fn facts(states: &[((String, String), CiEntry)], repos: &[Repo]) -> (r: Vec<CiFact>)
    ensures
        fact_views(r@) == sorted_facts(present_facts(states@, repos@)),
{
    let ghost pf = present_facts(states@, repos@);
    let mut out: Vec<CiFact> = Vec::new();
    let mut k: usize = 0;
    proof {
        assert(states@.take(0) =~= Seq::<((String, String), CiEntry)>::empty());
        assert(fact_views(out@) =~= Seq::<(Seq<char>, Seq<char>, Seq<char>, Option<Seq<char>>)>::empty());
    }
    while k < states.len()
        invariant
            k <= states@.len(),
            fact_views(out@) == sorted_facts(present_facts(states@.take(k as int), repos@)),
        decreases states.len() - k,
    {
        proof {
            assert(states@.take(k + 1).drop_last() =~= states@.take(k as int));
            assert(states@.take(k + 1).last() == states@[k as int]);
        }
        let st = &states[k];
        let ghost pk = present_facts(states@.take(k as int), repos@);
        if present_exec(repos, st.0.0.as_str(), st.0.1.as_str()) {
            let f = CiFact {
                remote_host: st.0.0.clone(),
                slug: st.0.1.clone(),
                state: st.1.state.clone(),
                url: crate::model::clone_opt(&st.1.url),
            };
            let ghost sv = fact_views(out@);
            let mut p: usize = 0;
            while p < out.len() && !key_before_exec(
                f.remote_host.as_str(),
                f.slug.as_str(),
                out[p].remote_host.as_str(),
                out[p].slug.as_str(),
            )
                invariant
                    p <= out@.len(),
                    sv == fact_views(out@),
                    fact_pos(sv, (f.remote_host@, f.slug@), p as int) == fact_pos(
                        sv,
                        (f.remote_host@, f.slug@),
                        0,
                    ),
                decreases out.len() - p,
            {
                p = p + 1;
            }
            proof {
                lemma_fact_pos(sv, (f.remote_host@, f.slug@), 0);
            }
            out.insert(p, f);
            proof {
                assert(fact_views(out@) =~= sv.insert(p as int, fact_view(f)));
                let x = fact_view(f);
                assert(present_facts(states@.take(k + 1), repos@) == pk.push(x));
                assert(pk.push(x).drop_last() =~= pk);
                assert(pk.push(x).last() == x);
            }
        }
        k = k + 1;
    }
    proof {
        assert(states@.take(states@.len() as int) =~= states@);
    }
    out
}

} // verus!
