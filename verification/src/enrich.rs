//! Which repos the host-enrichment pass (stars, topics, open issues, latest
//! release, visibility) fetches. The fetches and cache writes are the
//! caller's part.
use vstd::prelude::*;

use crate::ci::{ci_key, contains_key};
use crate::model::{Host, Repo};
use crate::text::str_eq;

verus! {

/// How long a cached host entry stays fresh, in seconds.
pub const TTL_SECS: i64 = 21600;
/// Max concurrent host-API requests in flight during a refresh.
pub const CONCURRENCY: usize = 8;

/// Whether a job for `key` is already in `jobs`.
pub open spec fn has_host_job(jobs: Seq<(Host, Seq<char>, Seq<char>)>, key: (Seq<char>, Seq<char>)) -> bool {
    exists|i: int| 0 <= i < jobs.len() && ((#[trigger] jobs[i]).1, jobs[i].2) == key
}

/// The work list: repos with a recognised host and a slug whose entry is
/// not fresh, one job (host, domain, slug) per (domain, slug), first repo
/// wins; the same slug on two hosts keeps two jobs.
pub open spec fn host_jobs(repos: Seq<Repo>, fresh: Seq<(Seq<char>, Seq<char>)>) -> Seq<(Host, Seq<char>, Seq<char>)>
    decreases repos.len(),
{
    if repos.len() == 0 {
        Seq::empty()
    } else {
        let r = host_jobs(repos.drop_last(), fresh);
        let x = repos.last();
        if x.host is Some && x.slug is Some && !fresh.contains(ci_key(x)) && !has_host_job(r, ci_key(x)) {
            r.push((x.host->0, ci_key(x).0, ci_key(x).1))
        } else {
            r
        }
    }
}

pub open spec fn host_job_views(v: Seq<(Host, String, String)>) -> Seq<(Host, Seq<char>, Seq<char>)> {
    v.map_values(|j: (Host, String, String)| (j.0, j.1@, j.2@))
}

fn has_host_job_exec(jobs: &Vec<(Host, String, String)>, domain: &str, slug: &str) -> (r: bool)
    ensures
        r == has_host_job(host_job_views(jobs@), (domain@, slug@)),
{
    let mut k: usize = 0;
    while k < jobs.len()
        invariant
            k <= jobs@.len(),
            forall|m: int| 0 <= m < k ==> (jobs@[m].1@, jobs@[m].2@) != (domain@, slug@),
        decreases jobs.len() - k,
    {
        if str_eq(jobs[k].1.as_str(), domain) && str_eq(jobs[k].2.as_str(), slug) {
            proof {
                assert(host_job_views(jobs@)[k as int].1 == domain@);
            }
            return true;
        }
        k = k + 1;
    }
    proof {
        if has_host_job(host_job_views(jobs@), (domain@, slug@)) {
            let m = choose|m: int| 0 <= m < host_job_views(jobs@).len() && ((#[trigger] host_job_views(jobs@)[m]).1, host_job_views(jobs@)[m].2) == (domain@, slug@);
            assert((jobs@[m].1@, jobs@[m].2@) == (domain@, slug@));
        }
    }
    false
}

/// Build the enrichment work list (`fresh` holds the keys still within the
/// TTL; empty when forcing).
pub fn build_jobs(repos: &[Repo], fresh: &[(String, String)]) -> (r: Vec<(Host, String, String)>)
    ensures
        host_job_views(r@) == host_jobs(repos@, crate::cache::pair_views(fresh@)),
{
    let ghost fv = crate::cache::pair_views(fresh@);
    let mut jobs: Vec<(Host, String, String)> = Vec::new();
    let mut k: usize = 0;
    proof {
        assert(repos@.take(0) =~= Seq::<Repo>::empty());
        assert(host_job_views(jobs@) =~= Seq::<(Host, Seq<char>, Seq<char>)>::empty());
    }
    while k < repos.len()
        invariant
            k <= repos@.len(),
            fv == crate::cache::pair_views(fresh@),
            host_job_views(jobs@) == host_jobs(repos@.take(k as int), fv),
        decreases repos.len() - k,
    {
        proof {
            assert(repos@.take(k + 1).drop_last() =~= repos@.take(k as int));
            assert(repos@.take(k + 1).last() == repos@[k as int]);
        }
        let r = &repos[k];
        match (r.host, &r.slug) {
            (Some(host), Some(slug)) => {
                let domain = crate::inbox::or_empty_pub(&r.remote_host);
                if !contains_key(fresh, domain.as_str(), slug.as_str()) && !has_host_job_exec(
                    &jobs,
                    domain.as_str(),
                    slug.as_str(),
                ) {
                    let j = (host, domain, slug.clone());
                    proof {
                        assert(host_job_views(jobs@.push(j)) =~= host_job_views(jobs@).push(
                            (j.0, j.1@, j.2@),
                        ));
                    }
                    jobs.push(j);
                }
            },
            _ => {},
        }
        k = k + 1;
    }
    proof {
        assert(repos@.take(repos@.len() as int) =~= repos@);
    }
    jobs
}

} // verus!
