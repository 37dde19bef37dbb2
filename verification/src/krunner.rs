//! KRunner search over the cached repos: which repos match a query, the text
//! each match shows, and which match ids may be acted on. The D-Bus service
//! is the caller's part.
use vstd::prelude::*;

use crate::model::Repo;
use crate::text::{
    chars_of, contains, contains_chars, lowercase, push_str, str_eq, string_from, to_lowercase,
    trim, trim_chars, utf8_len,
};

verus! {

/// Most matches returned for one query.
pub const MAX_MATCHES: usize = 10;

/// A repo matches when its name, slug or path contains the (lower-cased)
/// query, case-insensitively.
pub open spec fn repo_matches(r: Repo, q: Seq<char>) -> bool {
    contains(lowercase(r.display_name@), q) || contains(
        lowercase(crate::ai::or_text(r.slug, Seq::empty())),
        q,
    ) || contains(lowercase(r.path@), q)
}

/// The text a match shows: name, then slug (or path).
pub open spec fn match_text(r: Repo) -> Seq<char> {
    r.display_name@ + "  —  "@ + match r.slug {
        Some(s) => s@,
        None => r.path@,
    }
}

/// (id, text) of the first `MAX_MATCHES` repos (from `i`) matching `q`.
pub open spec fn matches_from(repos: Seq<Repo>, q: Seq<char>, i: int, room: nat) -> Seq<
    (Seq<char>, Seq<char>),
>
    decreases repos.len() - i,
{
    if i < 0 || i >= repos.len() || room == 0 {
        Seq::empty()
    } else if repo_matches(repos[i], q) {
        seq![(repos[i].id@, match_text(repos[i]))] + matches_from(repos, q, i + 1, (room - 1) as nat)
    } else {
        matches_from(repos, q, i + 1, room)
    }
}

/// The matches for a query: none for a query shorter than two bytes once
/// trimmed and lower-cased.
pub open spec fn query_matches(query: Seq<char>, repos: Seq<Repo>) -> Seq<(Seq<char>, Seq<char>)> {
    let q = lowercase(trim(query));
    if utf8_len(q) < 2 {
        Seq::empty()
    } else {
        matches_from(repos, q, 0, MAX_MATCHES as nat)
    }
}

fn utf8_at_least_two(s: &[char]) -> (r: bool)
    ensures
        r == (utf8_len(s@) >= 2),
{
    if s.len() >= 2 {
        proof {
            crate::text::lemma_utf8_len_mono(s@, 2);
            let t2 = s@.take(2);
            assert(t2.drop_last() =~= s@.take(1));
            assert(s@.take(1).drop_last() =~= Seq::<char>::empty());
            assert(utf8_len(s@.take(1)) >= 1) by {
                reveal_with_fuel(utf8_len, 2);
            }
            assert(utf8_len(t2) >= 2) by {
                reveal_with_fuel(utf8_len, 2);
            }
        }
        return true;
    }
    if s.len() == 0 {
        return false;
    }
    proof {
        assert(s@.drop_last() =~= Seq::<char>::empty());
        assert(s@.last() == s@[0]);
        reveal_with_fuel(utf8_len, 2);
    }
    (s[0] as u32) >= 0x80
}

fn repo_matches_exec(r: &Repo, q: &[char]) -> (b: bool)
    ensures
        b == repo_matches(*r, q@),
{
    let slug: Vec<char> = match &r.slug {
        Some(s) => chars_of(s.as_str()),
        None => Vec::new(),
    };
    proof {
        assert(slug@ == crate::ai::or_text(r.slug, Seq::empty()));
    }
    contains_chars(&to_lowercase(&chars_of(r.display_name.as_str())), q) || contains_chars(
        &to_lowercase(&slug),
        q,
    ) || contains_chars(&to_lowercase(&chars_of(r.path.as_str())), q)
}

/// KRunner matches for a query as (repo id, display text).
pub fn krunner_matches(query: &str, repos: &[Repo]) -> (r: Vec<(String, String)>)
    ensures
        r@.map_values(|p: (String, String)| (p.0@, p.1@)) == query_matches(query@, repos@),
{
    let q = to_lowercase(&trim_chars(&chars_of(query)));
    let mut out: Vec<(String, String)> = Vec::new();
    if !utf8_at_least_two(&q) {
        proof {
            assert(out@.map_values(|p: (String, String)| (p.0@, p.1@)) =~= Seq::<
                (Seq<char>, Seq<char>),
            >::empty());
        }
        return out;
    }
    let mut k: usize = 0;
    proof {
        assert(out@.map_values(|p: (String, String)| (p.0@, p.1@)) + matches_from(
            repos@,
            q@,
            0,
            MAX_MATCHES as nat,
        ) =~= matches_from(repos@, q@, 0, MAX_MATCHES as nat));
    }
    while k < repos.len() && out.len() < MAX_MATCHES
        invariant
            k <= repos@.len(),
            out@.len() <= MAX_MATCHES,
            out@.map_values(|p: (String, String)| (p.0@, p.1@)) + matches_from(
                repos@,
                q@,
                k as int,
                (MAX_MATCHES - out@.len()) as nat,
            ) == matches_from(repos@, q@, 0, MAX_MATCHES as nat),
        decreases repos.len() - k,
    {
        let r = &repos[k];
        if repo_matches_exec(r, &q) {
            let mut text = chars_of(r.display_name.as_str());
            push_str(&mut text, "  —  ");
            match &r.slug {
                Some(s) => push_str(&mut text, s.as_str()),
                None => push_str(&mut text, r.path.as_str()),
            }
            let entry = (r.id.clone(), string_from(&text));
            let ghost before = out@.map_values(|p: (String, String)| (p.0@, p.1@));
            out.push(entry);
            proof {
                assert(out@.map_values(|p: (String, String)| (p.0@, p.1@)) =~= before.push(
                    (entry.0@, entry.1@),
                ));
            }
        }
        k = k + 1;
    }
    proof {
        if k < repos@.len() {
            assert(matches_from(repos@, q@, k as int, 0) =~= Seq::<(Seq<char>, Seq<char>)>::empty());
        }
        assert(out@.map_values(|p: (String, String)| (p.0@, p.1@)) + Seq::<
            (Seq<char>, Seq<char>),
        >::empty() =~= out@.map_values(|p: (String, String)| (p.0@, p.1@)));
    }
    out
}

/// Whether a KRunner match id names a known repo (the bus is
/// unauthenticated, so only ids this service produced are acted on).
pub fn is_known_repo(match_id: &str, repos: &[Repo]) -> (r: bool)
    ensures
        r == exists|i: int| 0 <= i < repos@.len() && repos@[i].id@ == match_id@,
{
    let mut k: usize = 0;
    while k < repos.len()
        invariant
            k <= repos@.len(),
            forall|m: int| 0 <= m < k ==> repos@[m].id@ != match_id@,
        decreases repos.len() - k,
    {
        if str_eq(repos[k].id.as_str(), match_id) {
            return true;
        }
        k = k + 1;
    }
    false
}

} // verus!
