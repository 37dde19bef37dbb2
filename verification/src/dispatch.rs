//! Agent dispatch naming: branch/worktree names for "dispatch an agent on a
//! fresh worktree", and the lifecycle classification of a dispatched session.
use vstd::prelude::*;

use crate::scan::joined;
use crate::text::{after_last, after_last_chars, chars_of, lower_ascii_char, push_all, push_str,
    string_from, to_ascii_lower, trim_end_char, trim_end_char_chars};

verus! {

/// Longest slug kept from a prompt.
pub const MAX_SLUG: usize = 28;

/// The generated names for one worktree dispatch.
#[derive(Debug, Clone)]
pub struct DispatchNames {
    /// Branch the agent works on: `agent/<slug>-<rand>`.
    pub branch: String,
    /// git worktree name (also the leaf directory name): `agent-<slug>-<rand>`.
    pub worktree: String,
}

/// An ASCII letter or digit.
pub open spec fn is_ascii_alnum(c: char) -> bool {
    ('a' <= c && c <= 'z') || ('A' <= c && c <= 'Z') || ('0' <= c && c <= '9')
}

/// Scan `s` into kebab-case: alphanumerics lowercased, each run of other
/// characters one dash (none right after a dash or at the start), stopping
/// once the slug holds `MAX_SLUG` characters.
pub open spec fn slug_scan(s: Seq<char>, acc: Seq<char>, last_dash: bool) -> Seq<char>
    decreases s.len(),
{
    if s.len() == 0 || acc.len() >= MAX_SLUG {
        acc
    } else if is_ascii_alnum(s[0]) {
        slug_scan(s.drop_first(), acc.push(lower_ascii_char(s[0])), false)
    } else if !last_dash {
        slug_scan(s.drop_first(), acc.push('-'), true)
    } else {
        slug_scan(s.drop_first(), acc, true)
    }
}

/// The slug of a prompt: the scan without trailing dashes, or "task" when
/// nothing usable is left.
pub open spec fn slug_of(prompt: Seq<char>) -> Seq<char> {
    let t = trim_end_char(slug_scan(prompt, Seq::empty(), true), '-');
    if t.len() == 0 {
        "task"@
    } else {
        t
    }
}

/// A slug character: lowercase ASCII letter, digit or dash.
pub open spec fn slug_char(c: char) -> bool {
    ('a' <= c && c <= 'z') || ('0' <= c && c <= '9') || c == '-'
}

proof fn lemma_slug_scan(s: Seq<char>, acc: Seq<char>, last_dash: bool)
    requires
        acc.len() <= MAX_SLUG,
        forall|k: int| 0 <= k < acc.len() ==> slug_char(#[trigger] acc[k]),
        acc.len() == 0 ==> last_dash,
        acc.len() > 0 ==> (last_dash == (acc.last() == '-')),
        acc.len() > 0 ==> acc[0] != '-',
    ensures
        slug_scan(s, acc, last_dash).len() <= MAX_SLUG,
        forall|k: int|
            0 <= k < slug_scan(s, acc, last_dash).len() ==> slug_char(
                #[trigger] slug_scan(s, acc, last_dash)[k],
            ),
        slug_scan(s, acc, last_dash).len() > 0 ==> slug_scan(s, acc, last_dash)[0] != '-',
        acc.len() > 0 ==> slug_scan(s, acc, last_dash)[0] == acc[0],
    decreases s.len(),
{
    if s.len() == 0 || acc.len() >= MAX_SLUG {
    } else if is_ascii_alnum(s[0]) {
        let c = s[0];
        assert(slug_char(lower_ascii_char(c)));
        lemma_slug_scan(s.drop_first(), acc.push(lower_ascii_char(c)), false);
    } else if !last_dash {
        lemma_slug_scan(s.drop_first(), acc.push('-'), true);
    } else {
        lemma_slug_scan(s.drop_first(), acc, true);
    }
}

proof fn lemma_trim_end_char_prefix(s: Seq<char>, c: char)
    ensures
        trim_end_char(s, c) == s.take(trim_end_char(s, c).len() as int),
        trim_end_char(s, c).len() <= s.len(),
        trim_end_char(s, c).len() > 0 ==> trim_end_char(s, c).last() != c,
    decreases s.len(),
{
    if s.len() > 0 && s.last() == c {
        lemma_trim_end_char_prefix(s.drop_last(), c);
        assert(s.drop_last().take(trim_end_char(s, c).len() as int) =~= s.take(
            trim_end_char(s, c).len() as int,
        ));
    } else {
        assert(s.take(s.len() as int) =~= s);
    }
}

/// Kebab-case slug of a task prompt, capped to `MAX_SLUG` chars.
/// Empty/symbolic prompts fall back to `"task"` so the names stay valid refs.
pub fn slugify(prompt: &str) -> (r: String)
    ensures
        r@ == slug_of(prompt@),
        0 < r@.len() <= MAX_SLUG,
        forall|k: int| 0 <= k < r@.len() ==> slug_char(#[trigger] r@[k]),
        r@[0] != '-' && r@.last() != '-',
{
    let p = chars_of(prompt);
    let mut slug: Vec<char> = Vec::new();
    let mut last_dash = true;
    let mut k: usize = 0;
    proof {
        assert(p@.skip(0) =~= p@);
    }
    while k < p.len() && slug.len() < MAX_SLUG
        invariant
            k <= p@.len(),
            slug_scan(p@.skip(k as int), slug@, last_dash) == slug_scan(p@, Seq::empty(), true),
        decreases p.len() - k,
    {
        proof {
            assert(p@.skip(k as int).drop_first() =~= p@.skip(k + 1));
            assert(p@.skip(k as int)[0] == p@[k as int]);
        }
        let c = p[k];
        if ('a' <= c && c <= 'z') || ('A' <= c && c <= 'Z') || ('0' <= c && c <= '9') {
            slug.push(to_ascii_lower(c));
            last_dash = false;
        } else if !last_dash {
            slug.push('-');
            last_dash = true;
        }
        k = k + 1;
    }
    proof {
        if k == p@.len() {
            assert(p@.skip(k as int).len() == 0);
        }
        assert(slug_scan(p@.skip(k as int), slug@, last_dash) == slug@);
        lemma_slug_scan(p@, Seq::empty(), true);
        lemma_trim_end_char_prefix(slug@, '-');
    }
    let t = trim_end_char_chars(&slug, '-');
    if t.len() == 0 {
        proof {
            reveal_strlit("task");
        }
        string_from(&chars_of("task"))
    } else {
        proof {
            assert forall|j: int| 0 <= j < t@.len() implies slug_char(#[trigger] t@[j]) by {
                assert(t@[j] == slug@[j]);
            }
            assert(t@[0] == slug@[0]);
        }
        string_from(&t)
    }
}

/// Generate the branch + worktree names for dispatching `prompt`, with the
/// caller's uniqueness suffix `rand` (a few hex characters, so two dispatches
/// of the same prompt stay apart).
pub fn names(prompt: &str, rand: &str) -> (r: DispatchNames)
    ensures
        r.branch@ == "agent/"@ + slug_of(prompt@) + "-"@ + rand@,
        r.worktree@ == "agent-"@ + slug_of(prompt@) + "-"@ + rand@,
{
    let slug = slugify(prompt);
    let mut b: Vec<char> = Vec::new();
    push_str(&mut b, "agent/");
    push_str(&mut b, slug.as_str());
    push_str(&mut b, "-");
    push_str(&mut b, rand);
    let mut w: Vec<char> = Vec::new();
    push_str(&mut w, "agent-");
    push_str(&mut w, slug.as_str());
    push_str(&mut w, "-");
    push_str(&mut w, rand);
    DispatchNames { branch: string_from(&b), worktree: string_from(&w) }
}

/// What one agents-poll observation means for a dispatched worktree.
#[derive(Debug, Clone, Copy, PartialEq, Eq, Structural)]
pub enum SessionTransition {
    /// Nothing to record.
    NoChange,
    /// A session is alive — record the sighting.
    SeenAlive,
    /// A session is alive again in a worktree already marked finished.
    Resumed,
    /// A session that was observed alive is now gone — the finish event.
    Finished,
}

/// The lifecycle meaning of one observation.
pub open spec fn transition(alive: bool, last_seen_alive: int, finished_at: int) -> SessionTransition {
    if alive && finished_at > 0 {
        SessionTransition::Resumed
    } else if alive {
        SessionTransition::SeenAlive
    } else if last_seen_alive > 0 && finished_at <= 0 {
        SessionTransition::Finished
    } else {
        SessionTransition::NoChange
    }
}

/// Classify one poll observation: `alive` is whether an agent process runs in
/// the worktree; the other two are the persisted sighting/finish times.
pub fn session_transition(alive: bool, last_seen_alive: i64, finished_at: i64) -> (r:
    SessionTransition)
    ensures
        r == transition(alive, last_seen_alive as int, finished_at as int),
{
    if alive {
        if finished_at > 0 {
            SessionTransition::Resumed
        } else {
            SessionTransition::SeenAlive
        }
    } else if last_seen_alive > 0 && finished_at <= 0 {
        SessionTransition::Finished
    } else {
        SessionTransition::NoChange
    }
}

/// Law of the session lifecycle: the finish event fires at most once (once a
/// finish time is recorded, a dead session is never "finished" again), and a
/// session never observed alive never looks finished.
pub proof fn law_finish_fires_once(last_seen_alive: int, finished_at: int)
    ensures
        finished_at > 0 ==> transition(false, last_seen_alive, finished_at)
            != SessionTransition::Finished,
        last_seen_alive <= 0 ==> transition(false, last_seen_alive, finished_at)
            == SessionTransition::NoChange,
        last_seen_alive > 0 && finished_at <= 0 ==> transition(false, last_seen_alive, finished_at)
            == SessionTransition::Finished,
{
}

/// The directory name of a dispatched worktree: the repo's basename, a dash,
/// and the worktree name.
pub open spec fn dest_name(repo_id: Seq<char>, worktree_name: Seq<char>) -> Seq<char> {
    after_last(trim_end_char(repo_id, '/'), '/') + "-"@ + worktree_name
}

/// Where a dispatched worktree goes under the app data directory `data`:
/// `<data>/worktrees/<repo-basename>-<worktree-name>`.
pub fn worktree_dest_under(data: &str, repo_id: &str, worktree_name: &str) -> (r: String)
    ensures
        r@ == joined(joined(data@, "worktrees"@), dest_name(repo_id@, worktree_name@)),
{
    let base = after_last_chars(&trim_end_char_chars(&chars_of(repo_id), '/'), '/');
    let mut name = base;
    push_str(&mut name, "-");
    push_str(&mut name, worktree_name);
    let dir = crate::paths::join_path(data, "worktrees");
    crate::paths::join_path(dir.as_str(), string_from(&name).as_str())
}

/// Destination directory for a dispatched worktree under the app data
/// directory; `None` only when the platform has no data directory.
pub fn worktree_dest(repo_id: &str, worktree_name: &str) -> (r: Option<String>)
    ensures
        r matches Some(d) ==> exists|b: Seq<char>|
            d@ == joined(joined(b, "worktrees"@), dest_name(repo_id@, worktree_name@)),
{
    match crate::paths::data_dir() {
        Some(d) => Some(worktree_dest_under(d.as_str(), repo_id, worktree_name)),
        None => None,
    }
}


/// The lowercase hex digit of `d < 16`.
pub open spec fn hex_lower(d: int) -> char {
    if d < 10 {
        (48 + d) as char
    } else {
        (87 + d) as char
    }
}

/// The random suffix of dispatch names made from a hash value: the four
/// lowercase hex digits of its low 16 bits.
pub open spec fn rand_suffix_of(h: u64) -> Seq<char> {
    let v = (h & 0xffff) as int;
    seq![hex_lower(v / 4096), hex_lower((v / 256) % 16), hex_lower((v / 16) % 16), hex_lower(v % 16)]
}

fn hex_lower_exec(d: u64) -> (c: char)
    requires
        d < 16,
    ensures
        c == hex_lower(d as int),
{
    if d < 10 {
        ((48 + d) as u8) as char
    } else {
        ((87 + d) as u8) as char
    }
}

/// The random suffix of a dispatch's branch and worktree names: the low 16
/// bits of `h` as four lowercase hex digits.
pub fn rand_suffix(h: u64) -> (r: String)
    ensures
        r@ == rand_suffix_of(h),
        r@.len() == 4,
        forall|k: int| 0 <= k < 4 ==> slug_char(#[trigger] r@[k]) && r@[k] != '-',
{
    let v: u64 = h & 0xffff;
    assert(v <= 0xffff) by (bit_vector)
        requires
            v == h & 0xffff,
    ;
    let mut out: Vec<char> = Vec::new();
    out.push(hex_lower_exec(v / 4096));
    out.push(hex_lower_exec((v / 256) % 16));
    out.push(hex_lower_exec((v / 16) % 16));
    out.push(hex_lower_exec(v % 16));
    proof {
        assert(out@ =~= rand_suffix_of(h));
    }
    string_from(&out)
}

proof fn lemma_slug_of_chars(prompt: Seq<char>)
    ensures
        forall|k: int| 0 <= k < slug_of(prompt).len() ==> slug_char(#[trigger] slug_of(prompt)[k]),
{
    lemma_slug_scan(prompt, Seq::empty(), true);
    let s = slug_scan(prompt, Seq::empty(), true);
    lemma_trim_end_char_prefix(s, '-');
    let t = trim_end_char(s, '-');
    if t.len() == 0 {
        reveal_strlit("task");
    } else {
        assert forall|k: int| 0 <= k < t.len() implies slug_char(#[trigger] t[k]) by {
            assert(t[k] == s[k]);
        }
    }
}

/// A dispatched worktree's name is flat: `agent-<slug>-<suffix>` made of
/// lowercase letters, digits and `-` only (so never a `/`), with a four
/// hex-digit suffix.
pub proof fn law_worktree_name_is_flat(prompt: Seq<char>, h: u64)
    ensures
        forall|k: int|
            0 <= k < ("agent-"@ + slug_of(prompt) + "-"@ + rand_suffix_of(h)).len() ==> slug_char(
                #[trigger] ("agent-"@ + slug_of(prompt) + "-"@ + rand_suffix_of(h))[k],
            ),
        !("agent-"@ + slug_of(prompt) + "-"@ + rand_suffix_of(h)).contains('/'),
        rand_suffix_of(h).len() == 4,
{
    reveal_strlit("agent-");
    reveal_strlit("-");
    lemma_slug_of_chars(prompt);
    assert(h & 0xffff <= 0xffff) by (bit_vector);
    let w = "agent-"@ + slug_of(prompt) + "-"@ + rand_suffix_of(h);
    let sl = slug_of(prompt);
    assert forall|k: int| 0 <= k < w.len() implies slug_char(#[trigger] w[k]) by {
        if k < 6 {
            assert(w[k] == "agent-"@[k]);
        } else if k < 6 + sl.len() {
            assert(w[k] == sl[k - 6]);
        } else if k == 6 + sl.len() {
            assert(w[k] == '-');
        } else {
            assert(w[k] == rand_suffix_of(h)[k - 7 - sl.len()]);
        }
    }
    assert(!w.contains('/')) by {
        if w.contains('/') {
            let k = choose|k: int| 0 <= k < w.len() && w[k] == '/';
            assert(slug_char(w[k]));
        }
    }
}

} // verus!
