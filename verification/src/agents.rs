//! Terminal coding-agent sessions: which processes count as agent sessions
//! (a known agent CLI running inside a scanned repo), when they started, and
//! the order they are listed in. Reading `/proc` is the caller's part.
use vstd::prelude::*;

use crate::text::{
    after_last, after_last_chars, char_pos, chars_of, from_utf8_lossy, lines, lines_of,
    parse_i64, parse_i64_chars, rfind, rfind_chars, slice_of, split, split_chars, starts_with,
    starts_with_str, str_eq, str_views, string_from, strip_prefix, strip_prefix_str, trim,
    trim_chars, utf8_lossy, views, words, words_of, join,
};

verus! {

/// A detected agent process.
#[derive(Debug, Clone)]
pub struct RunningAgent {
    pub pid: u32,
    /// The repo path whose tree the process is running in.
    pub repo: String,
    /// The full command line.
    pub command: String,
    /// Unix start time of the process.
    pub started_unix: i64,
}

/// Last path segment of `s` (the program basename).
pub fn basename(s: &str) -> (r: String)
    ensures
        r@ == after_last(s@, '/'),
{
    string_from(&after_last_chars(&chars_of(s), '/'))
}

/// The `starttime` field (clock ticks since boot, field 22) of a
/// `/proc/<pid>/stat` line: the 20th whitespace-separated field after the last
/// `)` (the command name may itself hold spaces and parentheses).
pub open spec fn starttime_of(stat: Seq<char>) -> Option<int> {
    match rfind(stat, seq![')']) {
        None => None,
        Some(i) => {
            let ws = words(stat.skip(i + 1));
            if ws.len() > 19 {
                parse_i64(ws[19])
            } else {
                None
            }
        },
    }
}

pub fn starttime_ticks(stat: &str) -> (r: Option<i64>)
    ensures
        match r {
            Some(t) => starttime_of(stat@) == Some(t as int),
            None => starttime_of(stat@) is None,
        },
{
    let s = chars_of(stat);
    let mut p: Vec<char> = Vec::new();
    p.push(')');
    proof {
        assert(p@ =~= seq![')']);
    }
    let i = match rfind_chars(&s, &p) {
        None => return None,
        Some(i) => i,
    };
    proof {
        crate::text::lemma_rfind(s@, p@);
        assert(crate::text::occurs_at(s@, p@, i as int));
    }
    let sl = s.len();
    assert(i + 1 <= sl);
    let rest = slice_of(&s, i + 1, sl);
    proof {
        assert(rest@ =~= s@.skip(i + 1));
    }
    let ws = words_of(&rest);
    if ws.len() > 19 {
        proof {
            assert(views(ws@)[19] == ws@[19]@);
        }
        parse_i64_chars(&ws[19])
    } else {
        None
    }
}

/// The first `btime N` value of `/proc/stat` text (boot time), else 0.
pub open spec fn btime_from(ls: Seq<Seq<char>>, i: int) -> int
    decreases ls.len() - i,
{
    if i < 0 || i >= ls.len() {
        0
    } else {
        match strip_prefix(ls[i], "btime "@) {
            Some(n) => match parse_i64(trim(n)) {
                Some(v) => v,
                None => btime_from(ls, i + 1),
            },
            None => btime_from(ls, i + 1),
        }
    }
}

/// Boot time in unix seconds, from the `btime` line of `/proc/stat` text.
pub fn boot_time(stat: &str) -> (r: i64)
    ensures
        r == btime_from(lines(stat@), 0),
{
    let ls = lines_of(&chars_of(stat));
    let ghost lv = views(ls@);
    let mut k: usize = 0;
    while k < ls.len()
        invariant
            k <= ls@.len(),
            lv == views(ls@),
            lv == lines(stat@),
            btime_from(lv, k as int) == btime_from(lv, 0),
        decreases ls.len() - k,
    {
        proof {
            assert(lv[k as int] == ls@[k as int]@);
        }
        match strip_prefix_str(&ls[k], "btime ") {
            Some(n) => match parse_i64_chars(&trim_chars(&n)) {
                Some(v) => {
                    proof {
                        assert(strip_prefix(lv[k as int], "btime "@) == Some(n@));
                        assert(btime_from(lv, k as int) == v as int);
                    }
                    return v;
                },
                None => {},
            },
            None => {},
        }
        k = k + 1;
    }
    0
}

/// The `/`-separated parts of `s` that name a directory: no empty parts and
/// no `.`.
pub open spec fn normal_parts(segs: Seq<Seq<char>>) -> Seq<Seq<char>>
    decreases segs.len(),
{
    if segs.len() == 0 {
        Seq::empty()
    } else if segs.last().len() == 0 || segs.last() == seq!['.'] {
        normal_parts(segs.drop_last())
    } else {
        normal_parts(segs.drop_last()).push(segs.last())
    }
}

/// A path's components as `std::path::Path::components` yields them on Unix:
/// the root (`/`), a leading `.` of a relative path, then the named parts.
pub open spec fn components(p: Seq<char>) -> Seq<Seq<char>> {
    let segs = split(p, '/');
    if starts_with(p, "/"@) {
        seq![seq!['/']] + normal_parts(segs)
    } else if segs[0] == seq!['.'] {
        seq![seq!['.']] + normal_parts(segs.drop_first())
    } else {
        normal_parts(segs)
    }
}

/// `cwd` is `repo` or lies inside it (whole components only).
pub open spec fn in_tree(cwd: Seq<char>, repo: Seq<char>) -> bool {
    let a = components(repo);
    let b = components(cwd);
    a.len() <= b.len() && b.take(a.len() as int) == a
}

fn normal_parts_exec(segs: &Vec<Vec<char>>, from: usize) -> (r: Vec<Vec<char>>)
    requires
        from <= segs@.len(),
    ensures
        views(r@) == normal_parts(views(segs@).skip(from as int)),
{
    let ghost sv = views(segs@).skip(from as int);
    let mut r: Vec<Vec<char>> = Vec::new();
    let mut k: usize = from;
    proof {
        assert(sv.take(0) =~= Seq::<Seq<char>>::empty());
        assert(views(r@) =~= Seq::<Seq<char>>::empty());
    }
    while k < segs.len()
        invariant
            from <= k <= segs@.len(),
            sv == views(segs@).skip(from as int),
            views(r@) == normal_parts(sv.take(k - from)),
        decreases segs.len() - k,
    {
        proof {
            assert(sv.take(k - from + 1).drop_last() =~= sv.take(k - from));
            assert(sv.take(k - from + 1).last() == segs@[k as int]@);
        }
        let s = &segs[k];
        let dot = s.len() == 1 && s[0] == '.';
        proof {
            assert(dot == (s@ == seq!['.'])) by {
                if s@.len() == 1 && s@[0] == '.' {
                    assert(s@ =~= seq!['.']);
                }
            }
        }
        if !(s.len() == 0 || dot) {
            let c = slice_of(s, 0, s.len());
            proof {
                assert(c@ =~= s@);
                crate::text::lemma_views_push(r@, c);
            }
            r.push(c);
        }
        k = k + 1;
    }
    proof {
        assert(sv.take(segs@.len() - from) =~= sv);
    }
    r
}

fn components_exec(p: &[char]) -> (r: Vec<Vec<char>>)
    ensures
        views(r@) == components(p@),
{
    let segs = split_chars(p, '/');
    let mut r: Vec<Vec<char>> = Vec::new();
    if starts_with_str(p, "/") {
        let mut root: Vec<char> = Vec::new();
        root.push('/');
        r.push(root);
        let rest = normal_parts_exec(&segs, 0);
        proof {
            assert(views(segs@).skip(0) =~= views(segs@));
        }
        let mut k: usize = 0;
        while k < rest.len()
            invariant
                k <= rest@.len(),
                r@.len() == k + 1,
                views(r@) == seq![seq!['/']] + views(rest@).take(k as int),
            decreases rest.len() - k,
        {
            let c = slice_of(&rest[k], 0, rest[k].len());
            proof {
                assert(c@ =~= rest@[k as int]@);
                crate::text::lemma_views_push(r@, c);
                assert(seq![seq!['/']] + views(rest@).take(k + 1) =~= (seq![seq!['/']] + views(
                    rest@,
                ).take(k as int)).push(c@));
            }
            r.push(c);
            k = k + 1;
        }
        proof {
            assert(views(rest@).take(rest@.len() as int) =~= views(rest@));
        }
        r
    } else {
        proof {
            assert(views(segs@)[0] == segs@[0]@);
        }
        let first = &segs[0];
        let dot = first.len() == 1 && first[0] == '.';
        proof {
            assert(dot == (first@ == seq!['.'])) by {
                if first@.len() == 1 && first@[0] == '.' {
                    assert(first@ =~= seq!['.']);
                }
            }
        }
        if dot {
            let mut d: Vec<char> = Vec::new();
            d.push('.');
            r.push(d);
            let rest = normal_parts_exec(&segs, 1);
            proof {
                assert(views(segs@).skip(1) =~= views(segs@).drop_first());
            }
            let mut k: usize = 0;
            while k < rest.len()
                invariant
                    k <= rest@.len(),
                    r@.len() == k + 1,
                    views(r@) == seq![seq!['.']] + views(rest@).take(k as int),
                decreases rest.len() - k,
            {
                let c = slice_of(&rest[k], 0, rest[k].len());
                proof {
                    assert(c@ =~= rest@[k as int]@);
                    crate::text::lemma_views_push(r@, c);
                    assert(seq![seq!['.']] + views(rest@).take(k + 1) =~= (seq![seq!['.']] + views(
                        rest@,
                    ).take(k as int)).push(c@));
                }
                r.push(c);
                k = k + 1;
            }
            proof {
                assert(views(rest@).take(rest@.len() as int) =~= views(rest@));
            }
            r
        } else {
            proof {
                assert(views(segs@).skip(0) =~= views(segs@));
            }
            normal_parts_exec(&segs, 0)
        }
    }
}

/// Whether the working directory `cwd` is `repo` or inside it.
pub fn cwd_in_repo(cwd: &str, repo: &str) -> (r: bool)
    ensures
        r == in_tree(cwd@, repo@),
{
    let a = components_exec(&chars_of(repo));
    let b = components_exec(&chars_of(cwd));
    if a.len() > b.len() {
        return false;
    }
    let mut k: usize = 0;
    while k < a.len()
        invariant
            k <= a@.len() <= b@.len(),
            views(a@) == components(repo@),
            views(b@) == components(cwd@),
            forall|m: int| 0 <= m < k ==> views(b@)[m] == views(a@)[m],
        decreases a.len() - k,
    {
        if !crate::text::chars_eq(&a[k], &b[k]) {
            proof {
                assert(views(a@)[k as int] == a@[k as int]@);
                assert(views(b@)[k as int] == b@[k as int]@);
                assert(views(b@).take(a@.len() as int)[k as int] != views(a@)[k as int]);
                assert(views(b@).take(a@.len() as int) != views(a@));
            }
            return false;
        }
        k = k + 1;
    }
    proof {
        assert(views(b@).take(a@.len() as int) =~= views(a@));
    }
    true
}

/// The non-empty NUL-separated parts of `raw` (a `/proc/<pid>/cmdline`).
pub open spec fn nul_parts(raw: Seq<u8>) -> (Seq<Seq<u8>>, Seq<u8>)
    decreases raw.len(),
{
    if raw.len() == 0 {
        (Seq::empty(), Seq::empty())
    } else {
        let (done, cur) = nul_parts(raw.drop_last());
        if raw.last() == 0u8 {
            (
                if cur.len() > 0 {
                    done.push(cur)
                } else {
                    done
                },
                Seq::empty(),
            )
        } else {
            (done, cur.push(raw.last()))
        }
    }
}

/// The arguments of a NUL-separated command line (empty parts dropped), each
/// read as UTF-8 lossily.
pub open spec fn cmdline_parts(raw: Seq<u8>) -> Seq<Seq<u8>> {
    let (done, cur) = nul_parts(raw);
    if cur.len() > 0 {
        done.push(cur)
    } else {
        done
    }
}

/// argv from the raw bytes of `/proc/<pid>/cmdline`.
pub fn cmdline_args(raw: &[u8]) -> (r: Vec<String>)
    ensures
        r@.len() == cmdline_parts(raw@).len(),
        forall|i: int| 0 <= i < r@.len() ==> #[trigger] r@[i]@ == utf8_lossy(cmdline_parts(raw@)[i]),
{
    let mut parts: Vec<Vec<u8>> = Vec::new();
    let mut cur: Vec<u8> = Vec::new();
    let mut k: usize = 0;
    proof {
        assert(raw@.take(0) =~= Seq::<u8>::empty());
        assert(crate::ai::byte_views(parts@) =~= Seq::<Seq<u8>>::empty());
    }
    while k < raw.len()
        invariant
            k <= raw@.len(),
            (crate::ai::byte_views(parts@), cur@) == nul_parts(raw@.take(k as int)),
        decreases raw.len() - k,
    {
        proof {
            assert(raw@.take(k + 1).drop_last() =~= raw@.take(k as int));
            assert(raw@.take(k + 1).last() == raw@[k as int]);
        }
        if raw[k] == 0u8 {
            if cur.len() > 0 {
                proof {
                    assert(crate::ai::byte_views(parts@.push(cur)) =~= crate::ai::byte_views(
                        parts@,
                    ).push(cur@));
                }
                parts.push(cur);
            }
            cur = Vec::new();
        } else {
            cur.push(raw[k]);
        }
        k = k + 1;
    }
    proof {
        assert(raw@.take(raw@.len() as int) =~= raw@);
    }
    if cur.len() > 0 {
        proof {
            assert(crate::ai::byte_views(parts@.push(cur)) =~= crate::ai::byte_views(parts@).push(
                cur@,
            ));
        }
        parts.push(cur);
    }
    let ghost pv = crate::ai::byte_views(parts@);
    let mut out: Vec<String> = Vec::new();
    let mut m: usize = 0;
    while m < parts.len()
        invariant
            m <= parts@.len(),
            pv == crate::ai::byte_views(parts@),
            pv == cmdline_parts(raw@),
            out@.len() == m,
            forall|i: int| 0 <= i < m ==> #[trigger] out@[i]@ == utf8_lossy(pv[i]),
        decreases parts.len() - m,
    {
        let s = from_utf8_lossy(&parts[m]);
        proof {
            assert(pv[m as int] == parts@[m as int]@);
        }
        out.push(s);
        m = m + 1;
    }
    out
}

/// The agent session a process is, given its arguments and working
/// directory: its program's basename is a known agent CLI and it runs inside
/// one of `repos` (the first such). The result is (repo, command line).
pub open spec fn session_of(
    args: Seq<Seq<char>>,
    cwd: Seq<char>,
    repos: Seq<Seq<char>>,
    programs: Seq<Seq<char>>,
) -> Option<(Seq<char>, Seq<char>)> {
    if args.len() == 0 || !programs.contains(after_last(args[0], '/')) {
        None
    } else {
        match first_tree(cwd, repos, 0) {
            Some(i) => Some((repos[i], join(args, " "@))),
            None => None,
        }
    }
}

/// The first of `repos` at or after `i` that contains `cwd`.
pub open spec fn first_tree(cwd: Seq<char>, repos: Seq<Seq<char>>, i: int) -> Option<int>
    decreases repos.len() - i,
{
    if i < 0 || i >= repos.len() {
        None
    } else if in_tree(cwd, repos[i]) {
        Some(i)
    } else {
        first_tree(cwd, repos, i + 1)
    }
}

/// Whether a process is an agent session inside a scanned repo: `Some((repo,
/// command line))` when it is.
pub fn agent_session(args: &[String], cwd: &str, repos: &[String], programs: &[String]) -> (r:
    Option<(String, String)>)
    ensures
        match r {
            Some((repo, command)) => session_of(
                str_views(args@),
                cwd@,
                str_views(repos@),
                str_views(programs@),
            ) == Some((repo@, command@)),
            None => session_of(str_views(args@), cwd@, str_views(repos@), str_views(programs@))
                is None,
        },
{
    if args.len() == 0 {
        return None;
    }
    let base = basename(args[0].as_str());
    proof {
        assert(str_views(args@)[0] == args@[0]@);
    }
    let mut known = false;
    let mut k: usize = 0;
    while k < programs.len()
        invariant
            k <= programs@.len(),
            known == exists|m: int| 0 <= m < k && programs@[m]@ == base@,
        decreases programs.len() - k,
    {
        if str_eq(base.as_str(), programs[k].as_str()) {
            known = true;
        }
        k = k + 1;
    }
    proof {
        if known {
            let m = choose|m: int| 0 <= m < programs@.len() && programs@[m]@ == base@;
            assert(str_views(programs@)[m] == base@);
        } else {
            if str_views(programs@).contains(base@) {
                let m = choose|m: int| 0 <= m < str_views(programs@).len() && str_views(programs@)[m]
                    == base@;
                assert(programs@[m]@ == base@);
            }
        }
    }
    if !known {
        return None;
    }
    let ghost rv = str_views(repos@);
    let mut i: usize = 0;
    while i < repos.len()
        invariant
            i <= repos@.len(),
            rv == str_views(repos@),
            args@.len() > 0,
            str_views(programs@).contains(after_last(str_views(args@)[0], '/')),
            first_tree(cwd@, rv, i as int) == first_tree(cwd@, rv, 0),
        decreases repos.len() - i,
    {
        proof {
            assert(rv[i as int] == repos@[i as int]@);
        }
        if cwd_in_repo(cwd, repos[i].as_str()) {
            let command = crate::semantic::join_with(args, " ");
            let repo = repos[i].clone();
            proof {
                assert(first_tree(cwd@, rv, i as int) == Some(i as int));
                assert(str_views(programs@).contains(after_last(str_views(args@)[0], '/')));
                assert(session_of(str_views(args@), cwd@, rv, str_views(programs@)) == Some(
                    (rv[i as int], join(str_views(args@), " "@)),
                ));
            }
            return Some((repo, command));
        }
        i = i + 1;
    }
    None
}

/// Where an agent that started at `t` goes in a newest-first list: before
/// the first one (at or after `j`) that started earlier.
pub open spec fn start_pos(s: Seq<RunningAgent>, t: i64, j: int) -> int
    decreases s.len() - j,
{
    if j < 0 || j >= s.len() {
        s.len() as int
    } else if s[j].started_unix < t {
        j
    } else {
        start_pos(s, t, j + 1)
    }
}

/// Agents newest first (a stable sort on start time, descending).
pub open spec fn newest_first_of(v: Seq<RunningAgent>) -> Seq<RunningAgent>
    decreases v.len(),
{
    if v.len() == 0 {
        Seq::empty()
    } else {
        let r = newest_first_of(v.drop_last());
        r.insert(start_pos(r, v.last().started_unix, 0), v.last())
    }
}

/// Start times never increase along the sequence.
pub open spec fn by_start_desc(v: Seq<RunningAgent>) -> bool {
    forall|i: int, j: int| 0 <= i < j < v.len() ==> #[trigger] v[j].started_unix <= #[trigger] v[i].started_unix
}

proof fn lemma_start_pos(s: Seq<RunningAgent>, t: i64, j: int)
    requires
        0 <= j <= s.len(),
    ensures
        j <= start_pos(s, t, j) <= s.len(),
        forall|i: int| j <= i < start_pos(s, t, j) ==> #[trigger] s[i].started_unix >= t,
        start_pos(s, t, j) < s.len() ==> s[start_pos(s, t, j)].started_unix < t,
    decreases s.len() - j,
{
    if j < s.len() && s[j].started_unix >= t {
        lemma_start_pos(s, t, j + 1);
    }
}

proof fn lemma_newest_first_len(v: Seq<RunningAgent>)
    ensures
        newest_first_of(v).len() == v.len(),
    decreases v.len(),
{
    if v.len() > 0 {
        lemma_newest_first_len(v.drop_last());
        lemma_start_pos(newest_first_of(v.drop_last()), v.last().started_unix, 0);
    }
}

/// The newest-first order is sorted by start time and only reorders.
pub proof fn law_newest_first_sorted(v: Seq<RunningAgent>)
    ensures
        by_start_desc(newest_first_of(v)),
        newest_first_of(v).to_multiset() == v.to_multiset(),
    decreases v.len(),
{
    broadcast use vstd::seq_lib::group_to_multiset_ensures;

    if v.len() > 0 {
        let r = newest_first_of(v.drop_last());
        let x = v.last();
        law_newest_first_sorted(v.drop_last());
        lemma_start_pos(r, x.started_unix, 0);
        let p = start_pos(r, x.started_unix, 0);
        let t = r.insert(p, x);
        assert forall|i: int, j: int| 0 <= i < j < t.len() implies #[trigger] t[j].started_unix
            <= #[trigger] t[i].started_unix by {
            if j < p {
                assert(t[i] == r[i] && t[j] == r[j]);
            } else if j == p {
                assert(t[i] == r[i]);
            } else if i == p {
                assert(t[j] == r[j - 1]);
                assert(r[j - 1].started_unix <= r[p].started_unix);
            } else if i < p {
                assert(t[i] == r[i] && t[j] == r[j - 1]);
            } else {
                assert(t[i] == r[i - 1] && t[j] == r[j - 1]);
            }
        }
        assert(t.remove(p) =~= r);
        assert(t[p] == x);
        assert(v.drop_last().push(x) =~= v);
        assert(t.to_multiset().count(x) > 0) by {
            assert(t.contains(x));
        }
        assert(t.to_multiset() =~= r.to_multiset().insert(x));
    }
}

fn insert_pos(sorted: &Vec<RunningAgent>, started: i64) -> (r: usize)
    ensures
        r == start_pos(sorted@, started, 0),
{
    let mut k: usize = 0;
    while k < sorted.len() && sorted[k].started_unix >= started
        invariant
            k <= sorted@.len(),
            start_pos(sorted@, started, k as int) == start_pos(sorted@, started, 0),
        decreases sorted.len() - k,
    {
        k = k + 1;
    }
    k
}

/// Agents newest first (stable on equal start times).
pub fn newest_first(agents: Vec<RunningAgent>) -> (r: Vec<RunningAgent>)
    ensures
        r@ == newest_first_of(agents@),
        by_start_desc(r@),
        r@.to_multiset() =~= agents@.to_multiset(),
{
    let mut out: Vec<RunningAgent> = Vec::new();
    let mut k: usize = 0;
    let n = agents.len();
    let ghost all = agents@;
    let mut rest = agents;
    proof {
        assert(all.take(0) =~= Seq::<RunningAgent>::empty());
        assert(all.skip(0) =~= all);
    }
    while k < n
        invariant
            n == all.len(),
            k <= n,
            rest@ == all.skip(k as int),
            out@ == newest_first_of(all.take(k as int)),
        decreases n - k,
    {
        proof {
            assert(all.take(k + 1).drop_last() =~= all.take(k as int));
            assert(all.take(k + 1).last() == all[k as int]);
        }
        let x = rest.remove(0);
        proof {
            assert(x == all[k as int]);
            assert(rest@ =~= all.skip(k + 1));
        }
        let p = insert_pos(&out, x.started_unix);
        proof {
            lemma_start_pos(out@, x.started_unix, 0);
        }
        out.insert(p, x);
        k = k + 1;
    }
    proof {
        assert(all.take(n as int) =~= all);
        law_newest_first_sorted(all);
    }
    out
}

} // verus!
