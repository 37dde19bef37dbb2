//! Cross-repo content search with ripgrep: the argument list, locating the
//! `rg` binary, and turning rg's `--json` event stream into hits attributed
//! to the repo that contains them. Running the process is I/O.
use vstd::prelude::*;

use crate::model::opt_view;
use crate::text::{
    chars_of, lines, lines_of, push_str, starts_with, starts_with_chars, string_from, trim,
    trim_chars, trim_end, trim_end_chars, trim_start_char, trim_start_char_chars, slice_of, str_views,
};

verus! {

/// One match: the repo that contains it, the file relative to that repo, the
/// absolute file path, the line number and the (right-trimmed) line text.
#[derive(Debug, Clone)]
pub struct SearchHit {
    pub repo: String,
    pub file: String,
    pub abs: String,
    pub line: u32,
    pub text: String,
}

/// The fixed flags: JSON events, smart case, at most 20 matches per file,
/// lines capped at 300 columns.
pub open spec fn fixed_flags() -> Seq<Seq<char>> {
    seq!["--json"@, "--smart-case"@, "--max-count"@, "20"@, "--max-columns"@, "300"@, "-e"@]
}

/// The absolute paths among `paths`, in order.
pub open spec fn absolute_paths(paths: Seq<Seq<char>>) -> Seq<Seq<char>> {
    paths.filter(|p: Seq<char>| p.len() > 0 && p[0] == '/')
}

/// rg's arguments for a search, `None` when there is nothing to search (a
/// blank query or no repos). The query goes after `-e` and the paths after
/// `--`, so neither can be read as a flag.
pub open spec fn args_of(query: Seq<char>, paths: Seq<Seq<char>>) -> Option<Seq<Seq<char>>> {
    if trim(query).len() == 0 || paths.len() == 0 {
        None
    } else {
        Some(fixed_flags() + seq![trim(query), "--"@] + absolute_paths(paths))
    }
}

/// The argument list for `rg`, or `None` when the search is empty.
pub fn search_args(query: &str, paths: &[String]) -> (r: Option<Vec<String>>)
    ensures
        match r {
            Some(a) => args_of(query@, str_views(paths@)) == Some(str_views(a@)),
            None => args_of(query@, str_views(paths@)) is None,
        },
{
    let q = trim_chars(&chars_of(query));
    if q.len() == 0 || paths.len() == 0 {
        return None;
    }
    let mut out: Vec<String> = Vec::new();
    out.push(string_from(&chars_of("--json")));
    out.push(string_from(&chars_of("--smart-case")));
    out.push(string_from(&chars_of("--max-count")));
    out.push(string_from(&chars_of("20")));
    out.push(string_from(&chars_of("--max-columns")));
    out.push(string_from(&chars_of("300")));
    out.push(string_from(&chars_of("-e")));
    out.push(string_from(&q));
    out.push(string_from(&chars_of("--")));
    let ghost pv = str_views(paths@);
    proof {
        assert(str_views(out@) =~= fixed_flags() + seq![trim(query@), "--"@]);
        assert(pv.take(0) =~= Seq::<Seq<char>>::empty());
        assert(absolute_paths(pv.take(0)) =~= Seq::<Seq<char>>::empty());
    }
    let ghost head = str_views(out@);
    let mut k: usize = 0;
    while k < paths.len()
        invariant
            k <= paths@.len(),
            pv == str_views(paths@),
            str_views(out@) == head + absolute_paths(pv.take(k as int)),
        decreases paths.len() - k,
    {
        proof {
            assert(pv.take(k + 1) =~= pv.take(k as int).push(pv[k as int]));
            reveal(Seq::filter);
            assert(pv.take(k + 1).drop_last() =~= pv.take(k as int));
        }
        let p = chars_of(paths[k].as_str());
        proof {
            assert(p@ == pv[k as int]);
        }
        if p.len() > 0 && p[0] == '/' {
            let s = paths[k].clone();
            proof {
                assert(s@ == pv[k as int]);
            }
            let ghost before = str_views(out@);
            out.push(s);
            proof {
                assert(absolute_paths(pv.take(k + 1)) =~= absolute_paths(pv.take(k as int)).push(
                    pv[k as int],
                ));
                assert(str_views(out@) =~= before.push(pv[k as int]));
                assert(str_views(out@) =~= head + absolute_paths(pv.take(k + 1)));
            }
        } else {
            proof {
                assert(!(pv[k as int].len() > 0 && pv[k as int][0] == '/'));
                assert(absolute_paths(pv.take(k + 1)) =~= absolute_paths(pv.take(k as int)));
                assert(str_views(out@) =~= head + absolute_paths(pv.take(k + 1)));
            }
        }
        k = k + 1;
    }
    proof {
        assert(pv.take(paths@.len() as int) =~= pv);
    }
    Some(out)
}

/// The `rg` binary to run, or the error shown when ripgrep is missing.
pub fn locate_rg() -> (r: Result<String, String>)
    ensures
        r matches Ok(p) ==> (p@ == "rg"@ || crate::text::ends_with(p@, "/rg"@)),
        r matches Err(e) ==> e@ == "ripgrep (rg) not found on PATH"@,
{
    proof {
        reveal_strlit("rg");
        reveal_strlit("/");
        reveal_strlit("/rg");
        assert("/"@ + "rg"@ =~= "/rg"@);
        assert(!"rg"@.contains('/')) by {
            if "rg"@.contains('/') {
                let i = choose|i: int| 0 <= i < "rg"@.len() && "rg"@[i] == '/';
                assert(i == 0 || i == 1);
            }
        }
    }
    match crate::paths::find_program("rg") {
        Some(p) => Ok(p),
        None => Err(string_from(&chars_of("ripgrep (rg) not found on PATH"))),
    }
}

/// The fields of one rg `--json` line, as `serde_json` reads them: the event
/// `type`, `data.path.text`, `data.lines.text` and `data.line_number`; `None`
/// when the line is not JSON.
pub uninterp spec fn rg_event(line: Seq<char>) -> Option<
    (Option<Seq<char>>, Option<Seq<char>>, Option<Seq<char>>, Option<u64>),
>;

pub open spec fn event_view(e: Option<(Option<String>, Option<String>, Option<String>, Option<u64>)>) -> Option<
    (Option<Seq<char>>, Option<Seq<char>>, Option<Seq<char>>, Option<u64>),
> {
    match e {
        Some((t, p, l, n)) => Some((opt_view(t), opt_view(p), opt_view(l), n)),
        None => None,
    }
}

/// `serde_json::from_str::<Value>` on one line, then the four fields read with
/// `Index` and `as_str` / `as_u64`; the result is named `rg_event` of the line.
#[verifier::external_body]
fn rg_event_of(line: &str) -> (r: Option<(Option<String>, Option<String>, Option<String>, Option<u64>)>)
    ensures
        event_view(r) == rg_event(line@),
{
    match serde_json::from_str::<serde_json::Value>(line) {
        Ok(v) => Some((
            v["type"].as_str().map(String::from),
            v["data"]["path"]["text"].as_str().map(String::from),
            v["data"]["lines"]["text"].as_str().map(String::from),
            v["data"]["line_number"].as_u64(),
        )),
        Err(_) => None,
    }
}

/// The longest of `paths` that `abs` starts with (the last one among equally
/// long candidates).
pub open spec fn longest_prefix(paths: Seq<Seq<char>>, abs: Seq<char>) -> Option<Seq<char>>
    decreases paths.len(),
{
    if paths.len() == 0 {
        None
    } else {
        let r = longest_prefix(paths.drop_last(), abs);
        let p = paths.last();
        if starts_with(abs, p) {
            match r {
                Some(b) => if p.len() >= b.len() {
                    Some(p)
                } else {
                    Some(b)
                },
                None => Some(p),
            }
        } else {
            r
        }
    }
}

/// (repo, file, abs, line, text) of a hit.
pub type HitV = (Seq<char>, Seq<char>, Seq<char>, u32, Seq<char>);

/// The hit one event makes: a `match` event with a text path, attributed to
/// the longest repo prefix ("" when none), its file relative to that repo.
pub open spec fn hit_of(
    e: Option<(Option<Seq<char>>, Option<Seq<char>>, Option<Seq<char>>, Option<u64>)>,
    paths: Seq<Seq<char>>,
) -> Option<HitV> {
    match e {
        Some((Some(t), Some(abs), text, n)) => if t == "match"@ {
            let repo = match longest_prefix(paths, abs) {
                Some(p) => p,
                None => Seq::empty(),
            };
            Some(
                (
                    repo,
                    trim_start_char(abs.skip(repo.len() as int), '/'),
                    abs,
                    (match n {
                        Some(x) => x,
                        None => 0,
                    }) as u32,
                    trim_end(
                        match text {
                            Some(x) => x,
                            None => Seq::empty(),
                        },
                    ),
                ),
            )
        } else {
            None
        },
        _ => None,
    }
}

/// Every hit of rg's output lines, in order.
pub open spec fn all_hits(ls: Seq<Seq<char>>, paths: Seq<Seq<char>>) -> Seq<HitV>
    decreases ls.len(),
{
    if ls.len() == 0 {
        Seq::empty()
    } else {
        let r = all_hits(ls.drop_last(), paths);
        match hit_of(rg_event(ls.last()), paths) {
            Some(h) => r.push(h),
            None => r,
        }
    }
}

pub open spec fn hit_views(v: Seq<SearchHit>) -> Seq<HitV> {
    v.map_values(|h: SearchHit| (h.repo@, h.file@, h.abs@, h.line, h.text@))
}

proof fn lemma_longest_is_prefix(paths: Seq<Seq<char>>, abs: Seq<char>)
    ensures
        longest_prefix(paths, abs) matches Some(p) ==> starts_with(abs, p) && p.len() <= abs.len(),
    decreases paths.len(),
{
    if paths.len() > 0 {
        lemma_longest_is_prefix(paths.drop_last(), abs);
    }
}

/// The longest of `paths` that `abs` starts with.
fn longest_prefix_exec(paths: &[String], abs: &[char]) -> (r: Option<Vec<char>>)
    ensures
        match r {
            Some(p) => longest_prefix(str_views(paths@), abs@) == Some(p@),
            None => longest_prefix(str_views(paths@), abs@) is None,
        },
{
    let ghost pv = str_views(paths@);
    let mut best: Option<Vec<char>> = None;
    let mut k: usize = 0;
    while k < paths.len()
        invariant
            k <= paths@.len(),
            pv == str_views(paths@),
            match best {
                Some(b) => longest_prefix(pv.take(k as int), abs@) == Some(b@),
                None => longest_prefix(pv.take(k as int), abs@) is None,
            },
        decreases paths.len() - k,
    {
        proof {
            assert(pv.take(k + 1).drop_last() =~= pv.take(k as int));
            assert(pv.take(k + 1).last() == pv[k as int]);
        }
        let p = chars_of(paths[k].as_str());
        if starts_with_chars(abs, &p) {
            best = match best {
                Some(b) => if p.len() >= b.len() {
                    Some(p)
                } else {
                    Some(b)
                },
                None => Some(p),
            };
        }
        k = k + 1;
    }
    proof {
        assert(pv.take(paths@.len() as int) =~= pv);
    }
    best
}

/// The hit of one output line, if it is one.
fn hit_from_line(line: &[char], paths: &[String]) -> (r: Option<SearchHit>)
    ensures
        match r {
            Some(h) => hit_of(rg_event(line@), str_views(paths@)) == Some(
                (h.repo@, h.file@, h.abs@, h.line, h.text@),
            ),
            None => hit_of(rg_event(line@), str_views(paths@)) is None,
        },
{
    let s = string_from(line);
    let ev = rg_event_of(s.as_str());
    match ev {
        Some((Some(t), Some(abs), text, n)) => {
            if !crate::text::str_eq(t.as_str(), "match") {
                proof {
                    reveal_strlit("match");
                }
                return None;
            }
            proof {
                reveal_strlit("match");
            }
            let a = chars_of(abs.as_str());
            let repo = match longest_prefix_exec(paths, &a) {
                Some(p) => p,
                None => Vec::new(),
            };
            proof {
                lemma_longest_is_prefix(str_views(paths@), a@);
            }
            let rest = slice_of(&a, repo.len(), a.len());
            let file = trim_start_char_chars(&rest, '/');
            let line_no: u64 = match n {
                Some(x) => x,
                None => 0,
            };
            let tx = match text {
                Some(x) => chars_of(x.as_str()),
                None => Vec::new(),
            };
            let text_trimmed = trim_end_chars(&tx);
            Some(
                SearchHit {
                    repo: string_from(&repo),
                    file: string_from(&file),
                    abs,
                    line: line_no as u32,
                    text: string_from(&text_trimmed),
                },
            )
        },
        _ => None,
    }
}

/// The hits in rg's `--json` output, at most `limit`, each attributed to the
/// longest of `paths` (the repo roots searched) that contains it.
pub fn hits_from_output(stdout: &str, paths: &[String], limit: usize) -> (r: Vec<SearchHit>)
    ensures
        hit_views(r@) == {
            let all = all_hits(lines(stdout@), str_views(paths@));
            if all.len() > limit {
                all.take(limit as int)
            } else {
                all
            }
        },
{
    let ls = lines_of(&chars_of(stdout));
    let ghost lv = crate::text::views(ls@);
    let ghost pv = str_views(paths@);
    let mut out: Vec<SearchHit> = Vec::new();
    let mut k: usize = 0;
    proof {
        assert(lv.take(0) =~= Seq::<Seq<char>>::empty());
        assert(hit_views(out@) =~= Seq::<HitV>::empty());
    }
    while k < ls.len() && out.len() < limit
        invariant
            k <= ls@.len(),
            lv == crate::text::views(ls@),
            lv == lines(stdout@),
            pv == str_views(paths@),
            out@.len() <= limit,
            hit_views(out@) == {
                let all = all_hits(lv.take(k as int), pv);
                if all.len() > limit {
                    all.take(limit as int)
                } else {
                    all
                }
            },
        decreases ls.len() - k,
    {
        proof {
            assert(lv.take(k + 1).drop_last() =~= lv.take(k as int));
            assert(lv.take(k + 1).last() == ls@[k as int]@);
        }
        let h = hit_from_line(&ls[k], paths);
        match h {
            Some(x) => {
                proof {
                    assert(hit_views(out@.push(x)) =~= hit_views(out@).push(
                        (x.repo@, x.file@, x.abs@, x.line, x.text@),
                    ));
                }
                out.push(x);
            },
            None => {},
        }
        k = k + 1;
    }
    proof {
        if k == ls@.len() {
            assert(lv.take(k as int) =~= lv);
        } else {
            let part = all_hits(lv.take(k as int), pv);
            let full = all_hits(lv, pv);
            lemma_prefix_hits(lv, pv, k as int, lv.len() as int);
            assert(lv.take(lv.len() as int) =~= lv);
            assert(part.len() >= limit);
            assert(full.take(limit as int) =~= part.take(limit as int));
        }
    }
    out
}

proof fn lemma_prefix_hits(lv: Seq<Seq<char>>, pv: Seq<Seq<char>>, k: int, j: int)
    requires
        0 <= k <= j <= lv.len(),
    ensures
        all_hits(lv.take(j), pv).len() >= all_hits(lv.take(k), pv).len(),
        all_hits(lv.take(j), pv).take(all_hits(lv.take(k), pv).len() as int) =~= all_hits(
            lv.take(k),
            pv,
        ),
    decreases j - k,
{
    if j > k {
        lemma_prefix_hits(lv, pv, k, j - 1);
        assert(lv.take(j).drop_last() =~= lv.take(j - 1));
    } else {
        assert(all_hits(lv.take(j), pv).take(all_hits(lv.take(k), pv).len() as int) =~= all_hits(
            lv.take(k),
            pv,
        ));
    }
}

proof fn lemma_longest_is_listed(paths: Seq<Seq<char>>, abs: Seq<char>)
    ensures
        longest_prefix(paths, abs) matches Some(p) ==> paths.contains(p),
    decreases paths.len(),
{
    if paths.len() > 0 {
        lemma_longest_is_listed(paths.drop_last(), abs);
        match longest_prefix(paths.drop_last(), abs) {
            Some(b) => {
                let i = choose|i: int| 0 <= i < paths.drop_last().len() && paths.drop_last()[i] == b;
                assert(paths[i] == b);
            },
            None => {},
        }
        assert(paths[paths.len() - 1] == paths.last());
    }
}

/// Every hit is attributed to a repo that contains it: its absolute path
/// starts with the repo (one of the searched roots, or "" when none matched)
/// and the file is the rest of that path.
pub proof fn law_hits_lie_in_their_repo(ls: Seq<Seq<char>>, paths: Seq<Seq<char>>)
    ensures
        forall|i: int|
            0 <= i < all_hits(ls, paths).len() ==> {
                let h = #[trigger] all_hits(ls, paths)[i];
                &&& starts_with(h.2, h.0)
                &&& (h.0.len() == 0 || paths.contains(h.0))
                &&& h.1 == trim_start_char(h.2.skip(h.0.len() as int), '/')
            },
    decreases ls.len(),
{
    if ls.len() > 0 {
        law_hits_lie_in_their_repo(ls.drop_last(), paths);
        let r = all_hits(ls.drop_last(), paths);
        match rg_event(ls.last()) {
            Some((Some(_), Some(abs), _, _)) => {
                lemma_longest_is_prefix(paths, abs);
                lemma_longest_is_listed(paths, abs);
            },
            _ => {},
        }
        assert forall|i: int| 0 <= i < all_hits(ls, paths).len() implies {
            let h = #[trigger] all_hits(ls, paths)[i];
            &&& starts_with(h.2, h.0)
            &&& (h.0.len() == 0 || paths.contains(h.0))
            &&& h.1 == trim_start_char(h.2.skip(h.0.len() as int), '/')
        } by {
            if i < r.len() {
                assert(all_hits(ls, paths)[i] == r[i]);
            } else {
                match rg_event(ls.last()) {
                    Some((Some(_), Some(abs), _, _)) => {
                        assert(abs.take(0) =~= Seq::<char>::empty());
                    },
                    _ => {},
                }
            }
        }
    }
}

} // verus!
