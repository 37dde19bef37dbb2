//! Repo metadata extraction: activity buckets, origin remotes, README titles
//! and descriptions, `.gitmodules`, primary language, `~` paths, and the
//! repo walk's decision at each directory (ignore globs, `.git`). The
//! directory walks themselves live with the caller.
use vstd::prelude::*;

use crate::inbox::truncated;
use crate::model::{opt_view, Activity, Host};
use crate::attention::{lemma_lex_irrefl, lemma_lex_trans, lex_lt, lex_lt_exec};
use crate::text::{
    lines, lines_of, lower_ascii, lower_ascii_chars, starts_with, starts_with_chars,
    starts_with_str, str_eq, str_views, strip_prefix, strip_prefix_str, trim_start,
    trim_start_chars, after_last, after_last_chars, char_pos, char_pos_from, chars_of, contains, contains_str,
    ends_with, ends_with_str, find, find_chars, lemma_char_pos_bound, lemma_find, lemma_rfind,
    lemma_utf8_len_mono, lowercase, occurs_at, utf8_len, push_all, push_str, rfind, rfind_chars, slice_of, split, split_chars,
    string_from, to_lowercase, trim, trim_chars, trim_end_char, trim_end_char_chars, views,
};

verus! {

pub const SEVEN_DAYS: i64 = 604800;
pub const THIRTY_DAYS: i64 = 2592000;

/// Recency bucket of a last commit (`0` means no commit).
pub open spec fn activity_of(last_commit_unix: int, now: int) -> Activity {
    if last_commit_unix == 0 {
        Activity::Stale
    } else if now - last_commit_unix < SEVEN_DAYS {
        Activity::Active
    } else if now - last_commit_unix < THIRTY_DAYS {
        Activity::Idle
    } else {
        Activity::Stale
    }
}

/// Map last-commit recency to an activity bucket (no commit → stale).
pub fn classify_activity(last_commit_unix: i64, now: i64) -> (r: Activity)
    requires
        i64::MIN <= now - last_commit_unix <= i64::MAX,
    ensures
        r == activity_of(last_commit_unix as int, now as int),
{
    if last_commit_unix == 0 {
        return Activity::Stale;
    }
    let d = now - last_commit_unix;
    if d < SEVEN_DAYS {
        Activity::Active
    } else if d < THIRTY_DAYS {
        Activity::Idle
    } else {
        Activity::Stale
    }
}

// ───────────────────────────── origin remotes ─────────────────────────────

/// The URL without its scheme (up to the last `://`).
pub open spec fn after_scheme(url: Seq<char>) -> Seq<char> {
    match rfind(url, "://"@) {
        Some(i) => url.skip(i + 3),
        None => url,
    }
}

/// Without a `user@` prefix (up to the first `@`).
pub open spec fn after_user(s: Seq<char>) -> Seq<char> {
    let i = char_pos(s, '@');
    if i < s.len() {
        s.skip(i + 1 as int)
    } else {
        s
    }
}

/// Index of the first `/` or `:` (the length when there is none).
pub open spec fn host_end(s: Seq<char>) -> nat
    decreases s.len(),
{
    if s.len() == 0 || s[0] == '/' || s[0] == ':' {
        0
    } else {
        1 + host_end(s.drop_first())
    }
}

proof fn lemma_host_end(s: Seq<char>, i: int)
    requires
        0 <= i <= s.len(),
        forall|k: int| 0 <= k < i ==> #[trigger] s[k] != '/' && s[k] != ':',
        i == s.len() || s[i] == '/' || s[i] == ':',
    ensures
        host_end(s) == i,
    decreases i,
{
    if i > 0 {
        let t = s.drop_first();
        assert forall|k: int| 0 <= k < i - 1 implies #[trigger] t[k] != '/' && t[k] != ':' by {
            assert(t[k] == s[k + 1]);
        }
        if i - 1 < t.len() {
            assert(t[i - 1] == s[i]);
        }
        lemma_host_end(t, i - 1);
    }
}

/// `s` with every trailing `p` removed (`str::trim_end_matches`).
pub open spec fn trim_suffix_all(s: Seq<char>, p: Seq<char>) -> Seq<char>
    decreases s.len(),
{
    if p.len() > 0 && ends_with(s, p) {
        trim_suffix_all(s.take(s.len() - p.len()), p)
    } else {
        s
    }
}

/// The host part of a remote (`github.com` in `git@github.com:o/r.git`).
pub open spec fn remote_domain_raw(url: Seq<char>) -> Seq<char> {
    let tail = after_user(after_scheme(url));
    tail.take(host_end(tail) as int)
}

/// The path part of a remote, without trailing `/` and `.git`.
pub open spec fn remote_path(url: Seq<char>) -> Seq<char> {
    let tail = after_user(after_scheme(url));
    let p = host_end(tail);
    let part = if p < tail.len() {
        tail.skip(p + 1 as int)
    } else {
        Seq::empty()
    };
    trim_suffix_all(trim_end_char(part, '/'), ".git"@)
}

/// The non-empty `/`-separated segments of `s`.
pub open spec fn segments(s: Seq<char>) -> Seq<Seq<char>> {
    nonempty(split(s, '/'))
}

pub open spec fn nonempty(ps: Seq<Seq<char>>) -> Seq<Seq<char>>
    decreases ps.len(),
{
    if ps.len() == 0 {
        Seq::empty()
    } else if ps.last().len() > 0 {
        nonempty(ps.drop_last()).push(ps.last())
    } else {
        nonempty(ps.drop_last())
    }
}

/// The provider, detected from the host only.
pub open spec fn remote_host(url: Seq<char>) -> Option<Host> {
    let d = remote_domain_raw(url);
    if contains(d, "github.com"@) {
        Some(Host::Github)
    } else if contains(d, "gitlab"@) {
        Some(Host::Gitlab)
    } else {
        None
    }
}

/// `owner/repo`: the last two path segments.
pub open spec fn remote_slug(url: Seq<char>) -> Option<Seq<char>> {
    let parts = segments(remote_path(url));
    if parts.len() >= 2 {
        Some(parts[parts.len() - 2] + "/"@ + parts[parts.len() - 1])
    } else {
        None
    }
}

/// The host, when there is one.
pub open spec fn remote_domain(url: Seq<char>) -> Option<Seq<char>> {
    let d = remote_domain_raw(url);
    if d.len() > 0 {
        Some(d)
    } else {
        None
    }
}

fn trim_suffix_all_exec(s: &[char], p: &str) -> (r: Vec<char>)
    ensures
        r@ == trim_suffix_all(s@, p@),
{
    let pv = chars_of(p);
    let mut n: usize = s.len();
    proof {
        assert(s@.take(n as int) =~= s@);
    }
    while pv.len() > 0 && ends_with_str(&slice_of(s, 0, n), p)
        invariant
            n <= s@.len(),
            pv@ == p@,
            trim_suffix_all(s@.take(n as int), p@) == trim_suffix_all(s@, p@),
        decreases n,
    {
        proof {
            assert(s@.subrange(0, n as int) =~= s@.take(n as int));
            assert(s@.take(n as int).take(n - p@.len()) =~= s@.take(n - p@.len()));
        }
        n = n - pv.len();
    }
    let r = slice_of(s, 0, n);
    proof {
        assert(r@ =~= s@.take(n as int));
    }
    r
}

fn nonempty_exec(ps: &Vec<Vec<char>>) -> (r: Vec<Vec<char>>)
    ensures
        views(r@) == nonempty(views(ps@)),
{
    let mut r: Vec<Vec<char>> = Vec::new();
    let mut k: usize = 0;
    while k < ps.len()
        invariant
            k <= ps@.len(),
            views(r@) == nonempty(views(ps@).take(k as int)),
        decreases ps.len() - k,
    {
        proof {
            assert(views(ps@).take(k + 1).drop_last() =~= views(ps@).take(k as int));
            assert(views(ps@).take(k + 1).last() == ps@[k as int]@);
        }
        if ps[k].len() > 0 {
            let x = slice_of(&ps[k], 0, ps[k].len());
            proof {
                assert(x@ =~= ps@[k as int]@);
                crate::text::lemma_views_push(r@, x);
            }
            r.push(x);
        }
        k = k + 1;
    }
    proof {
        assert(views(ps@).take(ps@.len() as int) =~= views(ps@));
    }
    r
}

/// Parse an origin remote URL into (host, "owner/repo", domain).
pub fn parse_remote(url: &str) -> (r: (Option<Host>, Option<String>, Option<String>))
    ensures
        r.0 == remote_host(url@),
        opt_view(r.1) == remote_slug(url@),
        opt_view(r.2) == remote_domain(url@),
{
    let u = chars_of(url);
    let sch = chars_of("://");
    let a = match rfind_chars(&u, &sch) {
        Some(i) => {
            proof {
                lemma_rfind(u@, sch@);
                assert(occurs_at(u@, sch@, i as int));
                reveal_strlit("://");
            }
            let ul = u.len();
            assert(i + 3 <= ul);
            let start: usize = i + 3;
            slice_of(&u, start, ul)
        },
        None => slice_of(&u, 0, u.len()),
    };
    proof {
        assert(a@ =~= after_scheme(url@));
    }
    let at = char_pos_from(&a, '@', 0);
    proof {
        assert(a@.skip(0) =~= a@);
    }
    let tail = if at < a.len() {
        slice_of(&a, at + 1, a.len())
    } else {
        a
    };
    proof {
        assert(tail@ =~= after_user(after_scheme(url@)));
    }
    let mut p: usize = 0;
    while p < tail.len() && tail[p] != '/' && tail[p] != ':'
        invariant
            p <= tail@.len(),
            forall|k: int| 0 <= k < p ==> #[trigger] tail@[k] != '/' && tail@[k] != ':',
        decreases tail.len() - p,
    {
        p = p + 1;
    }
    proof {
        lemma_host_end(tail@, p as int);
    }
    let domain_raw = slice_of(&tail, 0, p);
    let part = if p < tail.len() {
        slice_of(&tail, p + 1, tail.len())
    } else {
        Vec::new()
    };
    proof {
        assert(domain_raw@ =~= remote_domain_raw(url@));
        if p < tail@.len() {
            assert(part@ =~= tail@.skip(p + 1));
        } else {
            assert(part@ =~= Seq::<char>::empty());
        }
    }
    let path = trim_suffix_all_exec(&trim_end_char_chars(&part, '/'), ".git");
    let host = if contains_str(&domain_raw, "github.com") {
        Some(Host::Github)
    } else if contains_str(&domain_raw, "gitlab") {
        Some(Host::Gitlab)
    } else {
        None
    };
    let parts = nonempty_exec(&split_chars(&path, '/'));
    let n = parts.len();
    let slug = if n >= 2 {
        proof {
            assert(views(parts@)[n - 2] == parts@[n - 2]@);
            assert(views(parts@)[n - 1] == parts@[n - 1]@);
        }
        let mut s = slice_of(&parts[n - 2], 0, parts[n - 2].len());
        s.push('/');
        push_all(&mut s, &parts[n - 1]);
        proof {
            assert(s@ =~= parts@[n - 2]@ + "/"@ + parts@[n - 1]@) by {
                reveal_strlit("/");
            }
        }
        Some(string_from(&s))
    } else {
        None
    };
    let domain = if domain_raw.len() > 0 {
        Some(string_from(&domain_raw))
    } else {
        None
    };
    (host, slug, domain)
}

// ───────────────────────────── display names ─────────────────────────────

/// Longest README title shown as a card name.
pub const MAX_TITLE_CHARS: usize = 40;

/// A README H1 that reads like a project name, not a legal notice or an
/// overview banner.
pub open spec fn title_usable(title: Seq<char>) -> bool {
    let n = title.len();
    let lower = lowercase(title);
    if n == 0 || n > MAX_TITLE_CHARS {
        false
    } else if contains(lower, "legal notice"@) || contains(lower, "modules overview"@) || contains(
        lower,
        "ownership"@,
    ) || contains(lower, "copyright"@) || ends_with(lower, " overview"@) || (contains(
        lower,
        " & "@,
    ) && n > 24) {
        false
    } else if contains(title, "إشعار"@) || contains(title, "ملكية"@) || contains(title, "تحذير"@) {
        false
    } else {
        true
    }
}

/// Whether a README H1 can serve as the card title.
pub fn usable_readme_title(title: &str) -> (r: bool)
    ensures
        r == title_usable(title@),
{
    let t = chars_of(title);
    let n = t.len();
    if n == 0 || n > MAX_TITLE_CHARS {
        return false;
    }
    let lower = to_lowercase(&t);
    if contains_str(&lower, "legal notice") || contains_str(&lower, "modules overview")
        || contains_str(&lower, "ownership") || contains_str(&lower, "copyright") || ends_with_str(
        &lower,
        " overview",
    ) || (contains_str(&lower, " & ") && n > 24) {
        return false;
    }
    if contains_str(&t, "إشعار") || contains_str(&t, "ملكية") || contains_str(&t, "تحذير") {
        return false;
    }
    true
}

/// The card title: a usable README H1, else the remote repo name, else the
/// directory name.
pub open spec fn display_name_of(
    readme_title: Option<Seq<char>>,
    slug: Option<Seq<char>>,
    dir_name: Seq<char>,
) -> Seq<char> {
    match readme_title {
        Some(t) if title_usable(t) => t,
        _ => match slug {
            Some(s) => after_last(s, '/'),
            None => dir_name,
        },
    }
}

/// Without a usable README title, a remote slug names the card by its last
/// '/'-segment whatever the directory is called: the name is a suffix of the
/// slug holding no '/', reaching back to a '/' or to the slug's start, and
/// two directories with the same title and slug get the same name. Without a
/// slug the directory name is used, and a usable title is kept as it is.
pub proof fn law_display_name_from_slug(
    title: Option<Seq<char>>,
    s: Seq<char>,
    d1: Seq<char>,
    d2: Seq<char>,
)
    ensures
        display_name_of(title, Some(s), d1) == display_name_of(title, Some(s), d2),
        (title is None || !title_usable(title->0)) ==> {
            let r = display_name_of(title, Some(s), d1);
            &&& r.len() <= s.len()
            &&& r == s.subrange(s.len() - r.len(), s.len() as int)
            &&& forall|i: int| 0 <= i < r.len() ==> r[i] != '/'
            &&& (r.len() == s.len() || s[s.len() - r.len() - 1] == '/')
        },
        (title is None || !title_usable(title->0)) ==> display_name_of(title, None, d1) == d1,
        (title is Some && title_usable(title->0)) ==> display_name_of(title, Some(s), d1) == title->0
            && display_name_of(title, None, d1) == title->0,
{
    let slash = seq!['/'];
    lemma_rfind(s, slash);
    let r = after_last(s, '/');
    match rfind(s, slash) {
        Some(k) => {
            assert(s.subrange(k, k + 1) == slash);
            assert(s[k] == slash[0]);
            assert(r =~= s.subrange(k + 1, s.len() as int));
            assert forall|i: int| 0 <= i < r.len() implies r[i] != '/' by {
                if r[i] == '/' {
                    assert(s.subrange(k + 1 + i, k + 2 + i) =~= slash);
                    assert(occurs_at(s, slash, k + 1 + i));
                }
            }
        },
        None => {
            assert(r == s);
            assert(r =~= s.subrange(0, s.len() as int));
            assert forall|i: int| 0 <= i < r.len() implies r[i] != '/' by {
                if r[i] == '/' {
                    assert(s.subrange(i, i + 1) =~= slash);
                    assert(occurs_at(s, slash, i));
                }
            }
        },
    }
}

/// Pick a card title: a short README H1 when it looks like a project name,
/// otherwise the remote repo short name, then the directory basename.
pub fn resolve_display_name(readme_title: Option<String>, slug: Option<&str>, dir_name: &str) -> (r:
    String)
    ensures
        r@ == display_name_of(
            opt_view(readme_title),
            match slug {
                Some(s) => Some(s@),
                None => None,
            },
            dir_name@,
        ),
{
    match readme_title {
        Some(t) => {
            if usable_readme_title(t.as_str()) {
                return t;
            }
        },
        None => {},
    }
    match slug {
        Some(s) => string_from(&after_last_chars(&chars_of(s), '/')),
        None => string_from(&chars_of(dir_name)),
    }
}

/// Cut `s` to `max` characters plus an ellipsis when it is longer.
pub fn truncate(s: &str, max: usize) -> (r: String)
    ensures
        r@ == truncated(s@, max as nat),
{
    crate::inbox::truncate(string_from(&chars_of(s)), max)
}


// ───────────────────────────── README ─────────────────────────────

/// `*`, `` ` `` and `_`: inline emphasis and code marks.
pub open spec fn emphasis_mark(c: char) -> bool {
    c == '*' || c == '`' || c == '_'
}

/// `s` without emphasis marks.
pub open spec fn unmarked(s: Seq<char>) -> Seq<char>
    decreases s.len(),
{
    if s.len() == 0 {
        Seq::empty()
    } else if emphasis_mark(s.last()) {
        unmarked(s.drop_last())
    } else {
        unmarked(s.drop_last()).push(s.last())
    }
}

/// Every `[text](url)` collapsed to `text`, left to right.
pub open spec fn collapse_links(rest: Seq<char>) -> Seq<char>
    decreases rest.len(),
{
    match find(rest, seq![']', '(']) {
        None => rest,
        Some(b) => match rfind(rest.take(b), seq!['[']) {
            None => rest,
            Some(o) => {
                if b < 0 || o < 0 || b + 2 > rest.len() || o + 1 > b {
                    rest
                } else {
                    let after = rest.skip(b + 2);
                    let c = char_pos(after, ')');
                    if c < after.len() {
                        rest.take(o) + rest.subrange(o + 1, b) + collapse_links(after.skip(c + 1 as int))
                    } else {
                        rest.take(o) + rest.subrange(o + 1, b) + after
                    }
                }
            },
        },
    }
}

/// Inline markdown stripped so titles and descriptions read cleanly.
pub open spec fn cleaned_markdown(s: Seq<char>) -> Seq<char> {
    trim(collapse_links(unmarked(s)))
}

fn unmarked_exec(s: &[char]) -> (r: Vec<char>)
    ensures
        r@ == unmarked(s@),
{
    let mut r: Vec<char> = Vec::new();
    let mut k: usize = 0;
    while k < s.len()
        invariant
            k <= s@.len(),
            r@ == unmarked(s@.take(k as int)),
        decreases s.len() - k,
    {
        proof {
            assert(s@.take(k + 1).drop_last() =~= s@.take(k as int));
            assert(s@.take(k + 1).last() == s@[k as int]);
        }
        let c = s[k];
        if !(c == '*' || c == '`' || c == '_') {
            r.push(c);
        }
        k = k + 1;
    }
    proof {
        assert(s@.take(s@.len() as int) =~= s@);
    }
    r
}

/// Strip the most common inline markdown (emphasis marks, link targets).
pub fn clean_markdown(s: &str) -> (r: String)
    ensures
        r@ == cleaned_markdown(s@),
{
    let stripped = unmarked_exec(&chars_of(s));
    let mut out: Vec<char> = Vec::new();
    let mut rest: Vec<char> = stripped;
    let ghost whole = rest@;
    let close_link = chars_of("](");
    let open_link = chars_of("[");
    proof {
        reveal_strlit("](");
        reveal_strlit("[");
        assert(close_link@ =~= seq![']', '(']);
        assert(open_link@ =~= seq!['[']);
    }
    let mut done = false;
    while !done
        invariant
            close_link@ == seq![']', '('],
            open_link@ == seq!['['],
            done ==> out@ + rest@ == collapse_links(whole),
            !done ==> out@ + collapse_links(rest@) == collapse_links(whole),
        decreases rest@.len() + if done {
            0int
        } else {
            1int
        },
    {
        match find_chars(&rest, &close_link) {
            None => {
                done = true;
            },
            Some(b) => {
                proof {
                    lemma_find(rest@, close_link@);
                    assert(occurs_at(rest@, close_link@, b as int));
                }
                let head = slice_of(&rest, 0, b);
                proof {
                    assert(head@ =~= rest@.take(b as int));
                }
                match rfind_chars(&head, &open_link) {
                    None => {
                        done = true;
                    },
                    Some(o) => {
                        proof {
                            lemma_rfind(head@, open_link@);
                            assert(occurs_at(head@, open_link@, o as int));
                        }
                        let ghost old_rest = rest@;
                        let rl = rest.len();
                        assert(b + 2 <= rl);
                        let from: usize = b + 2;
                        push_all(&mut out, &slice_of(&rest, 0, o));
                        push_all(&mut out, &slice_of(&rest, o + 1, b));
                        let after = slice_of(&rest, from, rl);
                        let c = char_pos_from(&after, ')', 0);
                        proof {
                            assert(after@ =~= old_rest.skip(b + 2));
                            assert(after@.skip(0) =~= after@);
                            assert(old_rest.subrange(0, o as int) =~= old_rest.take(o as int));
                        }
                        if c < after.len() {
                            rest = slice_of(&after, c + 1, after.len());
                            proof {
                                assert(rest@ =~= after@.skip(c + 1));
                            }
                        } else {
                            rest = after;
                            done = true;
                        }
                    },
                }
            },
        }
    }
    push_all(&mut out, &rest);
    string_from(&trim_chars(&out))
}

/// Whether `s` takes more than three UTF-8 bytes.
fn utf8_longer_than_three(s: &[char]) -> (r: bool)
    ensures
        r == (utf8_len(s@) > 3),
{
    let mut n: usize = 0;
    let mut k: usize = 0;
    while k < s.len()
        invariant
            k <= s@.len(),
            n == utf8_len(s@.take(k as int)),
            n <= 3,
        decreases s.len() - k,
    {
        proof {
            assert(s@.take(k + 1).drop_last() =~= s@.take(k as int));
            assert(s@.take(k + 1).last() == s@[k as int]);
        }
        let c = s[k] as u32;
        if c < 0x80 {
            n = n + 1;
        } else if c < 0x800 {
            n = n + 2;
        } else if c < 0x10000 {
            n = n + 3;
        } else {
            n = n + 4;
        }
        k = k + 1;
        if n > 3 {
            proof {
                lemma_utf8_len_mono(s@, k as int);
            }
            return true;
        }
    }
    proof {
        assert(s@.take(s@.len() as int) =~= s@);
    }
    false
}

/// Longest README description kept, in characters.
pub const DESCRIPTION_CHARS: usize = 200;

/// A line that can describe the repo (not a heading, badge, image, HTML, rule,
/// list, table or quote).
pub open spec fn describes(line: Seq<char>) -> bool {
    !(starts_with(line, "#"@) || starts_with(line, "["@) || starts_with(line, "!"@) || starts_with(
        line,
        "<"@,
    ) || starts_with(line, "="@) || starts_with(line, "-"@) || starts_with(line, "|"@)
        || starts_with(line, ">"@))
}

/// README title (first `# ` heading) and description (first descriptive line
/// longer than three bytes once cleaned, cut to 200 characters), scanning
/// lines from `i`.
pub open spec fn readme_scan(
    ls: Seq<Seq<char>>,
    i: int,
    title: Option<Seq<char>>,
    desc: Option<Seq<char>>,
) -> (Option<Seq<char>>, Option<Seq<char>>)
    decreases ls.len() - i,
{
    if i < 0 || i >= ls.len() {
        (title, desc)
    } else {
        let line = trim(ls[i]);
        if line.len() == 0 {
            readme_scan(ls, i + 1, title, desc)
        } else if title is None && strip_prefix(line, "# "@) is Some {
            let cleaned = cleaned_markdown(strip_prefix(line, "# "@)->0);
            readme_scan(
                ls,
                i + 1,
                if cleaned.len() > 0 {
                    Some(cleaned)
                } else {
                    None
                },
                desc,
            )
        } else if desc is None && describes(line) && utf8_len(cleaned_markdown(line)) > 3 {
            readme_scan(
                ls,
                i + 1,
                title,
                Some(truncated(cleaned_markdown(line), DESCRIPTION_CHARS as nat)),
            )
        } else {
            readme_scan(ls, i + 1, title, desc)
        }
    }
}

/// (title from the first H1, first descriptive paragraph line) of README text.
pub fn read_readme(content: &str) -> (r: (Option<String>, Option<String>))
    ensures
        (opt_view(r.0), opt_view(r.1)) == readme_scan(lines(content@), 0, None, None),
{
    let ls = lines_of(&chars_of(content));
    let ghost lv = views(ls@);
    let mut title: Option<String> = None;
    let mut desc: Option<String> = None;
    let mut k: usize = 0;
    while k < ls.len()
        invariant
            k <= ls@.len(),
            lv == views(ls@),
            readme_scan(lv, k as int, opt_view(title), opt_view(desc)) == readme_scan(
                lv,
                0,
                None,
                None,
            ),
        decreases ls.len() - k,
    {
        proof {
            assert(lv[k as int] == ls@[k as int]@);
        }
        let line = trim_chars(&ls[k]);
        if line.len() == 0 {
            k = k + 1;
            continue;
        }
        if title.is_none() {
            match strip_prefix_str(&line, "# ") {
                Some(h1) => {
                    let cleaned = clean_markdown(string_from(&h1).as_str());
                    if cleaned.unicode_len() > 0 {
                        title = Some(cleaned);
                    }
                    k = k + 1;
                    continue;
                },
                None => {},
            }
        }
        if desc.is_none() && !(starts_with_str(&line, "#") || starts_with_str(&line, "[")
            || starts_with_str(&line, "!") || starts_with_str(&line, "<") || starts_with_str(
            &line,
            "=",
        ) || starts_with_str(&line, "-") || starts_with_str(&line, "|") || starts_with_str(
            &line,
            ">",
        )) {
            let cleaned = clean_markdown(string_from(&line).as_str());
            if utf8_longer_than_three(&chars_of(cleaned.as_str())) {
                desc = Some(crate::inbox::truncate(cleaned, DESCRIPTION_CHARS));
            }
        }
        k = k + 1;
    }
    (title, desc)
}

// ───────────────────────────── .gitmodules ─────────────────────────────

/// One `[submodule]` entry: checkout path plus optional tracking branch.
#[derive(Debug, Clone, PartialEq, Eq)]
pub struct SubmoduleEntry {
    pub path: String,
    pub branch: Option<String>,
}

/// (path, branch) of an entry.
pub open spec fn entry_view(e: SubmoduleEntry) -> (Seq<char>, Option<Seq<char>>) {
    (e.path@, opt_view(e.branch))
}

pub open spec fn entry_views(v: Seq<SubmoduleEntry>) -> Seq<(Seq<char>, Option<Seq<char>>)> {
    v.map_values(|e: SubmoduleEntry| entry_view(e))
}

/// The value of `key = value` on a trimmed line.
pub open spec fn key_value(t: Seq<char>, key: Seq<char>) -> Option<Seq<char>> {
    match strip_prefix(t, key) {
        Some(r) => match strip_prefix(trim_start(r), "="@) {
            Some(v) => Some(trim(v)),
            None => None,
        },
        None => None,
    }
}

/// Close a section: keep its entry when it has a usable path (a branch only
/// when non-empty).
pub open spec fn flushed(
    out: Seq<(Seq<char>, Option<Seq<char>>)>,
    path: Option<Seq<char>>,
    branch: Option<Seq<char>>,
) -> Seq<(Seq<char>, Option<Seq<char>>)> {
    match path {
        Some(p) => if p.len() > 0 && !p.contains('\0') {
            out.push(
                (
                    p,
                    match branch {
                        Some(b) => if b.len() > 0 {
                            Some(b)
                        } else {
                            None
                        },
                        None => None,
                    },
                ),
            )
        } else {
            out
        },
        None => out,
    }
}

/// Parser state: entries so far, the open section's path and branch, and
/// whether a `[submodule …]` section is open.
pub struct ModulesState {
    pub out: Seq<(Seq<char>, Option<Seq<char>>)>,
    pub path: Option<Seq<char>>,
    pub branch: Option<Seq<char>>,
    pub in_sub: bool,
}

/// One line of `.gitmodules`.
pub open spec fn modules_step(s: ModulesState, line: Seq<char>) -> ModulesState {
    let t = trim(line);
    if starts_with(t, "["@) {
        let in_sub = starts_with(lower_ascii(t), "[submodule"@);
        if s.in_sub {
            ModulesState { out: flushed(s.out, s.path, s.branch), path: None, branch: None, in_sub }
        } else {
            ModulesState { in_sub, ..s }
        }
    } else if !s.in_sub {
        s
    } else if key_value(t, "path"@) is Some {
        ModulesState { path: key_value(t, "path"@), ..s }
    } else if key_value(t, "branch"@) is Some {
        ModulesState { branch: key_value(t, "branch"@), ..s }
    } else {
        s
    }
}

pub open spec fn modules_scan(ls: Seq<Seq<char>>) -> ModulesState
    decreases ls.len(),
{
    if ls.len() == 0 {
        ModulesState { out: Seq::empty(), path: None, branch: None, in_sub: false }
    } else {
        modules_step(modules_scan(ls.drop_last()), ls.last())
    }
}

/// The entries `.gitmodules` text declares, in order.
pub open spec fn gitmodules_entries(text: Seq<char>) -> Seq<(Seq<char>, Option<Seq<char>>)> {
    let s = modules_scan(lines(text));
    if s.in_sub {
        flushed(s.out, s.path, s.branch)
    } else {
        s.out
    }
}

fn key_value_exec(t: &[char], key: &str) -> (r: Option<Vec<char>>)
    ensures
        match r {
            Some(v) => key_value(t@, key@) == Some(v@),
            None => key_value(t@, key@) is None,
        },
{
    match strip_prefix_str(t, key) {
        Some(r) => match strip_prefix_str(&trim_start_chars(&r), "=") {
            Some(v) => Some(trim_chars(&v)),
            None => None,
        },
        None => None,
    }
}

fn flush_exec(out: &mut Vec<SubmoduleEntry>, path: Option<Vec<char>>, branch: Option<Vec<char>>)
    ensures
        entry_views(final(out)@) == flushed(
            entry_views(old(out)@),
            match path {
                Some(p) => Some(p@),
                None => None,
            },
            match branch {
                Some(b) => Some(b@),
                None => None,
            },
        ),
{
    match path {
        Some(p) => {
            if p.len() > 0 && !crate::text::has_char(&p, '\0') {
                let b = match branch {
                    Some(b) => if b.len() > 0 {
                        Some(string_from(&b))
                    } else {
                        None
                    },
                    None => None,
                };
                let e = SubmoduleEntry { path: string_from(&p), branch: b };
                proof {
                    assert(entry_views(out@.push(e)) =~= entry_views(out@).push(entry_view(e)));
                }
                out.push(e);
            }
        },
        None => {},
    }
}

/// Parse `.gitmodules` text into path + optional `branch` per submodule section.
pub fn submodule_entries(gitmodules: &str) -> (r: Vec<SubmoduleEntry>)
    ensures
        entry_views(r@) == gitmodules_entries(gitmodules@),
{
    let ls = lines_of(&chars_of(gitmodules));
    let ghost lv = views(ls@);
    let mut out: Vec<SubmoduleEntry> = Vec::new();
    let mut path: Option<Vec<char>> = None;
    let mut branch: Option<Vec<char>> = None;
    let mut in_sub = false;
    let mut k: usize = 0;
    proof {
        assert(entry_views(out@) =~= Seq::<(Seq<char>, Option<Seq<char>>)>::empty());
        assert(lv.take(0) =~= Seq::<Seq<char>>::empty());
    }
    while k < ls.len()
        invariant
            k <= ls@.len(),
            lv == views(ls@),
            modules_scan(lv.take(k as int)) == (ModulesState {
                out: entry_views(out@),
                path: match path {
                    Some(p) => Some(p@),
                    None => None,
                },
                branch: match branch {
                    Some(b) => Some(b@),
                    None => None,
                },
                in_sub,
            }),
        decreases ls.len() - k,
    {
        proof {
            assert(lv.take(k + 1).drop_last() =~= lv.take(k as int));
            assert(lv.take(k + 1).last() == ls@[k as int]@);
        }
        let t = trim_chars(&ls[k]);
        if starts_with_str(&t, "[") {
            let now_sub = starts_with_str(&lower_ascii_chars(&t), "[submodule");
            if in_sub {
                let p = path;
                let b = branch;
                flush_exec(&mut out, p, b);
                path = None;
                branch = None;
            }
            in_sub = now_sub;
        } else if in_sub {
            match key_value_exec(&t, "path") {
                Some(v) => {
                    path = Some(v);
                },
                None => match key_value_exec(&t, "branch") {
                    Some(v) => {
                        branch = Some(v);
                    },
                    None => {},
                },
            }
        }
        k = k + 1;
    }
    proof {
        assert(lv.take(ls@.len() as int) =~= lv);
    }
    if in_sub {
        flush_exec(&mut out, path, branch);
    }
    out
}

/// Repo-relative submodule paths declared in `.gitmodules` text.
pub fn submodule_paths(gitmodules: &str) -> (r: Vec<String>)
    ensures
        r@.len() == gitmodules_entries(gitmodules@).len(),
        forall|i: int| 0 <= i < r@.len() ==> #[trigger] r@[i]@ == gitmodules_entries(gitmodules@)[i].0,
{
    let es = submodule_entries(gitmodules);
    let mut r: Vec<String> = Vec::new();
    let mut k: usize = 0;
    while k < es.len()
        invariant
            k <= es@.len(),
            entry_views(es@) == gitmodules_entries(gitmodules@),
            r@.len() == k,
            forall|i: int| 0 <= i < k ==> #[trigger] r@[i]@ == es@[i].path@,
        decreases es.len() - k,
    {
        r.push(es[k].path.clone());
        k = k + 1;
    }
    proof {
        assert forall|i: int| 0 <= i < r@.len() implies #[trigger] r@[i]@ == gitmodules_entries(
            gitmodules@,
        )[i].0 by {
            assert(entry_views(es@)[i] == entry_view(es@[i]));
        }
    }
    r
}

// ───────────────────────────── language ─────────────────────────────

/// The language a project manifest file name announces.
pub open spec fn manifest_language(name: Seq<char>) -> Option<Seq<char>> {
    if name == "Cargo.toml"@ {
        Some("Rust"@)
    } else if name == "go.mod"@ {
        Some("Go"@)
    } else if name == "pyproject.toml"@ {
        Some("Python"@)
    } else if name == "requirements.txt"@ {
        Some("Python"@)
    } else if name == "setup.py"@ {
        Some("Python"@)
    } else if name == "Gemfile"@ {
        Some("Ruby"@)
    } else if name == "composer.json"@ {
        Some("PHP"@)
    } else if name == "pom.xml"@ {
        Some("Java"@)
    } else if name == "build.gradle"@ {
        Some("Java"@)
    } else if name == "pubspec.yaml"@ {
        Some("Dart"@)
    } else if name == "mix.exs"@ {
        Some("Elixir"@)
    } else if name == "CMakeLists.txt"@ {
        Some("C++"@)
    } else {
        None
    }
}
/// The language a root directory listing announces: the first manifest (in
/// table order) present, then `package.json` (TypeScript with a `tsconfig.json`).
pub open spec fn root_manifest_language(files: Seq<Seq<char>>) -> Option<Seq<char>> {
    if files.contains("Cargo.toml"@) {
        Some("Rust"@)
    } else if files.contains("go.mod"@) {
        Some("Go"@)
    } else if files.contains("pyproject.toml"@) {
        Some("Python"@)
    } else if files.contains("requirements.txt"@) {
        Some("Python"@)
    } else if files.contains("setup.py"@) {
        Some("Python"@)
    } else if files.contains("Gemfile"@) {
        Some("Ruby"@)
    } else if files.contains("composer.json"@) {
        Some("PHP"@)
    } else if files.contains("pom.xml"@) {
        Some("Java"@)
    } else if files.contains("build.gradle"@) {
        Some("Java"@)
    } else if files.contains("pubspec.yaml"@) {
        Some("Dart"@)
    } else if files.contains("mix.exs"@) {
        Some("Elixir"@)
    } else if files.contains("CMakeLists.txt"@) {
        Some("C++"@)
    } else if files.contains("package.json"@) {
        if files.contains("tsconfig.json"@) {
            Some("TypeScript"@)
        } else {
            Some("JavaScript"@)
        }
    } else {
        None
    }
}
fn has_name(files: &[String], name: &str) -> (r: bool)
    ensures
        r == str_views(files@).contains(name@),
{
    let mut k: usize = 0;
    while k < files.len()
        invariant
            k <= files@.len(),
            forall|m: int| 0 <= m < k ==> files@[m]@ != name@,
        decreases files.len() - k,
    {
        if str_eq(files[k].as_str(), name) {
            proof {
                assert(str_views(files@)[k as int] == name@);
            }
            return true;
        }
        k = k + 1;
    }
    proof {
        if str_views(files@).contains(name@) {
            let m = choose|m: int| 0 <= m < str_views(files@).len() && str_views(files@)[m] == name@;
            assert(files@[m]@ == name@);
        }
    }
    false
}

/// Primary language from the names of the files in a repo's root directory.
pub fn root_language(files: &[String]) -> (r: Option<String>)
    ensures
        opt_view(r) == root_manifest_language(str_views(files@)),
{
    if has_name(files, "Cargo.toml") {
        return Some(string_from(&chars_of("Rust")));
    }
    if has_name(files, "go.mod") {
        return Some(string_from(&chars_of("Go")));
    }
    if has_name(files, "pyproject.toml") {
        return Some(string_from(&chars_of("Python")));
    }
    if has_name(files, "requirements.txt") {
        return Some(string_from(&chars_of("Python")));
    }
    if has_name(files, "setup.py") {
        return Some(string_from(&chars_of("Python")));
    }
    if has_name(files, "Gemfile") {
        return Some(string_from(&chars_of("Ruby")));
    }
    if has_name(files, "composer.json") {
        return Some(string_from(&chars_of("PHP")));
    }
    if has_name(files, "pom.xml") {
        return Some(string_from(&chars_of("Java")));
    }
    if has_name(files, "build.gradle") {
        return Some(string_from(&chars_of("Java")));
    }
    if has_name(files, "pubspec.yaml") {
        return Some(string_from(&chars_of("Dart")));
    }
    if has_name(files, "mix.exs") {
        return Some(string_from(&chars_of("Elixir")));
    }
    if has_name(files, "CMakeLists.txt") {
        return Some(string_from(&chars_of("C++")));
    }
    if has_name(files, "package.json") {
        if has_name(files, "tsconfig.json") {
            return Some(string_from(&chars_of("TypeScript")));
        }
        return Some(string_from(&chars_of("JavaScript")));
    }
    None
}

/// Source extension (lower-cased) → language; code languages only.
pub open spec fn ext_language(e: Seq<char>) -> Option<Seq<char>> {
    if e == "rs"@ {
        Some("Rust"@)
    } else if e == "ts"@ {
        Some("TypeScript"@)
    } else if e == "tsx"@ {
        Some("TypeScript"@)
    } else if e == "mts"@ {
        Some("TypeScript"@)
    } else if e == "cts"@ {
        Some("TypeScript"@)
    } else if e == "js"@ {
        Some("JavaScript"@)
    } else if e == "jsx"@ {
        Some("JavaScript"@)
    } else if e == "mjs"@ {
        Some("JavaScript"@)
    } else if e == "cjs"@ {
        Some("JavaScript"@)
    } else if e == "py"@ {
        Some("Python"@)
    } else if e == "pyi"@ {
        Some("Python"@)
    } else if e == "go"@ {
        Some("Go"@)
    } else if e == "rb"@ {
        Some("Ruby"@)
    } else if e == "java"@ {
        Some("Java"@)
    } else if e == "kt"@ {
        Some("Kotlin"@)
    } else if e == "kts"@ {
        Some("Kotlin"@)
    } else if e == "swift"@ {
        Some("Swift"@)
    } else if e == "c"@ {
        Some("C"@)
    } else if e == "h"@ {
        Some("C"@)
    } else if e == "cpp"@ {
        Some("C++"@)
    } else if e == "cc"@ {
        Some("C++"@)
    } else if e == "cxx"@ {
        Some("C++"@)
    } else if e == "hpp"@ {
        Some("C++"@)
    } else if e == "hh"@ {
        Some("C++"@)
    } else if e == "cs"@ {
        Some("C#"@)
    } else if e == "php"@ {
        Some("PHP"@)
    } else if e == "sh"@ {
        Some("Shell"@)
    } else if e == "bash"@ {
        Some("Shell"@)
    } else if e == "zsh"@ {
        Some("Shell"@)
    } else if e == "lua"@ {
        Some("Lua"@)
    } else if e == "zig"@ {
        Some("Zig"@)
    } else if e == "vue"@ {
        Some("Vue"@)
    } else if e == "svelte"@ {
        Some("Svelte"@)
    } else if e == "dart"@ {
        Some("Dart"@)
    } else if e == "ex"@ {
        Some("Elixir"@)
    } else if e == "exs"@ {
        Some("Elixir"@)
    } else if e == "hs"@ {
        Some("Haskell"@)
    } else if e == "scala"@ {
        Some("Scala"@)
    } else if e == "sc"@ {
        Some("Scala"@)
    } else if e == "nix"@ {
        Some("Nix"@)
    } else if e == "nim"@ {
        Some("Nim"@)
    } else if e == "clj"@ {
        Some("Clojure"@)
    } else if e == "cljs"@ {
        Some("Clojure"@)
    } else if e == "erl"@ {
        Some("Erlang"@)
    } else if e == "ml"@ {
        Some("OCaml"@)
    } else {
        None
    }
}
fn ext_lookup(k: &str) -> (r: Option<&'static str>)
    ensures
        match r {
            Some(l) => ext_language(k@) == Some(l@),
            None => ext_language(k@) is None,
        },
{
    if str_eq(k, "rs") {
        Some("Rust")
    } else if str_eq(k, "ts") {
        Some("TypeScript")
    } else if str_eq(k, "tsx") {
        Some("TypeScript")
    } else if str_eq(k, "mts") {
        Some("TypeScript")
    } else if str_eq(k, "cts") {
        Some("TypeScript")
    } else if str_eq(k, "js") {
        Some("JavaScript")
    } else if str_eq(k, "jsx") {
        Some("JavaScript")
    } else if str_eq(k, "mjs") {
        Some("JavaScript")
    } else if str_eq(k, "cjs") {
        Some("JavaScript")
    } else if str_eq(k, "py") {
        Some("Python")
    } else if str_eq(k, "pyi") {
        Some("Python")
    } else if str_eq(k, "go") {
        Some("Go")
    } else if str_eq(k, "rb") {
        Some("Ruby")
    } else if str_eq(k, "java") {
        Some("Java")
    } else if str_eq(k, "kt") {
        Some("Kotlin")
    } else if str_eq(k, "kts") {
        Some("Kotlin")
    } else if str_eq(k, "swift") {
        Some("Swift")
    } else if str_eq(k, "c") {
        Some("C")
    } else if str_eq(k, "h") {
        Some("C")
    } else if str_eq(k, "cpp") {
        Some("C++")
    } else if str_eq(k, "cc") {
        Some("C++")
    } else if str_eq(k, "cxx") {
        Some("C++")
    } else if str_eq(k, "hpp") {
        Some("C++")
    } else if str_eq(k, "hh") {
        Some("C++")
    } else if str_eq(k, "cs") {
        Some("C#")
    } else if str_eq(k, "php") {
        Some("PHP")
    } else if str_eq(k, "sh") {
        Some("Shell")
    } else if str_eq(k, "bash") {
        Some("Shell")
    } else if str_eq(k, "zsh") {
        Some("Shell")
    } else if str_eq(k, "lua") {
        Some("Lua")
    } else if str_eq(k, "zig") {
        Some("Zig")
    } else if str_eq(k, "vue") {
        Some("Vue")
    } else if str_eq(k, "svelte") {
        Some("Svelte")
    } else if str_eq(k, "dart") {
        Some("Dart")
    } else if str_eq(k, "ex") {
        Some("Elixir")
    } else if str_eq(k, "exs") {
        Some("Elixir")
    } else if str_eq(k, "hs") {
        Some("Haskell")
    } else if str_eq(k, "scala") {
        Some("Scala")
    } else if str_eq(k, "sc") {
        Some("Scala")
    } else if str_eq(k, "nix") {
        Some("Nix")
    } else if str_eq(k, "nim") {
        Some("Nim")
    } else if str_eq(k, "clj") {
        Some("Clojure")
    } else if str_eq(k, "cljs") {
        Some("Clojure")
    } else if str_eq(k, "erl") {
        Some("Erlang")
    } else if str_eq(k, "ml") {
        Some("OCaml")
    } else {
        None
    }
}

/// The language a file extension indicates (ASCII case-insensitive).
pub fn extension_language(ext: &str) -> (r: Option<String>)
    ensures
        opt_view(r) == ext_language(lower_ascii(ext@)),
{
    let k = string_from(&lower_ascii_chars(&chars_of(ext)));
    match ext_lookup(k.as_str()) {
        Some(l) => Some(string_from(&chars_of(l))),
        None => None,
    }
}

/// Directory names pruned from the language scan (VCS, dependencies, build
/// output, virtualenvs).
pub open spec fn vendored_dir(name: Seq<char>) -> bool {
    name == ".git"@
    || name == "node_modules"@
    || name == "target"@
    || name == "dist"@
    || name == "build"@
    || name == "out"@
    || name == "vendor"@
    || name == "venv"@
    || name == ".venv"@
    || name == "__pycache__"@
    || name == ".next"@
    || name == ".svelte-kit"@
    || name == "Pods"@
}
/// Whether the language scan prunes this directory entry: a vendored name, or
/// a hidden directory below the root.
pub fn skip_dir(name: &str, depth: usize, is_dir: bool) -> (r: bool)
    ensures
        r == (vendored_dir(name@) || (depth > 0 && is_dir && starts_with(name@, "."@))),
{
    str_eq(name, ".git") || str_eq(name, "node_modules") || str_eq(name, "target") || str_eq(name, "dist") || str_eq(name, "build") || str_eq(name, "out") || str_eq(name, "vendor") || str_eq(name, "venv") || str_eq(name, ".venv") || str_eq(name, "__pycache__") || str_eq(name, ".next") || str_eq(name, ".svelte-kit") || str_eq(name, "Pods") || (depth > 0 && is_dir && starts_with_str(&chars_of(name), "."))
}

/// Occurrences of `x` in `s`.
pub open spec fn occurrences(s: Seq<Seq<char>>, x: Seq<char>) -> nat
    decreases s.len(),
{
    if s.len() == 0 {
        0
    } else {
        occurrences(s.drop_last(), x) + if s.last() == x {
            1nat
        } else {
            0nat
        }
    }
}

proof fn lemma_occurrences_bound(s: Seq<Seq<char>>, x: Seq<char>)
    ensures
        occurrences(s, x) <= s.len(),
    decreases s.len(),
{
    if s.len() > 0 {
        lemma_occurrences_bound(s.drop_last(), x);
    }
}

fn count_of(s: &[String], x: &[char]) -> (r: usize)
    ensures
        r == occurrences(str_views(s@), x@),
{
    let mut n: usize = 0;
    let mut k: usize = 0;
    while k < s.len()
        invariant
            k <= s@.len(),
            n == occurrences(str_views(s@).take(k as int), x@),
        decreases s.len() - k,
    {
        proof {
            assert(str_views(s@).take(k + 1).drop_last() =~= str_views(s@).take(k as int));
            assert(str_views(s@).take(k + 1).last() == s@[k as int]@);
            lemma_occurrences_bound(str_views(s@).take(k as int), x@);
        }
        if crate::text::chars_eq(&chars_of(s[k].as_str()), x) {
            n = n + 1;
        }
        k = k + 1;
    }
    proof {
        assert(str_views(s@).take(s@.len() as int) =~= str_views(s@));
    }
    n
}

/// `l` is the most frequent of `langs`, the alphabetically first among ties.
pub open spec fn majority(langs: Seq<Seq<char>>, l: Seq<char>) -> bool {
    &&& langs.contains(l)
    &&& forall|i: int| 0 <= i < langs.len() ==> occurrences(langs, #[trigger] langs[i]) <= occurrences(langs, l)
    &&& forall|i: int| 0 <= i < langs.len() && occurrences(langs, #[trigger] langs[i]) == occurrences(langs, l)
        ==> !lex_lt(langs[i], l)
}

/// The language of most scanned files, ties broken by name; `None` when no
/// file had a known language.
pub fn majority_language(langs: &[String]) -> (r: Option<String>)
    ensures
        match r {
            Some(l) => majority(str_views(langs@), l@),
            None => langs@.len() == 0,
        },
{
    let ghost sv = str_views(langs@);
    if langs.len() == 0 {
        return None;
    }
    let mut best: usize = 0;
    let mut best_n = count_of(langs, &chars_of(langs[0].as_str()));
    let mut k: usize = 1;
    proof {
        lemma_lex_irrefl(sv[0]);
    }
    while k < langs.len()
        invariant
            1 <= k <= langs@.len(),
            sv == str_views(langs@),
            best < k,
            best_n == occurrences(sv, sv[best as int]),
            forall|i: int| 0 <= i < k ==> occurrences(sv, #[trigger] sv[i]) <= best_n,
            forall|i: int| 0 <= i < k && occurrences(sv, #[trigger] sv[i]) == best_n ==> !lex_lt(
                sv[i],
                sv[best as int],
            ),
        decreases langs.len() - k,
    {
        let c = chars_of(langs[k].as_str());
        let n = count_of(langs, &c);
        let cur = chars_of(langs[best].as_str());
        if n > best_n || (n == best_n && lex_lt_exec(&c, &cur)) {
            proof {
                assert forall|i: int| 0 <= i < k + 1 && occurrences(sv, #[trigger] sv[i]) == n
                    implies !lex_lt(sv[i], sv[k as int]) by {
                    if i < k && n == best_n {
                        if lex_lt(sv[i], sv[k as int]) {
                            lemma_lex_trans(sv[i], sv[k as int], sv[best as int]);
                        }
                    }
                    if i == k {
                        lemma_lex_irrefl(sv[k as int]);
                    }
                }
            }
            best = k;
            best_n = n;
        }
        k = k + 1;
    }
    proof {
        assert(sv.contains(sv[best as int]));
    }
    Some(string_from(&chars_of(langs[best].as_str())))
}

// ───────────────────────────── home paths ─────────────────────────────

/// `base.join(rest)` for `/`-separated paths.
pub open spec fn joined(base: Seq<char>, rest: Seq<char>) -> Seq<char> {
    if starts_with(rest, "/"@) || base.len() == 0 {
        rest
    } else if ends_with(base, "/"@) {
        base + rest
    } else {
        base + "/"@ + rest
    }
}

/// A leading `~` expanded to the home directory (when it is known).
pub open spec fn expanded(path: Seq<char>, home: Option<Seq<char>>) -> Seq<char> {
    match home {
        Some(h) => match strip_prefix(path, "~/"@) {
            Some(rest) => joined(h, rest),
            None => if path == "~"@ {
                h
            } else {
                path
            },
        },
        None => path,
    }
}

/// Expanding `~` and abbreviating the home prefix undo each other: a
/// `~/`-relative path expands under a home directory and abbreviates back to
/// itself, and a path under the home directory abbreviates to `~/…` and
/// expands back to itself (for a home directory without a trailing slash and
/// a relative rest).
pub proof fn law_expand_abbreviate_round_trip(home: Seq<char>, rest: Seq<char>)
    requires
        home.len() > 0,
        !ends_with(home, "/"@),
        !starts_with(rest, "/"@),
    ensures
        abbreviated(expanded("~/"@ + rest, Some(home)), Some(home)) == "~/"@ + rest,
        expanded(abbreviated(home + "/"@ + rest, Some(home)), Some(home)) == home + "/"@ + rest,
{
    reveal_strlit("~/");
    reveal_strlit("/");
    reveal_strlit("~");
    let tilde = "~/"@ + rest;
    assert(tilde.take(2) =~= "~/"@);
    assert(tilde.skip(2) =~= rest);
    assert(strip_prefix(tilde, "~/"@) == Some(rest));
    let full = home + "/"@ + rest;
    assert(expanded(tilde, Some(home)) == full);
    assert(full.take(home.len() as int) =~= home);
    assert(full.skip(home.len() as int) =~= "/"@ + rest);
    assert(strip_prefix(full, home) == Some("/"@ + rest));
    assert("~"@ + ("/"@ + rest) =~= "~/"@ + rest);
}

/// Expand a leading `~` to `home`.
pub fn expand_under(path: &str, home: Option<&str>) -> (r: String)
    ensures
        r@ == expanded(
            path@,
            match home {
                Some(h) => Some(h@),
                None => None,
            },
        ),
{
    let p = chars_of(path);
    match home {
        None => string_from(&p),
        Some(h) => match strip_prefix_str(&p, "~/") {
            Some(rest) => {
                let hv = chars_of(h);
                if starts_with_str(&rest, "/") || hv.len() == 0 {
                    string_from(&rest)
                } else if ends_with_str(&hv, "/") {
                    let mut v = hv;
                    push_all(&mut v, &rest);
                    string_from(&v)
                } else {
                    let mut v = hv;
                    push_str(&mut v, "/");
                    push_all(&mut v, &rest);
                    string_from(&v)
                }
            },
            None => {
                if str_eq(path, "~") {
                    string_from(&chars_of(h))
                } else {
                    string_from(&p)
                }
            },
        },
    }
}

/// The home prefix abbreviated to `~` for display.
pub open spec fn abbreviated(path: Seq<char>, home: Option<Seq<char>>) -> Seq<char> {
    match home {
        Some(h) => match strip_prefix(path, h) {
            Some(rest) => "~"@ + rest,
            None => path,
        },
        None => path,
    }
}

/// Abbreviate the home prefix `home` to `~` for display.
pub fn abbreviate_under(path: &str, home: Option<&str>) -> (r: String)
    ensures
        r@ == abbreviated(
            path@,
            match home {
                Some(h) => Some(h@),
                None => None,
            },
        ),
{
    let p = chars_of(path);
    match home {
        Some(h) => {
            let hv = chars_of(h);
            if starts_with_chars(&p, &hv) {
                let mut v = chars_of("~");
                let rest = slice_of(&p, hv.len(), p.len());
                proof {
                    assert(rest@ =~= p@.skip(hv@.len() as int));
                }
                push_all(&mut v, &rest);
                string_from(&v)
            } else {
                string_from(&p)
            }
        },
        None => string_from(&p),
    }
}

/// Expand a leading `~` to the user's home directory (the path unchanged
/// when the home is unknown).
pub fn expand(path: &str) -> (r: String)
    ensures
        exists|h: Option<Seq<char>>| r@ == expanded(path@, h),
{
    match crate::paths::home_dir() {
        Some(h) => {
            let r = expand_under(path, Some(h.as_str()));
            proof {
                assert(r@ == expanded(path@, Some(h@)));
            }
            r
        },
        None => {
            let r = expand_under(path, None);
            proof {
                assert(r@ == expanded(path@, None));
            }
            r
        },
    }
}

/// Abbreviate the user's home directory prefix to `~` for display.
pub fn abbreviate(path: &str) -> (r: String)
    ensures
        exists|h: Option<Seq<char>>| r@ == abbreviated(path@, h),
{
    match crate::paths::home_dir() {
        Some(h) => {
            let r = abbreviate_under(path, Some(h.as_str()));
            proof {
                assert(r@ == abbreviated(path@, Some(h@)));
            }
            r
        },
        None => {
            let r = abbreviate_under(path, None);
            proof {
                assert(r@ == abbreviated(path@, None));
            }
            r
        },
    }
}


// ───────────────────────────── the repo walk ─────────────────────────────

#[verifier::external_type_specification]
#[verifier::external_body]
pub struct ExGlobSet(globset::GlobSet);

/// The patterns a set of ignore globs was built from.
pub uninterp spec fn ignore_set_patterns(set: globset::GlobSet) -> Seq<Seq<char>>;

/// Whether a directory name is matched by the ignore set built from
/// `patterns` (patterns that are not valid globs match nothing).
pub uninterp spec fn ignore_matches(patterns: Seq<Seq<char>>, name: Seq<char>) -> bool;

/// `globset`: a `GlobSet` of every pattern that `Glob::new` accepts (the
/// empty set if building it fails). Claimed: the set is the one built from
/// `patterns`; what it matches is named `ignore_matches`.
#[verifier::external_body]
fn build_ignore(patterns: &[String]) -> (r: globset::GlobSet)
    ensures
        ignore_set_patterns(r) == str_views(patterns@),
{
    let mut builder = globset::GlobSetBuilder::new();
    for p in patterns {
        if let Ok(glob) = globset::Glob::new(p) {
            builder.add(glob);
        }
    }
    builder.build().unwrap_or_else(|_| globset::GlobSet::empty())
}

/// `GlobSet::is_match` on a directory name: named `ignore_matches` of the
/// set's patterns and the name.
#[verifier::external_body]
fn ignore_set_matches(set: &globset::GlobSet, name: &str) -> (r: bool)
    ensures
        r == ignore_matches(ignore_set_patterns(*set), name@),
{
    set.is_match(name)
}

/// The configured scan-ignore globs, compiled once for a walk.
pub struct IgnoreSet {
    set: globset::GlobSet,
}

impl IgnoreSet {
    /// The patterns the set was built from.
    pub closed spec fn patterns(self) -> Seq<Seq<char>> {
        ignore_set_patterns(self.set)
    }

    /// Compile `patterns` (invalid globs are left out).
    pub fn new(patterns: &[String]) -> (r: Self)
        ensures
            r.patterns() == str_views(patterns@),
    {
        IgnoreSet { set: build_ignore(patterns) }
    }
}

/// What the repo walk does at a directory.
#[derive(Debug, Clone, Copy, PartialEq, Eq, Structural)]
pub enum WalkStep {
    /// Look inside it.
    Descend,
    /// A repo: record it and do not look inside.
    Repo,
    /// Do not look inside (an ignored name, or a nested checkout whose `.git`
    /// is a file).
    Skip,
}

/// The walk's decision at a directory named `name` at `depth` under the
/// root, given whether it holds a `.git` and whether that is a directory:
/// ignored names (but the root's own `.`) are skipped, a `.git` directory
/// (or any `.git` at the root itself) makes a repo, any other `.git` stops
/// the descent.
pub fn scan_step(ignore: &IgnoreSet, name: &str, depth: usize, dotgit_exists: bool, dotgit_is_dir: bool) -> (r:
    WalkStep)
    ensures
        r == if name@ != "."@ && ignore_matches(ignore.patterns(), name@) {
            WalkStep::Skip
        } else if dotgit_exists && (dotgit_is_dir || depth == 0) {
            WalkStep::Repo
        } else if dotgit_exists {
            WalkStep::Skip
        } else {
            WalkStep::Descend
        },
{
    if !str_eq(name, ".") && ignore_set_matches(&ignore.set, name) {
        return WalkStep::Skip;
    }
    if dotgit_exists && (dotgit_is_dir || depth == 0) {
        WalkStep::Repo
    } else if dotgit_exists {
        WalkStep::Skip
    } else {
        WalkStep::Descend
    }
}

} // verus!
