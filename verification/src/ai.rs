//! Backend-agnostic AI logic: which engine serves a request, which installed
//! model to use, how a failed or empty generation is handled, and every prompt
//! the dashboard sends together with the parsers for what comes back.
use vstd::prelude::*;

use crate::model::Repo;

use crate::text::{
    dec, dec_chars, lower_ascii, lower_ascii_chars,
    is_ws, lemma_rfind, rfind, rfind_chars, trim_end, trim_end_chars, trim_start_char,
    trim_start_char_chars,
    char_pos, char_pos_from, clamp, clamp_chars, find, find_chars, is_digit, join, join_chars,
    lemma_find, occurs_at, push_all, push_str, trim_end_char, trim_end_char_chars, trim_start,
    trim_start_chars, after_last, after_last_chars, before_first, before_first_chars, chars_of, contains,
    contains_str, lemma_views_push, lines, lines_of, lowercase, slice_of, starts_with,
    starts_with_chars, starts_with_str, str_eq, str_views, string_from, strip_prefix,
    strip_prefix_str, to_lowercase, trim, trim_chars, views, words, words_of, split, split_chars,
    chars_eq, lemma_contains_concat, lemma_contains_self, lemma_lacks_first,
    lemma_no_occurrence_concat, lemma_no_occurrence_prefix, lemma_tail_ends_outside, no_tail_start,
};

verus! {

/// The inference engine serving AI features.
#[derive(Debug, Clone, Copy, PartialEq, Eq, Structural)]
pub enum Backend {
    Ollama,
    LlamaCpp,
    /// An OpenAI-compatible HTTP endpoint: opt-in, for a hosted model.
    Cloud,
}

/// The backend a configured name selects: unknown names stay local (Ollama).
pub open spec fn backend_of(name: Seq<char>) -> Backend {
    if name == "llamaCpp"@ || name == "llama_cpp"@ || name == "llamacpp"@ {
        Backend::LlamaCpp
    } else if name == "cloud"@ || name == "openai"@ || name == "openaiCompat"@ || name
        == "openai_compat"@ {
        Backend::Cloud
    } else {
        Backend::Ollama
    }
}

/// Parse a configured backend name.
pub fn parse_backend(name: &str) -> (b: Backend)
    ensures
        b == backend_of(name@),
{
    if str_eq(name, "llamaCpp") || str_eq(name, "llama_cpp") || str_eq(name, "llamacpp") {
        Backend::LlamaCpp
    } else if str_eq(name, "cloud") || str_eq(name, "openai") || str_eq(name, "openaiCompat")
        || str_eq(name, "openai_compat") {
        Backend::Cloud
    } else {
        Backend::Ollama
    }
}

/// Whether the configured backend can embed: embeddings are Ollama-only.
pub fn embeddings_supported(backend_name: &str) -> (r: bool)
    ensures
        r == (backend_of(backend_name@) == Backend::Ollama),
{
    match parse_backend(backend_name) {
        Backend::Ollama => true,
        _ => false,
    }
}

/// Whether the configured backend sends prompts off the machine.
pub fn backend_is_remote(backend_name: &str) -> (r: bool)
    ensures
        r == (backend_of(backend_name@) == Backend::Cloud),
{
    match parse_backend(backend_name) {
        Backend::Cloud => true,
        _ => false,
    }
}

/// Why `embed` refuses on this backend, or `None` where it embeds.
pub fn embed_refusal(backend: Backend) -> (r: Option<String>)
    ensures
        match backend {
            Backend::Ollama => r is None,
            Backend::LlamaCpp => r matches Some(m)
                && m@ == "embeddings are not supported on the llama.cpp backend"@,
            Backend::Cloud => r matches Some(m)
                && m@ == "embeddings stay local — switch to the Ollama backend to index"@,
        },
{
    match backend {
        Backend::Ollama => None,
        Backend::LlamaCpp => Some(
            string_from(&chars_of("embeddings are not supported on the llama.cpp backend")),
        ),
        Backend::Cloud => Some(
            string_from(&chars_of("embeddings stay local — switch to the Ollama backend to index")),
        ),
    }
}

/// Why a model `pull` refuses on this backend, or `None` where it pulls.
pub fn pull_refusal(backend: Backend) -> (r: Option<String>)
    ensures
        match backend {
            Backend::Ollama => r is None,
            Backend::LlamaCpp => r matches Some(m)
                && m@ == "use the model download in Settings for the llama.cpp backend"@,
            Backend::Cloud => r matches Some(m)
                && m@ == "cloud models are hosted — nothing to download"@,
        },
{
    match backend {
        Backend::Ollama => None,
        Backend::LlamaCpp => Some(
            string_from(&chars_of("use the model download in Settings for the llama.cpp backend")),
        ),
        Backend::Cloud => Some(
            string_from(&chars_of("cloud models are hosted — nothing to download")),
        ),
    }
}

// ───────────────────────────── model choice ─────────────────────────────

/// Embedding-only model names (over the lower-cased name).
pub open spec fn embedding_name(n: Seq<char>) -> bool {
    ||| contains(n, "embed"@)
    ||| contains(n, "minilm"@)
    ||| starts_with(n, "bge"@)
    ||| contains(n, "/bge"@)
}

/// Heuristic: is this an embedding-only model? Such models reject generation,
/// so they are never picked as a chat fallback.
pub fn is_embedding_model(name: &str) -> (r: bool)
    ensures
        r == embedding_name(lowercase(name@)),
{
    let n = to_lowercase(&chars_of(name));
    contains_str(&n, "embed") || contains_str(&n, "minilm") || starts_with_str(&n, "bge")
        || contains_str(&n, "/bge")
}

/// An installed model name matches the preferred config value: exactly, or a
/// bare preferred name against a tagged install (`qwen2.5` → `qwen2.5:3b`),
/// or a tagged preferred name against a bare install of its family.
pub open spec fn name_matches(preferred: Seq<char>, installed: Seq<char>) -> bool {
    let pref = trim(preferred);
    let inst = trim(installed);
    if preferred == installed {
        true
    } else if pref.len() == 0 || inst.len() == 0 {
        false
    } else if !contains(pref, seq![':']) {
        inst == pref || starts_with(inst, pref.push(':'))
    } else if !contains(inst, seq![':']) {
        inst == before_first(pref, ':')
    } else {
        false
    }
}

fn colon_in(s: &[char]) -> (r: bool)
    ensures
        r == contains(s@, seq![':']),
{
    let mut p: Vec<char> = Vec::new();
    p.push(':');
    proof {
        assert(p@ =~= seq![':']);
    }
    crate::text::contains_chars(s, &p)
}

/// Whether `installed` serves the `preferred` configured model.
pub fn model_name_matches(preferred: &str, installed: &str) -> (r: bool)
    ensures
        r == name_matches(preferred@, installed@),
{
    if str_eq(preferred, installed) {
        return true;
    }
    let pref = trim_chars(&chars_of(preferred));
    let inst = trim_chars(&chars_of(installed));
    if pref.len() == 0 || inst.len() == 0 {
        return false;
    }
    if !colon_in(&pref) {
        let mut tagged = pref.clone();
        tagged.push(':');
        proof {
            assert(tagged@ =~= pref@.push(':'));
        }
        return crate::text::chars_eq(&inst, &pref) || starts_with_chars(&inst, &tagged);
    }
    if !colon_in(&inst) {
        let fam = before_first_chars(&pref, ':');
        return crate::text::chars_eq(&inst, &fam);
    }
    false
}

/// The name of the `i`-th installed model.
pub open spec fn name_at(avail: Seq<(String, u64)>, i: int) -> Seq<char> {
    avail[i].0@
}

/// Whether the `i`-th installed model can chat (is not embedding-only).
pub open spec fn chat_at(avail: Seq<(String, u64)>, i: int) -> bool {
    !embedding_name(lowercase(name_at(avail, i)))
}

/// `i` is the first installed model matching the preferred name.
pub open spec fn first_match(preferred: Seq<char>, avail: Seq<(String, u64)>, i: int) -> bool {
    &&& 0 <= i < avail.len()
    &&& name_matches(preferred, name_at(avail, i))
    &&& forall|j: int| 0 <= j < i ==> !name_matches(preferred, #[trigger] name_at(avail, j))
}

/// `i` is the first of the smallest installed chat models.
pub open spec fn first_smallest_chat(avail: Seq<(String, u64)>, i: int) -> bool {
    &&& 0 <= i < avail.len()
    &&& chat_at(avail, i)
    &&& forall|j: int| 0 <= j < avail.len() && #[trigger] chat_at(avail, j) ==> avail[i].1 <= avail[j].1
    &&& forall|j: int| 0 <= j < i && #[trigger] chat_at(avail, j) ==> avail[i].1 < avail[j].1
}

pub open spec fn some_match(preferred: Seq<char>, avail: Seq<(String, u64)>) -> bool {
    exists|i: int| 0 <= i < avail.len() && name_matches(preferred, #[trigger] name_at(avail, i))
}

pub open spec fn some_chat(avail: Seq<(String, u64)>) -> bool {
    exists|i: int| 0 <= i < avail.len() && #[trigger] chat_at(avail, i)
}

/// Choose the chat model: the preferred one if installed, otherwise the first
/// of the smallest installed models that can generate.
pub fn pick_model(preferred: &str, available: &[(String, u64)]) -> (r: Option<String>)
    ensures
        match r {
            Some(n) => exists|i: int|
                (first_match(preferred@, available@, i) || (!some_match(preferred@, available@)
                    && first_smallest_chat(available@, i))) && n@ == name_at(available@, i),
            None => !some_match(preferred@, available@) && !some_chat(available@),
        },
{
    let n = available.len();
    let mut k: usize = 0;
    while k < n
        invariant
            n == available@.len(),
            k <= n,
            forall|j: int| 0 <= j < k ==> !name_matches(preferred@, #[trigger] name_at(available@, j)),
        decreases n - k,
    {
        if model_name_matches(preferred, available[k].0.as_str()) {
            let name = string_from(&chars_of(available[k].0.as_str()));
            proof {
                assert(first_match(preferred@, available@, k as int));
            }
            return Some(name);
        }
        k = k + 1;
    }
    proof {
        assert(!some_match(preferred@, available@));
    }
    let mut best: Option<usize> = None;
    let mut k: usize = 0;
    while k < n
        invariant
            n == available@.len(),
            k <= n,
            match best {
                Some(b) => b < k && chat_at(available@, b as int)
                    && (forall|j: int| 0 <= j < k && #[trigger] chat_at(available@, j)
                        ==> available@[b as int].1 <= available@[j].1)
                    && (forall|j: int| 0 <= j < b && #[trigger] chat_at(available@, j)
                        ==> available@[b as int].1 < available@[j].1),
                None => forall|j: int| 0 <= j < k ==> !#[trigger] chat_at(available@, j),
            },
        decreases n - k,
    {
        if !is_embedding_model(available[k].0.as_str()) {
            match best {
                Some(b) => {
                    if available[k].1 < available[b].1 {
                        best = Some(k);
                    }
                },
                None => {
                    best = Some(k);
                },
            }
        }
        k = k + 1;
    }
    match best {
        Some(b) => {
            let name = string_from(&chars_of(available[b].0.as_str()));
            proof {
                assert(first_smallest_chat(available@, b as int));
            }
            Some(name)
        },
        None => None,
    }
}

// ───────────────────────────── generation policy ─────────────────────────────

/// Models known to "think" into a hidden channel (over the lower-cased name).
pub open spec fn thinking_name(n: Seq<char>) -> bool {
    ||| starts_with(n, "qwen3"@)
    ||| contains(n, "qwen3:"@)
    ||| starts_with(n, "gemma3"@)
    ||| contains(n, "gemma3:"@)
}

/// Heuristic: a model that often returns an empty response on a small budget
/// unless thinking is switched off.
pub fn likely_thinking_model(model: &str) -> (r: bool)
    ensures
        r == thinking_name(lowercase(model@)),
{
    let n = to_lowercase(&chars_of(model));
    starts_with_str(&n, "qwen3") || contains_str(&n, "qwen3:") || starts_with_str(&n, "gemma3")
        || contains_str(&n, "gemma3:")
}

/// A runner crash or GPU memory failure (over the lower-cased message).
pub open spec fn crash_text(e: Seq<char>) -> bool {
    ||| contains(e, "runner process has terminated"@)
    ||| contains(e, "llama runner"@)
    ||| (contains(e, "500"@) && contains(e, "terminated"@))
    ||| contains(e, "cuda error"@)
    ||| contains(e, "out of memory"@)
    ||| contains(e, "insufficient memory"@)
    ||| contains(e, "ggml_gallocr_reserve"@)
}

/// True when the model runner crashed mid-load or mid-generation: the request
/// is then retried once on the CPU.
pub fn is_runner_crash(err: &str) -> (r: bool)
    ensures
        r == crash_text(lowercase(err@)),
{
    let e = to_lowercase(&chars_of(err));
    contains_str(&e, "runner process has terminated") || contains_str(&e, "llama runner") || (
    contains_str(&e, "500") && contains_str(&e, "terminated")) || contains_str(&e, "cuda error")
        || contains_str(&e, "out of memory") || contains_str(&e, "insufficient memory")
        || contains_str(&e, "ggml_gallocr_reserve")
}


// ───────────────────────────── diff headers ─────────────────────────────

/// Whether `path` names an Odoo manifest (`__manifest__.py` / `__openerp__.py`).
pub open spec fn manifest_path(path: Seq<char>) -> bool {
    after_last(path, '/') == "__manifest__.py"@ || after_last(path, '/') == "__openerp__.py"@
}

pub fn is_odoo_manifest_path(path: &str) -> (r: bool)
    ensures
        r == manifest_path(path@),
{
    let base = after_last_chars(&chars_of(path), '/');
    let b = string_from(&base);
    str_eq(b.as_str(), "__manifest__.py") || str_eq(b.as_str(), "__openerp__.py")
}

/// A `diff --git` operand without its `a/` or `b/` side prefix.
pub open spec fn strip_side(part: Seq<char>) -> Seq<char> {
    match strip_prefix(part, "a/"@) {
        Some(r) => r,
        None => match strip_prefix(part, "b/"@) {
            Some(r) => r,
            None => part,
        },
    }
}

/// The candidate paths one diff line names: both operands of a `diff --git`
/// header, or the target of a `+++ b/` header (up to a tab).
pub open spec fn line_paths(line: Seq<char>) -> Seq<Seq<char>> {
    match strip_prefix(line, "diff --git "@) {
        Some(rest) => words(rest).map_values(|w: Seq<char>| strip_side(w)),
        None => match strip_prefix(line, "+++ b/"@) {
            Some(rest) => seq![before_first(rest, '\t')],
            None => Seq::empty(),
        },
    }
}

/// Record candidate `p` (trimmed) unless it is empty, `/dev/null`, or known.
pub open spec fn push_path(acc: Seq<Seq<char>>, p: Seq<char>) -> Seq<Seq<char>> {
    let t = trim(p);
    if t.len() == 0 || t == "/dev/null"@ || acc.contains(t) {
        acc
    } else {
        acc.push(t)
    }
}

pub open spec fn push_paths(acc: Seq<Seq<char>>, ps: Seq<Seq<char>>) -> Seq<Seq<char>>
    decreases ps.len(),
{
    if ps.len() == 0 {
        acc
    } else {
        push_path(push_paths(acc, ps.drop_last()), ps.last())
    }
}

/// Paths named by the headers of `lines`, in first-seen order, each once.
pub open spec fn diff_paths(lines: Seq<Seq<char>>) -> Seq<Seq<char>>
    decreases lines.len(),
{
    if lines.len() == 0 {
        Seq::empty()
    } else {
        push_paths(diff_paths(lines.drop_last()), line_paths(lines.last()))
    }
}

/// No path is empty, none is `/dev/null`, and none occurs twice.
pub open spec fn clean_paths(ps: Seq<Seq<char>>) -> bool {
    &&& forall|i: int| 0 <= i < ps.len() ==> (#[trigger] ps[i]).len() > 0 && ps[i] != "/dev/null"@
    &&& forall|i: int, j: int| 0 <= i < j < ps.len() ==> ps[i] != ps[j]
}

proof fn lemma_push_path_clean(acc: Seq<Seq<char>>, p: Seq<char>)
    requires
        clean_paths(acc),
    ensures
        clean_paths(push_path(acc, p)),
{
    let t = trim(p);
    if !(t.len() == 0 || t == "/dev/null"@ || acc.contains(t)) {
        let r = acc.push(t);
        assert forall|i: int, j: int| 0 <= i < j < r.len() implies r[i] != r[j] by {
            if j == acc.len() {
                assert(r[i] == acc[i]);
                if r[i] == r[j] {
                    assert(acc.contains(t));
                }
            }
        }
    }
}

proof fn lemma_push_paths_clean(acc: Seq<Seq<char>>, ps: Seq<Seq<char>>)
    requires
        clean_paths(acc),
    ensures
        clean_paths(push_paths(acc, ps)),
    decreases ps.len(),
{
    if ps.len() > 0 {
        lemma_push_paths_clean(acc, ps.drop_last());
        lemma_push_path_clean(push_paths(acc, ps.drop_last()), ps.last());
    }
}

pub proof fn lemma_diff_paths_clean(lines: Seq<Seq<char>>)
    ensures
        clean_paths(diff_paths(lines)),
    decreases lines.len(),
{
    if lines.len() > 0 {
        lemma_diff_paths_clean(lines.drop_last());
        lemma_push_paths_clean(diff_paths(lines.drop_last()), line_paths(lines.last()));
    }
}

fn known_path(acc: &Vec<Vec<char>>, t: &[char]) -> (r: bool)
    ensures
        r == views(acc@).contains(t@),
{
    let mut k: usize = 0;
    while k < acc.len()
        invariant
            k <= acc@.len(),
            forall|m: int| 0 <= m < k ==> acc@[m]@ != t@,
        decreases acc.len() - k,
    {
        if crate::text::chars_eq(&acc[k], t) {
            proof {
                assert(views(acc@)[k as int] == t@);
            }
            return true;
        }
        k = k + 1;
    }
    proof {
        if views(acc@).contains(t@) {
            let m = choose|m: int| 0 <= m < views(acc@).len() && views(acc@)[m] == t@;
            assert(acc@[m]@ == t@);
        }
    }
    false
}

fn push_path_exec(acc: &mut Vec<Vec<char>>, p: &[char])
    ensures
        views(final(acc)@) == push_path(views(old(acc)@), p@),
{
    let t = trim_chars(p);
    if t.len() == 0 || crate::text::chars_eq(&t, &chars_of("/dev/null")) || known_path(acc, &t) {
        return;
    }
    proof {
        lemma_views_push(acc@, t);
    }
    acc.push(t);
}

fn line_paths_exec(line: &[char]) -> (r: Vec<Vec<char>>)
    ensures
        views(r@) == line_paths(line@),
{
    let mut r: Vec<Vec<char>> = Vec::new();
    match strip_prefix_str(line, "diff --git ") {
        Some(rest) => {
            let ws = words_of(&rest);
            let mut k: usize = 0;
            while k < ws.len()
                invariant
                    k <= ws@.len(),
                    views(ws@) == words(rest@),
                    views(r@) == words(rest@).take(k as int).map_values(
                        |w: Seq<char>| strip_side(w),
                    ),
                decreases ws.len() - k,
            {
                let part = &ws[k];
                let s = match strip_prefix_str(part, "a/") {
                    Some(x) => x,
                    None => match strip_prefix_str(part, "b/") {
                        Some(x) => x,
                        None => slice_of(part, 0, part.len()),
                    },
                };
                proof {
                    assert(views(ws@)[k as int] == ws@[k as int]@);
                    assert(s@ == strip_side(words(rest@)[k as int]));
                    lemma_views_push(r@, s);
                    assert(words(rest@).take(k + 1).map_values(|w: Seq<char>| strip_side(w))
                        =~= words(rest@).take(k as int).map_values(|w: Seq<char>| strip_side(w)).push(
                        strip_side(words(rest@)[k as int]),
                    ));
                }
                r.push(s);
                k = k + 1;
            }
            proof {
                assert(words(rest@).take(ws@.len() as int) =~= words(rest@));
            }
            r
        },
        None => match strip_prefix_str(line, "+++ b/") {
            Some(rest) => {
                let t = before_first_chars(&rest, '\t');
                proof {
                    lemma_views_push(r@, t);
                    assert(views(r@.push(t)) =~= seq![before_first(rest@, '\t')]);
                }
                r.push(t);
                r
            },
            None => {
                proof {
                    assert(views(r@) =~= Seq::<Seq<char>>::empty());
                }
                r
            },
        },
    }
}

fn to_strings(v: &Vec<Vec<char>>) -> (r: Vec<String>)
    ensures
        str_views(r@) == views(v@),
{
    let mut r: Vec<String> = Vec::new();
    let mut k: usize = 0;
    while k < v.len()
        invariant
            k <= v@.len(),
            str_views(r@) == views(v@).take(k as int),
        decreases v.len() - k,
    {
        let s = string_from(&v[k]);
        proof {
            assert(str_views(r@.push(s)) =~= str_views(r@).push(s@));
            assert(views(v@).take(k + 1) =~= views(v@).take(k as int).push(v@[k as int]@));
        }
        r.push(s);
        k = k + 1;
    }
    proof {
        assert(views(v@).take(v@.len() as int) =~= views(v@));
    }
    r
}

fn diff_paths_exec(diff: &[char]) -> (r: Vec<Vec<char>>)
    ensures
        views(r@) == diff_paths(lines(diff@)),
{
    let ls = lines_of(diff);
    let mut acc: Vec<Vec<char>> = Vec::new();
    let mut k: usize = 0;
    while k < ls.len()
        invariant
            k <= ls@.len(),
            views(ls@) == lines(diff@),
            views(acc@) == diff_paths(views(ls@).take(k as int)),
        decreases ls.len() - k,
    {
        let ps = line_paths_exec(&ls[k]);
        let ghost before = views(acc@);
        let mut m: usize = 0;
        while m < ps.len()
            invariant
                m <= ps@.len(),
                views(acc@) == push_paths(before, views(ps@).take(m as int)),
            decreases ps.len() - m,
        {
            proof {
                assert(views(ps@).take(m + 1).drop_last() =~= views(ps@).take(m as int));
            }
            push_path_exec(&mut acc, &ps[m]);
            m = m + 1;
        }
        proof {
            assert(views(ps@).take(ps@.len() as int) =~= views(ps@));
            assert(views(ls@).take(k + 1).drop_last() =~= views(ls@).take(k as int));
            assert(views(ls@)[k as int] == ls@[k as int]@);
        }
        k = k + 1;
    }
    proof {
        assert(views(ls@).take(ls@.len() as int) =~= views(ls@));
    }
    acc
}

/// Repo-relative paths touched by a unified diff, in first-seen order, read
/// from the `diff --git` / `+++ b/` headers. Deletions (`/dev/null`) are skipped.
pub fn changed_paths_in_diff(diff: &str) -> (r: Vec<String>)
    ensures
        str_views(r@) == diff_paths(lines(diff@)),
        clean_paths(str_views(r@)),
{
    proof {
        lemma_diff_paths_clean(lines(diff@));
    }
    let v = diff_paths_exec(&chars_of(diff));
    to_strings(&v)
}

/// The manifests among `ps`, in order.
pub open spec fn manifests(ps: Seq<Seq<char>>) -> Seq<Seq<char>> {
    ps.filter(|p: Seq<char>| manifest_path(p))
}

/// Relative paths of Odoo manifests touched by a unified diff.
pub fn manifest_paths_in_diff(diff: &str) -> (r: Vec<String>)
    ensures
        str_views(r@) == manifests(diff_paths(lines(diff@))),
{
    let all = changed_paths_in_diff(diff);
    let mut r: Vec<String> = Vec::new();
    let ghost ps = diff_paths(lines(diff@));
    let mut k: usize = 0;
    while k < all.len()
        invariant
            k <= all@.len(),
            str_views(all@) == ps,
            str_views(r@) == manifests(ps.take(k as int)),
        decreases all.len() - k,
    {
        proof {
            assert(ps.take(k + 1).drop_last() =~= ps.take(k as int));
            assert(ps.take(k + 1).last() == ps[k as int]);
            assert(ps[k as int] == all@[k as int]@);
            reveal(Seq::filter);
            assert(manifests(ps.take(k + 1)) == if manifest_path(ps[k as int]) {
                manifests(ps.take(k as int)).push(ps[k as int])
            } else {
                manifests(ps.take(k as int))
            });
        }
        if is_odoo_manifest_path(all[k].as_str()) {
            let s = string_from(&chars_of(all[k].as_str()));
            proof {
                assert(str_views(r@.push(s)) =~= str_views(r@).push(s@));
            }
            r.push(s);
        }
        k = k + 1;
    }
    proof {
        assert(ps.take(all@.len() as int) =~= ps);
    }
    r
}


// ───────────────────────────── changelogs ─────────────────────────────

/// A level-two heading (`## …` but not `### …`), after trimming.
pub open spec fn h2_line(l: Seq<char>) -> bool {
    starts_with(trim(l), "##"@) && !starts_with(trim(l), "###"@)
}

/// A `## Unreleased` / `## [Unreleased]` heading (Keep a Changelog).
pub open spec fn unreleased_heading(l: Seq<char>) -> bool {
    h2_line(l) && contains(lowercase(trim(l)), "unreleased"@)
}

pub fn is_unreleased_heading(line: &str) -> (r: bool)
    ensures
        r == unreleased_heading(line@),
{
    let l = trim_chars(&chars_of(line));
    if !starts_with_str(&l, "##") || starts_with_str(&l, "###") {
        return false;
    }
    let low = to_lowercase(&l);
    contains_str(&low, "unreleased")
}

fn is_h2_chars(l: &[char]) -> (r: bool)
    ensures
        r == h2_line(l@),
{
    let t = trim_chars(l);
    starts_with_str(&t, "##") && !starts_with_str(&t, "###")
}

/// Index of the first `Unreleased` heading at or after `i` (`ls.len()` if none).
pub open spec fn first_unreleased(ls: Seq<Seq<char>>, i: int) -> int
    decreases ls.len() - i,
{
    if i < 0 || i >= ls.len() {
        ls.len() as int
    } else if unreleased_heading(ls[i]) {
        i
    } else {
        first_unreleased(ls, i + 1)
    }
}

/// Index of the first level-two heading at or after `i` (`ls.len()` if none).
pub open spec fn first_h2(ls: Seq<Seq<char>>, i: int) -> int
    decreases ls.len() - i,
{
    if i < 0 || i >= ls.len() {
        ls.len() as int
    } else if h2_line(ls[i]) {
        i
    } else {
        first_h2(ls, i + 1)
    }
}

/// How many of `ls` are not blank.
pub open spec fn nonblank_count(ls: Seq<Seq<char>>) -> nat
    decreases ls.len(),
{
    if ls.len() == 0 {
        0
    } else {
        nonblank_count(ls.drop_last()) + if trim(ls.last()).len() > 0 {
            1nat
        } else {
            0nat
        }
    }
}

/// Characters kept from each changelog.
pub const CHANGELOG_EXCERPT_CHARS: usize = 2000;
/// Trailing lines used when a changelog has no `Unreleased` section.
pub const CHANGELOG_TAIL_LINES: usize = 80;

/// The trailing (at most) `CHANGELOG_TAIL_LINES` lines, joined and trimmed.
pub open spec fn changelog_tail(ls: Seq<Seq<char>>) -> Seq<char> {
    let from = if ls.len() > CHANGELOG_TAIL_LINES {
        ls.len() - CHANGELOG_TAIL_LINES
    } else {
        0
    };
    trim(join(ls.skip(from), "\n"@))
}

/// The most relevant slice of a changelog: its `Unreleased` section when that
/// has more than its heading, otherwise the trailing lines; clamped.
pub open spec fn excerpt_of(text: Seq<char>) -> Seq<char> {
    let ls = lines(text);
    let s = first_unreleased(ls, 0);
    let tail = clamp(changelog_tail(ls), CHANGELOG_EXCERPT_CHARS as nat);
    if s < ls.len() {
        let section = trim(join(ls.subrange(s, first_h2(ls, s + 1)), "\n"@));
        if nonblank_count(lines(section)) > 1 {
            clamp(section, CHANGELOG_EXCERPT_CHARS as nat)
        } else {
            tail
        }
    } else {
        tail
    }
}

fn sub_lines(ls: &Vec<Vec<char>>, i: usize, j: usize) -> (r: Vec<Vec<char>>)
    requires
        i <= j <= ls@.len(),
    ensures
        views(r@) == views(ls@).subrange(i as int, j as int),
{
    let mut r: Vec<Vec<char>> = Vec::new();
    let mut k: usize = i;
    while k < j
        invariant
            i <= k <= j <= ls@.len(),
            views(r@) == views(ls@).subrange(i as int, k as int),
        decreases j - k,
    {
        let l = slice_of(&ls[k], 0, ls[k].len());
        proof {
            assert(l@ =~= ls@[k as int]@);
            lemma_views_push(r@, l);
            assert(views(ls@).subrange(i as int, k + 1) =~= views(ls@).subrange(i as int, k as int).push(
                ls@[k as int]@,
            ));
        }
        r.push(l);
        k = k + 1;
    }
    r
}

fn count_nonblank(ls: &Vec<Vec<char>>) -> (r: usize)
    ensures
        r == nonblank_count(views(ls@)),
{
    let mut n: usize = 0;
    let mut k: usize = 0;
    while k < ls.len()
        invariant
            k <= ls@.len(),
            n <= k,
            n == nonblank_count(views(ls@).take(k as int)),
        decreases ls.len() - k,
    {
        proof {
            assert(views(ls@).take(k + 1).drop_last() =~= views(ls@).take(k as int));
            assert(views(ls@).take(k + 1).last() == ls@[k as int]@);
        }
        if !crate::text::is_blank_chars(&ls[k]) {
            n = n + 1;
        }
        k = k + 1;
    }
    proof {
        assert(views(ls@).take(ls@.len() as int) =~= views(ls@));
    }
    n
}

/// The most relevant slice of a changelog: its `Unreleased` section when there
/// is one with content, otherwise the trailing lines (the newest entries).
pub fn changelog_excerpt(text: &str) -> (r: String)
    ensures
        r@ == excerpt_of(text@),
{
    let ls = lines_of(&chars_of(text));
    let ghost lv = views(ls@);
    let n = ls.len();
    let mut nl: Vec<char> = Vec::new();
    nl.push('\n');
    proof {
        reveal_strlit("\n");
        assert(nl@ =~= "\n"@);
    }
    let mut s: usize = 0;
    while s < n && !is_unreleased_heading(string_from(&ls[s]).as_str())
        invariant
            s <= n == ls@.len(),
            lv == views(ls@),
            first_unreleased(lv, s as int) == first_unreleased(lv, 0),
        decreases n - s,
    {
        s = s + 1;
    }
    if s < n {
        let mut e: usize = s + 1;
        while e < n && !is_h2_chars(&ls[e])
            invariant
                s < e <= n == ls@.len(),
                lv == views(ls@),
                first_h2(lv, e as int) == first_h2(lv, s + 1),
            decreases n - e,
        {
            e = e + 1;
        }
        let part = sub_lines(&ls, s, e);
        let section = trim_chars(&join_chars(&part, &nl));
        let sl = lines_of(&section);
        if count_nonblank(&sl) > 1 {
            return string_from(&clamp_chars(&section, CHANGELOG_EXCERPT_CHARS));
        }
    }
    let from: usize = if n > CHANGELOG_TAIL_LINES {
        n - CHANGELOG_TAIL_LINES
    } else {
        0
    };
    let part = sub_lines(&ls, from, n);
    proof {
        assert(lv.subrange(from as int, n as int) =~= lv.skip(from as int));
    }
    let tail = trim_chars(&join_chars(&part, &nl));
    string_from(&clamp_chars(&tail, CHANGELOG_EXCERPT_CHARS))
}

/// Whether a changed path may be walked up from toward the repo root: it is
/// relative and has no `..` component (a diff header is always
/// repo-relative, so anything else is not a place inside the repo).
pub open spec fn walkable(rel: Seq<char>) -> bool {
    &&& !(rel.len() > 0 && rel[0] == '/')
    &&& !split(rel, '/').contains(".."@)
}

/// Whether a changed path may be walked from (see `walkable`).
pub fn walkable_path(rel: &str) -> (r: bool)
    ensures
        r == walkable(rel@),
{
    let c = chars_of(rel);
    if c.len() > 0 && c[0] == '/' {
        return false;
    }
    let parts = split_chars(&c, '/');
    let dots = chars_of("..");
    let ghost ps = views(parts@);
    let mut k: usize = 0;
    while k < parts.len()
        invariant
            k <= parts@.len(),
            ps == views(parts@),
            ps == split(c@, '/'),
            c@ == rel@,
            dots@ == ".."@,
            forall|m: int| 0 <= m < k ==> ps[m] != ".."@,
        decreases parts.len() - k,
    {
        proof {
            assert(ps[k as int] == parts@[k as int]@);
        }
        if chars_eq(&parts[k], &dots) {
            proof {
                assert(ps.contains(ps[k as int]));
            }
            return false;
        }
        k = k + 1;
    }
    proof {
        assert(!ps.contains(".."@)) by {
            if ps.contains(".."@) {
                let m = choose|m: int| 0 <= m < ps.len() && ps[m] == ".."@;
                assert(ps[m] != ".."@);
            }
        }
    }
    true
}

/// The labels (repo-relative paths) of the notes picked so far.
pub open spec fn note_labels(found: Seq<(String, String)>) -> Seq<Seq<char>> {
    found.map_values(|n: (String, String)| n.0@)
}

/// The changelog notes for one commit prompt, picked while walking the
/// changed files: at most `MAX_CHANGELOGS` distinct files, none larger than
/// `MAX_CHANGELOG_BYTES`, each contributing its non-blank excerpt.
#[derive(Debug, Clone)]
pub struct ChangelogPick {
    pub found: Vec<(String, String)>,
}

impl ChangelogPick {
    pub open spec fn wf(self) -> bool {
        self.found@.len() <= MAX_CHANGELOGS
    }

    /// Nothing picked yet.
    pub fn new() -> (r: Self)
        ensures
            r.found@.len() == 0,
            r.wf(),
    {
        ChangelogPick { found: Vec::new() }
    }

    /// Whether another note is wanted.
    pub fn wants_more(&self) -> (r: bool)
        ensures
            r == (self.found@.len() < MAX_CHANGELOGS),
    {
        self.found.len() < MAX_CHANGELOGS
    }

    /// Whether the changelog at `label`, of `size` bytes, is worth reading:
    /// not picked already and not too large.
    pub fn should_read(&self, label: &str, size: u64) -> (r: bool)
        ensures
            r == (!note_labels(self.found@).contains(label@) && size <= MAX_CHANGELOG_BYTES),
    {
        let ghost ls = note_labels(self.found@);
        let mut k: usize = 0;
        while k < self.found.len()
            invariant
                k <= self.found@.len(),
                ls == note_labels(self.found@),
                forall|m: int| 0 <= m < k ==> ls[m] != label@,
            decreases self.found.len() - k,
        {
            proof {
                assert(ls[k as int] == self.found@[k as int].0@);
            }
            if str_eq(self.found[k].0.as_str(), label) {
                proof {
                    assert(ls.contains(ls[k as int]));
                }
                return false;
            }
            k = k + 1;
        }
        proof {
            assert(!ls.contains(label@)) by {
                if ls.contains(label@) {
                    let m = choose|m: int| 0 <= m < ls.len() && ls[m] == label@;
                    assert(ls[m] != label@);
                }
            }
        }
        size <= MAX_CHANGELOG_BYTES
    }

    /// Take in a changelog that was read: its excerpt is kept unless blank.
    pub fn add(&mut self, label: String, text: &str)
        requires
            old(self).wf(),
            old(self).found@.len() < MAX_CHANGELOGS,
        ensures
            final(self).wf(),
            if not_blank(excerpt_of(text@)) {
                final(self).found@.len() == old(self).found@.len() + 1
                    && final(self).found@.take(old(self).found@.len() as int) == old(self).found@
                    && final(self).found@.last().0 == label
                    && final(self).found@.last().1@ == excerpt_of(text@)
            } else {
                final(self).found@ == old(self).found@
            },
    {
        let excerpt = changelog_excerpt(text);
        let e = chars_of(excerpt.as_str());
        if !crate::text::is_blank_chars(&e) {
            let ghost before = self.found@;
            self.found.push((label, excerpt));
            proof {
                assert(self.found@.take(before.len() as int) =~= before);
            }
        }
    }
}


// ───────────────────────────── Odoo manifest versions ─────────────────────────────

/// A line with its diff marker (`+`/`-`) removed, trailing commas dropped, trimmed.
pub open spec fn version_line_body(line: Seq<char>) -> Seq<char> {
    let raw = trim(line);
    let unmarked = match strip_prefix(raw, "+"@) {
        Some(r) => r,
        None => match strip_prefix(raw, "-"@) {
            Some(r) => r,
            None => raw,
        },
    };
    trim(trim_end_char(trim(unmarked), ','))
}

/// Whether some character is an ASCII digit.
pub open spec fn has_digit(s: Seq<char>) -> bool {
    exists|k: int| 0 <= k < s.len() && is_digit(#[trigger] s[k])
}

/// One attempt at `key` (`'version'` or `"version"`): `Some(answer)` ends the
/// parse with that answer, `None` moves on to the next key.
pub open spec fn version_after_key(s: Seq<char>, key: Seq<char>) -> Option<Option<Seq<char>>> {
    match find(s, key) {
        None => None,
        Some(idx) => {
            let after_key = trim_start(s.skip(idx + key.len()));
            let sep = match strip_prefix(after_key, ":"@) {
                Some(r) => Some(r),
                None => strip_prefix(after_key, "="@),
            };
            match sep {
                None => Some(None),
                Some(rest) => {
                    let after_sep = trim_start(rest);
                    if after_sep.len() == 0 {
                        Some(None)
                    } else if after_sep[0] != '\'' && after_sep[0] != '"' {
                        None
                    } else {
                        let inner = after_sep.skip(1);
                        let end = char_pos(inner, after_sep[0]);
                        if end >= inner.len() {
                            Some(None)
                        } else {
                            let val = trim(inner.take(end as int));
                            if val.len() > 0 && has_digit(val) {
                                Some(Some(val))
                            } else {
                                None
                            }
                        }
                    }
                },
            }
        },
    }
}

/// An Odoo-style `version` assignment on one line (`'version': '19.0.1.0.0'`,
/// `"version": "…"`, an optional leading diff `+`/`-`).
pub open spec fn version_in_line(line: Seq<char>) -> Option<Seq<char>> {
    let s = version_line_body(line);
    match version_after_key(s, "'version'"@) {
        Some(answer) => answer,
        None => match version_after_key(s, "\"version\""@) {
            Some(answer) => answer,
            None => None,
        },
    }
}

fn digit_in(s: &[char]) -> (r: bool)
    ensures
        r == has_digit(s@),
{
    let mut k: usize = 0;
    while k < s.len()
        invariant
            k <= s@.len(),
            forall|m: int| 0 <= m < k ==> !is_digit(#[trigger] s@[m]),
        decreases s.len() - k,
    {
        if '0' <= s[k] && s[k] <= '9' {
            return true;
        }
        k = k + 1;
    }
    false
}

fn version_after_key_exec(s: &[char], key: &str) -> (r: Option<Option<Vec<char>>>)
    ensures
        match r {
            None => version_after_key(s@, key@) is None,
            Some(None) => version_after_key(s@, key@) == Some(None::<Seq<char>>),
            Some(Some(v)) => version_after_key(s@, key@) == Some(Some(v@)),
        },
{
    let k = chars_of(key);
    let idx = match find_chars(s, &k) {
        None => return None,
        Some(i) => i,
    };
    proof {
        lemma_find(s@, k@);
        assert(occurs_at(s@, k@, idx as int));
        assert(idx + k@.len() <= s@.len());
    }
    let klen = k.len();
    let slen = s.len();
    assert(idx + klen <= slen);
    let start: usize = idx + klen;
    let after_key = trim_start_chars(&slice_of(s, start, slen));
    proof {
        assert(s@.subrange(idx + k@.len(), s@.len() as int) =~= s@.skip(idx + k@.len()));
    }
    let rest = match strip_prefix_str(&after_key, ":") {
        Some(r) => r,
        None => match strip_prefix_str(&after_key, "=") {
            Some(r) => r,
            None => return Some(None),
        },
    };
    let after_sep = trim_start_chars(&rest);
    if after_sep.len() == 0 {
        return Some(None);
    }
    let q = after_sep[0];
    if q != '\'' && q != '"' {
        return None;
    }
    let inner = slice_of(&after_sep, 1, after_sep.len());
    proof {
        assert(inner@ =~= after_sep@.skip(1));
    }
    let end = char_pos_from(&inner, q, 0);
    proof {
        assert(inner@.skip(0) =~= inner@);
    }
    if end >= inner.len() {
        return Some(None);
    }
    let val = trim_chars(&slice_of(&inner, 0, end));
    proof {
        assert(inner@.subrange(0, end as int) =~= inner@.take(end as int));
    }
    if val.len() > 0 && digit_in(&val) {
        Some(Some(val))
    } else {
        None
    }
}

fn version_line_body_exec(line: &[char]) -> (r: Vec<char>)
    ensures
        r@ == version_line_body(line@),
{
    let raw = trim_chars(line);
    let unmarked = match strip_prefix_str(&raw, "+") {
        Some(r) => r,
        None => match strip_prefix_str(&raw, "-") {
            Some(r) => r,
            None => raw,
        },
    };
    trim_chars(&trim_end_char_chars(&trim_chars(&unmarked), ','))
}

fn version_in_chars(line: &[char]) -> (r: Option<Vec<char>>)
    ensures
        opt_chars_view(r) == version_in_line(line@),
{
    let s = version_line_body_exec(line);
    match version_after_key_exec(&s, "'version'") {
        Some(answer) => answer,
        None => match version_after_key_exec(&s, "\"version\"") {
            Some(answer) => answer,
            None => None,
        },
    }
}

/// The view of an optional character vector.
pub open spec fn opt_chars_view(o: Option<Vec<char>>) -> Option<Seq<char>> {
    match o {
        Some(v) => Some(v@),
        None => None,
    }
}

/// The view of an optional string.
pub open spec fn opt_str_view(o: Option<String>) -> Option<Seq<char>> {
    match o {
        Some(v) => Some(v@),
        None => None,
    }
}

fn opt_string(o: Option<Vec<char>>) -> (r: Option<String>)
    ensures
        opt_str_view(r) == opt_chars_view(o),
{
    match o {
        Some(v) => Some(string_from(&v)),
        None => None,
    }
}

/// Parse an Odoo-style `version` assignment from a single line.
pub fn parse_odoo_version_line(line: &str) -> (r: Option<String>)
    ensures
        opt_str_view(r) == version_in_line(line@),
{
    opt_string(version_in_chars(&chars_of(line)))
}

/// An added (`+`, not `+++`) line of a diff.
pub open spec fn added_line(l: Seq<char>) -> bool {
    starts_with(l, "+"@) && !starts_with(l, "+++"@)
}

/// The first version found on a line of `ls` at or after `i` (only on added
/// lines when `added_only`).
pub open spec fn first_version(ls: Seq<Seq<char>>, i: int, added_only: bool) -> Option<Seq<char>>
    decreases ls.len() - i,
{
    if i < 0 || i >= ls.len() {
        None
    } else if (!added_only || added_line(ls[i])) && version_in_line(ls[i]) is Some {
        version_in_line(ls[i])
    } else {
        first_version(ls, i + 1, added_only)
    }
}

/// The version a diff shows: preferably on an added line, else on any line.
pub open spec fn diff_version(diff: Seq<char>) -> Option<Seq<char>> {
    match first_version(lines(diff), 0, true) {
        Some(v) => Some(v),
        None => first_version(lines(diff), 0, false),
    }
}

fn first_version_exec(ls: &Vec<Vec<char>>, added_only: bool) -> (r: Option<Vec<char>>)
    ensures
        opt_chars_view(r) == first_version(views(ls@), 0, added_only),
{
    let ghost lv = views(ls@);
    let mut k: usize = 0;
    while k < ls.len()
        invariant
            k <= ls@.len(),
            lv == views(ls@),
            first_version(lv, k as int, added_only) == first_version(lv, 0, added_only),
        decreases ls.len() - k,
    {
        proof {
            assert(lv[k as int] == ls@[k as int]@);
        }
        if !added_only || (starts_with_str(&ls[k], "+") && !starts_with_str(&ls[k], "+++")) {
            let v = version_in_chars(&ls[k]);
            if v.is_some() {
                return v;
            }
        }
        k = k + 1;
    }
    None
}

/// The version the diff shows (new value preferred).
pub fn version_from_added_diff_lines(diff: &str) -> (r: Option<String>)
    ensures
        opt_str_view(r) == diff_version(diff@),
{
    let ls = lines_of(&chars_of(diff));
    match first_version_exec(&ls, true) {
        Some(v) => Some(string_from(&v)),
        None => opt_string(first_version_exec(&ls, false)),
    }
}

/// The first version assignment in a manifest file's text.
pub fn version_from_manifest_text(content: &str) -> (r: Option<String>)
    ensures
        opt_str_view(r) == first_version(lines(content@), 0, false),
{
    let ls = lines_of(&chars_of(content));
    opt_string(first_version_exec(&ls, false))
}

/// Whether the change set touches an Odoo manifest.
pub open spec fn touches_manifest(diff: Seq<char>) -> bool {
    manifests(diff_paths(lines(diff))).len() > 0 || contains(diff, "__manifest__.py"@) || contains(
        diff,
        "__openerp__.py"@,
    )
}

/// The module version for commit prompts: the on-disk manifest version when
/// the diff headers name a manifest and one was read, else the diff's own.
pub open spec fn manifest_version(diff: Seq<char>, disk_version: Option<Seq<char>>) -> Option<
    Seq<char>,
> {
    let from_disk = if manifests(diff_paths(lines(diff))).len() > 0 {
        disk_version
    } else {
        None
    };
    match from_disk {
        Some(v) => Some(v),
        None => diff_version(diff),
    }
}

/// The hint line naming the module version, when the change set touches a
/// manifest and a version is known.
pub open spec fn version_hint(diff: Seq<char>, disk_version: Option<Seq<char>>) -> Option<
    Seq<char>,
> {
    if !touches_manifest(diff) {
        None
    } else {
        match manifest_version(diff, disk_version) {
            Some(v) => Some("Odoo module version (from __manifest__.py): "@ + v),
            None => None,
        }
    }
}

/// Resolve an Odoo module version for commit prompts. `disk_version` is the
/// version read from the first manifest (named by the diff headers) that has
/// one on disk, when the repo root is known.
pub fn odoo_manifest_version_hint(diff: &str, disk_version: Option<&str>) -> (r: Option<String>)
    ensures
        opt_str_view(r) == version_hint(
            diff@,
            match disk_version {
                Some(d) => Some(d@),
                None => None,
            },
        ),
{
    let paths = manifest_paths_in_diff(diff);
    let d = chars_of(diff);
    let touches = paths.len() > 0 || contains_str(&d, "__manifest__.py") || contains_str(
        &d,
        "__openerp__.py",
    );
    if !touches {
        return None;
    }
    let from_disk: Option<Vec<char>> = if paths.len() > 0 {
        match disk_version {
            Some(v) => Some(chars_of(v)),
            None => None,
        }
    } else {
        None
    };
    let version = match from_disk {
        Some(v) => v,
        None => match version_from_added_diff_lines(diff) {
            Some(v) => chars_of(v.as_str()),
            None => return None,
        },
    };
    let mut out: Vec<char> = Vec::new();
    push_str(&mut out, "Odoo module version (from __manifest__.py): ");
    push_all(&mut out, &version);
    Some(string_from(&out))
}


// ───────────────────────────── commit prompts ─────────────────────────────

/// Max diff characters fed into the commit prompt.
pub const COMMIT_DIFF_CLAMP: usize = 10000;
/// Default token budget for short generations.
pub const DEFAULT_NUM_PREDICT: u32 = 120;
/// Token budget for Conventional Commit messages.
pub const COMMIT_NUM_PREDICT: u32 = 384;
/// How many distinct changelog files feed one commit prompt.
pub const MAX_CHANGELOGS: usize = 3;
/// Changelogs larger than this many bytes are skipped.
pub const MAX_CHANGELOG_BYTES: u64 = 204800;
/// Recent commit subjects shown to the model for house style.
pub const RECENT_SUBJECTS: usize = 5;

pub const COMMIT_PROMPT_HEAD: &'static str = "Write a Conventional Commit message for these staged changes.\n\nRequirements:\n- Subject line in Conventional Commit form (e.g. `feat(scope): summary`), under ~72 characters.\n- Then a blank line, then a real body of 2–5 short sentences or bullets explaining WHAT changed and WHY — not a subject-only one-liner.\n- Do not invent version numbers, issue ids or file names that are not in the input.\n";
pub const COMMIT_VERSION_RULE: &'static str = "- You MUST mention the module version shown below in the subject or body.\n";
pub const COMMIT_PROMPT_RULES_END: &'static str = "- Output ONLY the commit message — no code fences, no preamble, no quotes around the whole message.\n- Write in English.\n";
pub const NOTES_HEAD: &'static str = "\nExisting changelog notes from `";
pub const NOTES_MID: &'static str = "` — use them to explain WHAT changed and WHY. Only rely on entries that match this diff; do not copy them verbatim:\n";
pub const SUBJECTS_HEAD: &'static str = "\nRecent commit subjects in this repo, for scope naming and style only — do not describe their changes:\n";

/// Extra context beyond the diff itself.
#[derive(Debug, Clone)]
pub struct CommitExtras {
    /// Changelog notes near the changed files, as (repo-relative path, excerpt).
    pub changelogs: Vec<(String, String)>,
    /// Recent commit subjects (newest first): house style, not content.
    pub recent_subjects: Vec<String>,
}

impl Default for CommitExtras {
    fn default() -> (r: Self)
        ensures
            r.changelogs@.len() == 0,
            r.recent_subjects@.len() == 0,
    {
        CommitExtras { changelogs: Vec::new(), recent_subjects: Vec::new() }
    }
}

/// Whether a string is not blank.
pub open spec fn not_blank(s: Seq<char>) -> bool {
    trim(s).len() > 0
}

impl CommitExtras {
    /// Assemble the extras from gathered changelog notes and recent commit
    /// subjects; blank subjects are dropped.
    pub fn gather(changelogs: Vec<(String, String)>, recent_subjects: Vec<String>) -> (r: Self)
        ensures
            r.changelogs@ == changelogs@,
            str_views(r.recent_subjects@) == str_views(recent_subjects@).filter(
                |x: Seq<char>| not_blank(x),
            ),
    {
        let mut kept: Vec<String> = Vec::new();
        let ghost sv = str_views(recent_subjects@);
        let mut k: usize = 0;
        while k < recent_subjects.len()
            invariant
                k <= recent_subjects@.len(),
                sv == str_views(recent_subjects@),
                str_views(kept@) == sv.take(k as int).filter(|x: Seq<char>| not_blank(x)),
            decreases recent_subjects.len() - k,
        {
            proof {
                assert(sv.take(k + 1).drop_last() =~= sv.take(k as int));
                assert(sv.take(k + 1).last() == recent_subjects@[k as int]@);
                reveal(Seq::filter);
            }
            let c = chars_of(recent_subjects[k].as_str());
            if !crate::text::is_blank_chars(&c) {
                let x = string_from(&c);
                proof {
                    assert(str_views(kept@.push(x)) =~= str_views(kept@).push(x@));
                }
                kept.push(x);
            }
            k = k + 1;
        }
        proof {
            assert(sv.take(recent_subjects@.len() as int) =~= sv);
        }
        CommitExtras { changelogs, recent_subjects: kept }
    }
}

/// The note block for one changelog.
pub open spec fn changelog_note(path: Seq<char>, excerpt: Seq<char>) -> Seq<char> {
    NOTES_HEAD@ + path + NOTES_MID@ + excerpt + "\n"@
}

pub open spec fn notes_text(cls: Seq<(String, String)>) -> Seq<char>
    decreases cls.len(),
{
    if cls.len() == 0 {
        Seq::empty()
    } else {
        notes_text(cls.drop_last()) + changelog_note(cls.last().0@, cls.last().1@)
    }
}

/// `- subject` for each subject.
pub open spec fn dashed(items: Seq<Seq<char>>) -> Seq<Seq<char>> {
    items.map_values(|x: Seq<char>| "- "@ + x)
}

/// The changelog notes and recent-subject blocks; empty extras render nothing.
pub open spec fn extras_text(cls: Seq<(String, String)>, subjects: Seq<Seq<char>>) -> Seq<char> {
    notes_text(cls) + if subjects.len() > 0 {
        SUBJECTS_HEAD@ + join(dashed(subjects), "\n"@) + "\n"@
    } else {
        Seq::empty()
    }
}

fn dashed_exec(items: &Vec<String>) -> (r: Vec<Vec<char>>)
    ensures
        views(r@) == dashed(str_views(items@)),
{
    let mut r: Vec<Vec<char>> = Vec::new();
    let mut k: usize = 0;
    while k < items.len()
        invariant
            k <= items@.len(),
            views(r@) == dashed(str_views(items@).take(k as int)),
        decreases items.len() - k,
    {
        let mut line: Vec<char> = Vec::new();
        push_str(&mut line, "- ");
        push_str(&mut line, items[k].as_str());
        proof {
            lemma_views_push(r@, line);
            assert(dashed(str_views(items@).take(k + 1)) =~= dashed(str_views(items@).take(k as int)).push(
                "- "@ + items@[k as int]@,
            ));
        }
        r.push(line);
        k = k + 1;
    }
    proof {
        assert(str_views(items@).take(items@.len() as int) =~= str_views(items@));
    }
    r
}

fn newline() -> (r: Vec<char>)
    ensures
        r@ == "\n"@,
{
    chars_of("\n")
}

/// Render the changelog notes / recent-subject blocks.
pub fn extras_block(extras: &CommitExtras) -> (r: String)
    ensures
        r@ == extras_text(extras.changelogs@, str_views(extras.recent_subjects@)),
{
    let mut out: Vec<char> = Vec::new();
    let mut k: usize = 0;
    while k < extras.changelogs.len()
        invariant
            k <= extras.changelogs@.len(),
            out@ == notes_text(extras.changelogs@.take(k as int)),
        decreases extras.changelogs.len() - k,
    {
        proof {
            assert(extras.changelogs@.take(k + 1).drop_last() =~= extras.changelogs@.take(k as int));
        }
        push_str(&mut out, NOTES_HEAD);
        push_str(&mut out, extras.changelogs[k].0.as_str());
        push_str(&mut out, NOTES_MID);
        push_str(&mut out, extras.changelogs[k].1.as_str());
        push_str(&mut out, "\n");
        k = k + 1;
    }
    proof {
        assert(extras.changelogs@.take(extras.changelogs@.len() as int) =~= extras.changelogs@);
    }
    if extras.recent_subjects.len() > 0 {
        push_str(&mut out, SUBJECTS_HEAD);
        let d = dashed_exec(&extras.recent_subjects);
        push_all(&mut out, &join_chars(&d, &newline()));
        push_str(&mut out, "\n");
    }
    string_from(&out)
}

/// The full commit prompt.
pub open spec fn commit_prompt_text(
    diff: Seq<char>,
    disk_version: Option<Seq<char>>,
    cls: Seq<(String, String)>,
    subjects: Seq<Seq<char>>,
) -> Seq<char> {
    let vh = version_hint(diff, disk_version);
    let rule = if vh is Some {
        COMMIT_VERSION_RULE@
    } else {
        Seq::empty()
    };
    let hint = match vh {
        Some(h) => "\n"@ + h + "\n"@,
        None => Seq::empty(),
    };
    COMMIT_PROMPT_HEAD@ + rule + COMMIT_PROMPT_RULES_END@ + hint + extras_text(cls, subjects)
        + "\nDiff:\n"@ + clamp(diff, COMMIT_DIFF_CLAMP as nat) + "\n\nCommit message:"@
}

/// The view of an optional `&str`.
pub open spec fn opt_ref_view(o: Option<&str>) -> Option<Seq<char>> {
    match o {
        Some(d) => Some(d@),
        None => None,
    }
}

/// The full commit prompt: the diff, the Odoo manifest version hint (the
/// version rule is stated only when a version was found), and the extras.
pub fn commit_prompt_with_extras(diff: &str, disk_version: Option<&str>, extras: &CommitExtras) -> (r:
    String)
    ensures
        r@ == commit_prompt_text(
            diff@,
            opt_ref_view(disk_version),
            extras.changelogs@,
            str_views(extras.recent_subjects@),
        ),
{
    let vh = odoo_manifest_version_hint(diff, disk_version);
    let mut out: Vec<char> = Vec::new();
    push_str(&mut out, COMMIT_PROMPT_HEAD);
    if vh.is_some() {
        push_str(&mut out, COMMIT_VERSION_RULE);
    }
    push_str(&mut out, COMMIT_PROMPT_RULES_END);
    match &vh {
        Some(h) => {
            push_str(&mut out, "\n");
            push_str(&mut out, h.as_str());
            push_str(&mut out, "\n");
        },
        None => {},
    }
    let eb = extras_block(extras);
    push_str(&mut out, eb.as_str());
    push_str(&mut out, "\nDiff:\n");
    push_all(&mut out, &clamp_chars(&chars_of(diff), COMMIT_DIFF_CLAMP));
    push_str(&mut out, "\n\nCommit message:");
    proof {
        assert(opt_ref_view(disk_version) == match disk_version {
            Some(d) => Some(d@),
            None => None::<Seq<char>>,
        });
    }
    string_from(&out)
}

/// Like `commit_prompt`, with the on-disk manifest version when known.
pub fn commit_prompt_with_context(diff: &str, disk_version: Option<&str>) -> (r: String)
    ensures
        r@ == commit_prompt_text(diff@, opt_ref_view(disk_version), Seq::empty(), Seq::empty()),
{
    let extras = CommitExtras::default();
    let r = commit_prompt_with_extras(diff, disk_version, &extras);
    proof {
        assert(extras.changelogs@ =~= Seq::<(String, String)>::empty());
        assert(str_views(extras.recent_subjects@) =~= Seq::<Seq<char>>::empty());
    }
    r
}

/// Prompt to write a Conventional Commit message from a staged/working diff.
pub fn commit_prompt(diff: &str) -> (r: String)
    ensures
        r@ == commit_prompt_text(diff@, None, Seq::empty(), Seq::empty()),
{
    commit_prompt_with_context(diff, None)
}

// ───────────────────────────── what a commit prompt holds ─────────────────────────────

/// The words of the version rule that ask the model for the module version.
pub open spec fn version_phrase() -> Seq<char> {
    "MUST mention the module version"@
}

/// No text among the changelog notes and subjects holds the version phrase.
pub open spec fn extras_free_of(cls: Seq<(String, String)>, subjects: Seq<Seq<char>>, x: Seq<char>) -> bool {
    &&& forall|i: int| 0 <= i < cls.len() ==> !contains(#[trigger] cls[i].0@, x) && !contains(cls[i].1@, x)
    &&& forall|i: int| 0 <= i < subjects.len() ==> !contains(#[trigger] subjects[i], x)
}

proof fn lemma_phrase_facts()
    ensures
        version_phrase().len() == 31,
        version_phrase()[0] == 'M',
        !version_phrase().contains('\n'),
        !version_phrase().contains('`'),
        !version_phrase().contains('-'),
        !COMMIT_PROMPT_HEAD@.contains('M'),
        !COMMIT_PROMPT_RULES_END@.contains('M'),
        !NOTES_HEAD@.contains('M'),
        !NOTES_MID@.contains('M'),
        !SUBJECTS_HEAD@.contains('M'),
        !"\nDiff:\n"@.contains('M'),
        !"\n\nCommit message:"@.contains('M'),
        !"- "@.contains('M'),
        !"\n"@.contains('M'),
        COMMIT_PROMPT_RULES_END@.len() > 0 && COMMIT_PROMPT_RULES_END@[0] == '-'
            && COMMIT_PROMPT_RULES_END@.last() == '\n',
        NOTES_HEAD@.len() > 0 && NOTES_HEAD@[0] == '\n',
        NOTES_MID@.len() > 0 && NOTES_MID@[0] == '`' && NOTES_MID@.last() == '\n',
        SUBJECTS_HEAD@.len() > 0 && SUBJECTS_HEAD@[0] == '\n' && SUBJECTS_HEAD@.last() == '\n',
        "\nDiff:\n"@.len() > 0 && "\nDiff:\n"@[0] == '\n' && "\nDiff:\n"@.last() == '\n',
        "\n\nCommit message:"@.len() > 0 && "\n\nCommit message:"@[0] == '\n',
        "\n"@.len() == 1 && "\n"@[0] == '\n',
        "- "@.len() == 2,
        contains(COMMIT_VERSION_RULE@, version_phrase()),
{
    reveal_strlit("MUST mention the module version");
    reveal_strlit("Write a Conventional Commit message for these staged changes.\n\nRequirements:\n- Subject line in Conventional Commit form (e.g. `feat(scope): summary`), under ~72 characters.\n- Then a blank line, then a real body of 2–5 short sentences or bullets explaining WHAT changed and WHY — not a subject-only one-liner.\n- Do not invent version numbers, issue ids or file names that are not in the input.\n");
    reveal_strlit("- Output ONLY the commit message — no code fences, no preamble, no quotes around the whole message.\n- Write in English.\n");
    reveal_strlit("\nExisting changelog notes from `");
    reveal_strlit("` — use them to explain WHAT changed and WHY. Only rely on entries that match this diff; do not copy them verbatim:\n");
    reveal_strlit("\nRecent commit subjects in this repo, for scope naming and style only — do not describe their changes:\n");
    reveal_strlit("- You MUST mention the module version shown below in the subject or body.\n");
    reveal_strlit("\nDiff:\n");
    reveal_strlit("\n\nCommit message:");
    reveal_strlit("- ");
    reveal_strlit("\n");
    assert(COMMIT_VERSION_RULE@.subrange(6, 37) =~= version_phrase());
    assert(occurs_at(COMMIT_VERSION_RULE@, version_phrase(), 6));
}

/// A constant piece is free of the phrase and no tail of it starts it.
proof fn lemma_piece(c: Seq<char>)
    requires
        !c.contains('M'),
    ensures
        !contains(c, version_phrase()),
        no_tail_start(c, version_phrase()),
{
    lemma_phrase_facts();
    lemma_lacks_first(c, version_phrase());
}

proof fn lemma_note_free(path: Seq<char>, excerpt: Seq<char>)
    requires
        !contains(path, version_phrase()),
        !contains(excerpt, version_phrase()),
    ensures
        !contains(changelog_note(path, excerpt), version_phrase()),
        changelog_note(path, excerpt).last() == '\n',
        changelog_note(path, excerpt).len() > 0,
{
    let x = version_phrase();
    lemma_phrase_facts();
    lemma_piece(NOTES_HEAD@);
    lemma_piece(NOTES_MID@);
    lemma_piece("\n"@);
    lemma_no_occurrence_concat(NOTES_HEAD@, path, x);
    let a = NOTES_HEAD@ + path;
    lemma_no_occurrence_concat(a, NOTES_MID@, x);
    let b = a + NOTES_MID@;
    assert(b.last() == '\n');
    lemma_tail_ends_outside(b, x);
    lemma_no_occurrence_concat(b, excerpt, x);
    lemma_no_occurrence_concat(b + excerpt, "\n"@, x);
}

proof fn lemma_notes_free(cls: Seq<(String, String)>)
    requires
        forall|i: int| 0 <= i < cls.len() ==> !contains(#[trigger] cls[i].0@, version_phrase()) && !contains(
            cls[i].1@,
            version_phrase(),
        ),
    ensures
        !contains(notes_text(cls), version_phrase()),
        notes_text(cls).len() > 0 ==> notes_text(cls).last() == '\n',
    decreases cls.len(),
{
    let x = version_phrase();
    lemma_phrase_facts();
    if cls.len() > 0 {
        let rest = cls.drop_last();
        assert forall|i: int| 0 <= i < rest.len() implies !contains(#[trigger] rest[i].0@, x) && !contains(
            rest[i].1@,
            x,
        ) by {
            assert(rest[i] == cls[i]);
        }
        lemma_notes_free(rest);
        let last = cls[cls.len() - 1];
        assert(!contains(last.0@, x) && !contains(last.1@, x));
        lemma_note_free(last.0@, last.1@);
        let n = changelog_note(cls.last().0@, cls.last().1@);
        if notes_text(rest).len() > 0 {
            lemma_tail_ends_outside(notes_text(rest), x);
        } else {
            assert(n[0] == NOTES_HEAD@[0]);
        }
        lemma_no_occurrence_concat(notes_text(rest), n, x);
    }
}

proof fn lemma_join_free(parts: Seq<Seq<char>>)
    requires
        forall|i: int| 0 <= i < parts.len() ==> !contains(#[trigger] parts[i], version_phrase()),
    ensures
        !contains(join(parts, "\n"@), version_phrase()),
    decreases parts.len(),
{
    let x = version_phrase();
    lemma_phrase_facts();
    if parts.len() == 1 {
        assert(!contains(parts[0], x));
    } else if parts.len() > 1 {
        let rest = parts.drop_last();
        assert forall|i: int| 0 <= i < rest.len() implies !contains(#[trigger] rest[i], x) by {
            assert(rest[i] == parts[i]);
        }
        lemma_join_free(rest);
        lemma_piece("\n"@);
        lemma_no_occurrence_concat(join(rest, "\n"@), "\n"@, x);
        let j = join(rest, "\n"@) + "\n"@;
        assert(j.last() == '\n');
        lemma_tail_ends_outside(j, x);
        assert(!contains(parts[parts.len() - 1], x));
        lemma_no_occurrence_concat(j, parts.last(), x);
    }
}

proof fn lemma_extras_free(cls: Seq<(String, String)>, subjects: Seq<Seq<char>>)
    requires
        extras_free_of(cls, subjects, version_phrase()),
    ensures
        !contains(extras_text(cls, subjects), version_phrase()),
        extras_text(cls, subjects).len() > 0 ==> extras_text(cls, subjects)[0] == '\n'
            || notes_text(cls).len() > 0,
{
    let x = version_phrase();
    lemma_phrase_facts();
    lemma_notes_free(cls);
    if subjects.len() > 0 {
        let d = dashed(subjects);
        assert forall|i: int| 0 <= i < d.len() implies !contains(#[trigger] d[i], x) by {
            lemma_piece("- "@);
            assert(d[i] == "- "@ + subjects[i]);
            assert(!contains(subjects[i], x));
            lemma_no_occurrence_concat("- "@, subjects[i], x);
        }
        lemma_join_free(d);
        lemma_piece(SUBJECTS_HEAD@);
        lemma_no_occurrence_concat(SUBJECTS_HEAD@, join(d, "\n"@), x);
        lemma_piece("\n"@);
        lemma_no_occurrence_concat(SUBJECTS_HEAD@ + join(d, "\n"@), "\n"@, x);
        let sb = SUBJECTS_HEAD@ + join(d, "\n"@) + "\n"@;
        assert(sb[0] == '\n');
        if notes_text(cls).len() > 0 {
            lemma_tail_ends_outside(notes_text(cls), x);
        }
        lemma_no_occurrence_concat(notes_text(cls), sb, x);
    } else {
        assert(extras_text(cls, subjects) =~= notes_text(cls));
    }
}

proof fn lemma_notes_hold(cls: Seq<(String, String)>, i: int)
    requires
        0 <= i < cls.len(),
    ensures
        contains(notes_text(cls), cls[i].0@),
        contains(notes_text(cls), cls[i].1@),
    decreases cls.len(),
{
    let rest = cls.drop_last();
    if i < cls.len() - 1 {
        lemma_notes_hold(rest, i);
        assert(rest[i] == cls[i]);
        let n = changelog_note(cls.last().0@, cls.last().1@);
        lemma_contains_concat(notes_text(rest), n, cls[i].0@);
        lemma_contains_concat(notes_text(rest), n, cls[i].1@);
    } else {
        let p = cls[i].0@;
        let e = cls[i].1@;
        lemma_contains_self(p);
        lemma_contains_self(e);
        lemma_contains_concat(NOTES_HEAD@, p, p);
        lemma_contains_concat(NOTES_HEAD@ + p, NOTES_MID@, p);
        lemma_contains_concat(NOTES_HEAD@ + p + NOTES_MID@, e, p);
        lemma_contains_concat(NOTES_HEAD@ + p + NOTES_MID@, e, e);
        lemma_contains_concat(NOTES_HEAD@ + p + NOTES_MID@ + e, "\n"@, p);
        lemma_contains_concat(NOTES_HEAD@ + p + NOTES_MID@ + e, "\n"@, e);
        let n = changelog_note(p, e);
        lemma_contains_concat(notes_text(rest), n, p);
        lemma_contains_concat(notes_text(rest), n, e);
    }
}

proof fn lemma_join_holds(parts: Seq<Seq<char>>, i: int)
    requires
        0 <= i < parts.len(),
    ensures
        contains(join(parts, "\n"@), parts[i]),
    decreases parts.len(),
{
    if parts.len() == 1 {
        lemma_contains_self(parts[0]);
    } else {
        let rest = parts.drop_last();
        let j = join(rest, "\n"@) + "\n"@;
        if i < parts.len() - 1 {
            lemma_join_holds(rest, i);
            assert(rest[i] == parts[i]);
            lemma_contains_concat(join(rest, "\n"@), "\n"@, parts[i]);
            lemma_contains_concat(j, parts.last(), parts[i]);
        } else {
            lemma_contains_self(parts[i]);
            lemma_contains_concat(j, parts.last(), parts[i]);
        }
    }
}

proof fn lemma_extras_in_prompt(
    diff: Seq<char>,
    disk_version: Option<Seq<char>>,
    cls: Seq<(String, String)>,
    subjects: Seq<Seq<char>>,
    s: Seq<char>,
)
    requires
        contains(extras_text(cls, subjects), s),
    ensures
        contains(commit_prompt_text(diff, disk_version, cls, subjects), s),
{
    let vh = version_hint(diff, disk_version);
    let rule = if vh is Some { COMMIT_VERSION_RULE@ } else { Seq::empty() };
    let hint = match vh {
        Some(h) => "\n"@ + h + "\n"@,
        None => Seq::empty(),
    };
    let ex = extras_text(cls, subjects);
    let cd = clamp(diff, COMMIT_DIFF_CLAMP as nat);
    let a3 = COMMIT_PROMPT_HEAD@ + rule + COMMIT_PROMPT_RULES_END@ + hint;
    let a4 = a3 + ex;
    let a5 = a4 + "\nDiff:\n"@;
    let a6 = a5 + cd;
    assert(a6 + "\n\nCommit message:"@ == commit_prompt_text(diff, disk_version, cls, subjects));
    lemma_contains_concat(a3, ex, s);
    lemma_contains_concat(a4, "\nDiff:\n"@, s);
    lemma_contains_concat(a5, cd, s);
    lemma_contains_concat(a6, "\n\nCommit message:"@, s);
}

proof fn lemma_notes_in_extras(cls: Seq<(String, String)>, subjects: Seq<Seq<char>>, i: int)
    requires
        0 <= i < cls.len(),
    ensures
        contains(extras_text(cls, subjects), cls[i].0@),
        contains(extras_text(cls, subjects), cls[i].1@),
{
    lemma_notes_hold(cls, i);
    let sb = if subjects.len() > 0 {
        SUBJECTS_HEAD@ + join(dashed(subjects), "\n"@) + "\n"@
    } else {
        Seq::empty()
    };
    assert(extras_text(cls, subjects) == notes_text(cls) + sb);
    lemma_contains_concat(notes_text(cls), sb, cls[i].0@);
    lemma_contains_concat(notes_text(cls), sb, cls[i].1@);
}

proof fn lemma_subject_in_extras(cls: Seq<(String, String)>, subjects: Seq<Seq<char>>, i: int)
    requires
        0 <= i < subjects.len(),
    ensures
        contains(extras_text(cls, subjects), subjects[i]),
{
    let d = dashed(subjects);
    lemma_join_holds(d, i);
    assert(d[i] == "- "@ + subjects[i]);
    lemma_contains_self(subjects[i]);
    lemma_contains_concat("- "@, subjects[i], subjects[i]);
    let j = join(d, "\n"@);
    assert(contains(j, subjects[i])) by {
        let k = choose|k: int| occurs_at(j, d[i], k);
        let m = choose|m: int| occurs_at(d[i], subjects[i], m);
        assert(j.subrange(k + m, k + m + subjects[i].len()) =~= d[i].subrange(m, m + subjects[i].len()));
        assert(occurs_at(j, subjects[i], k + m));
    }
    lemma_contains_concat(SUBJECTS_HEAD@, j, subjects[i]);
    lemma_contains_concat(SUBJECTS_HEAD@ + j, "\n"@, subjects[i]);
    let sb = SUBJECTS_HEAD@ + j + "\n"@;
    assert(extras_text(cls, subjects) == notes_text(cls) + sb);
    lemma_contains_concat(notes_text(cls), sb, subjects[i]);
}

proof fn lemma_prompt_holds_extras(
    diff: Seq<char>,
    disk_version: Option<Seq<char>>,
    cls: Seq<(String, String)>,
    subjects: Seq<Seq<char>>,
)
    ensures
        forall|i: int|
            0 <= i < cls.len() ==> contains(commit_prompt_text(diff, disk_version, cls, subjects), #[trigger] cls[i].0@)
                && contains(commit_prompt_text(diff, disk_version, cls, subjects), cls[i].1@),
        forall|i: int|
            0 <= i < subjects.len() ==> contains(
                commit_prompt_text(diff, disk_version, cls, subjects),
                #[trigger] subjects[i],
            ),
{
    assert forall|i: int| 0 <= i < cls.len() implies contains(
        commit_prompt_text(diff, disk_version, cls, subjects),
        #[trigger] cls[i].0@,
    ) && contains(commit_prompt_text(diff, disk_version, cls, subjects), cls[i].1@) by {
        lemma_notes_in_extras(cls, subjects, i);
        lemma_extras_in_prompt(diff, disk_version, cls, subjects, cls[i].0@);
        lemma_extras_in_prompt(diff, disk_version, cls, subjects, cls[i].1@);
    }
    assert forall|i: int| 0 <= i < subjects.len() implies contains(
        commit_prompt_text(diff, disk_version, cls, subjects),
        #[trigger] subjects[i],
    ) by {
        lemma_subject_in_extras(cls, subjects, i);
        lemma_extras_in_prompt(diff, disk_version, cls, subjects, subjects[i]);
    }
}

proof fn lemma_prompt_version(
    diff: Seq<char>,
    disk_version: Option<Seq<char>>,
    cls: Seq<(String, String)>,
    subjects: Seq<Seq<char>>,
)
    ensures
        version_hint(diff, disk_version) is Some ==> contains(
            commit_prompt_text(diff, disk_version, cls, subjects),
            version_phrase(),
        ),
        !contains(diff, version_phrase()) && extras_free_of(cls, subjects, version_phrase())
            && version_hint(diff, disk_version) is None ==> !contains(
            commit_prompt_text(diff, disk_version, cls, subjects),
            version_phrase(),
        ),
{
    let x = version_phrase();
    lemma_phrase_facts();
    let vh = version_hint(diff, disk_version);
    let rule = if vh is Some { COMMIT_VERSION_RULE@ } else { Seq::empty() };
    let hint = match vh {
        Some(h) => "\n"@ + h + "\n"@,
        None => Seq::empty(),
    };
    let ex = extras_text(cls, subjects);
    let cd = clamp(diff, COMMIT_DIFF_CLAMP as nat);
    let a1 = COMMIT_PROMPT_HEAD@ + rule;
    let a2 = a1 + COMMIT_PROMPT_RULES_END@;
    let a3 = a2 + hint;
    let a4 = a3 + ex;
    let a5 = a4 + "\nDiff:\n"@;
    let a6 = a5 + cd;
    let p = a6 + "\n\nCommit message:"@;
    assert(p == commit_prompt_text(diff, disk_version, cls, subjects));
    // The version rule.
    if vh is Some {
        lemma_contains_concat(COMMIT_PROMPT_HEAD@, rule, x);
        lemma_contains_concat(a1, COMMIT_PROMPT_RULES_END@, x);
        lemma_contains_concat(a2, hint, x);
        lemma_contains_concat(a3, ex, x);
        lemma_contains_concat(a4, "\nDiff:\n"@, x);
        lemma_contains_concat(a5, cd, x);
        lemma_contains_concat(a6, "\n\nCommit message:"@, x);
    } else if !contains(diff, x) && extras_free_of(cls, subjects, x) {
        assert(a1 =~= COMMIT_PROMPT_HEAD@);
        assert(a3 =~= a2);
        lemma_piece(COMMIT_PROMPT_HEAD@);
        lemma_piece(COMMIT_PROMPT_RULES_END@);
        lemma_no_occurrence_concat(COMMIT_PROMPT_HEAD@, COMMIT_PROMPT_RULES_END@, x);
        assert(a2.last() == '\n');
        lemma_tail_ends_outside(a2, x);
        lemma_extras_free(cls, subjects);
        lemma_no_occurrence_concat(a3, ex, x);
        lemma_piece("\nDiff:\n"@);
        lemma_no_occurrence_concat(a4, "\nDiff:\n"@, x);
        assert(a5.last() == '\n');
        lemma_tail_ends_outside(a5, x);
        if diff.len() > COMMIT_DIFF_CLAMP {
            lemma_no_occurrence_prefix(diff, COMMIT_DIFF_CLAMP as int, x);
        }
        lemma_no_occurrence_concat(a5, cd, x);
        lemma_piece("\n\nCommit message:"@);
        lemma_no_occurrence_concat(a6, "\n\nCommit message:"@, x);
    }
}

/// What a commit prompt holds. It carries the (clamped) diff, every
/// changelog path and excerpt and every recent subject of the extras; it
/// asks for the module version exactly when a version hint was found (when
/// neither the diff nor any extra text already holds that request); and
/// with no extras it is the prompt without extras.
pub proof fn law_commit_prompt_contents(
    diff: Seq<char>,
    disk_version: Option<Seq<char>>,
    cls: Seq<(String, String)>,
    subjects: Seq<Seq<char>>,
)
    ensures
        contains(commit_prompt_text(diff, disk_version, cls, subjects), clamp(diff, COMMIT_DIFF_CLAMP as nat)),
        forall|i: int|
            0 <= i < cls.len() ==> contains(commit_prompt_text(diff, disk_version, cls, subjects), #[trigger] cls[i].0@)
                && contains(commit_prompt_text(diff, disk_version, cls, subjects), cls[i].1@),
        forall|i: int|
            0 <= i < subjects.len() ==> contains(
                commit_prompt_text(diff, disk_version, cls, subjects),
                #[trigger] subjects[i],
            ),
        version_hint(diff, disk_version) is Some ==> contains(
            commit_prompt_text(diff, disk_version, cls, subjects),
            version_phrase(),
        ),
        !contains(diff, version_phrase()) && extras_free_of(cls, subjects, version_phrase()) ==> (contains(
            commit_prompt_text(diff, disk_version, cls, subjects),
            version_phrase(),
        ) <==> version_hint(diff, disk_version) is Some),
        cls.len() == 0 && subjects.len() == 0 ==> commit_prompt_text(diff, disk_version, cls, subjects)
            == commit_prompt_text(diff, disk_version, Seq::empty(), Seq::empty()),
{
    let x = version_phrase();
    lemma_phrase_facts();
    let vh = version_hint(diff, disk_version);
    let rule = if vh is Some { COMMIT_VERSION_RULE@ } else { Seq::empty() };
    let hint = match vh {
        Some(h) => "\n"@ + h + "\n"@,
        None => Seq::empty(),
    };
    let ex = extras_text(cls, subjects);
    let cd = clamp(diff, COMMIT_DIFF_CLAMP as nat);
    let a1 = COMMIT_PROMPT_HEAD@ + rule;
    let a2 = a1 + COMMIT_PROMPT_RULES_END@;
    let a3 = a2 + hint;
    let a4 = a3 + ex;
    let a5 = a4 + "\nDiff:\n"@;
    let a6 = a5 + cd;
    let p = a6 + "\n\nCommit message:"@;
    assert(p == commit_prompt_text(diff, disk_version, cls, subjects));
    // The diff.
    lemma_contains_self(cd);
    lemma_contains_concat(a5, cd, cd);
    lemma_contains_concat(a6, "\n\nCommit message:"@, cd);
    lemma_prompt_holds_extras(diff, disk_version, cls, subjects);
    lemma_prompt_version(diff, disk_version, cls, subjects);
    if cls.len() == 0 && subjects.len() == 0 {
        assert(cls =~= Seq::<(String, String)>::empty());
        assert(subjects =~= Seq::<Seq<char>>::empty());
    }
}


// ───────────────────────────── parsing model output ─────────────────────────────

/// Drop leading non-whitespace characters.
pub open spec fn drop_word(s: Seq<char>) -> Seq<char>
    decreases s.len(),
{
    if s.len() > 0 && !is_ws(s[0]) {
        drop_word(s.drop_first())
    } else {
        s
    }
}

/// `text` without a wrapping markdown code fence (and the fence's language tag).
pub open spec fn unfenced(text: Seq<char>) -> Seq<char> {
    let t = trim(text);
    match strip_prefix(t, "```"@) {
        None => t,
        Some(rest) => {
            let i = char_pos(rest, '\n');
            let inner = if i < rest.len() {
                trim_start(rest.skip(i + 1 as int))
            } else {
                trim(drop_word(rest))
            };
            match rfind(inner, "```"@) {
                Some(j) => trim_end(inner.take(j)),
                None => inner,
            }
        },
    }
}

fn drop_word_exec(s: &[char]) -> (r: Vec<char>)
    ensures
        r@ == drop_word(s@),
{
    let mut n: usize = 0;
    proof {
        assert(s@.skip(0) =~= s@);
    }
    while n < s.len() && !crate::text::is_whitespace(s[n])
        invariant
            n <= s@.len(),
            drop_word(s@.skip(n as int)) == drop_word(s@),
        decreases s.len() - n,
    {
        proof {
            assert(s@.skip(n as int).drop_first() =~= s@.skip(n + 1));
        }
        n = n + 1;
    }
    slice_of(s, n, s.len())
}

/// Strip a wrapping markdown code fence so models that ignore "no code fences"
/// still yield a usable message.
pub fn strip_wrapping_fence(text: &str) -> (r: Vec<char>)
    ensures
        r@ == unfenced(text@),
{
    let t = trim_chars(&chars_of(text));
    match strip_prefix_str(&t, "```") {
        None => t,
        Some(rest) => {
            let i = char_pos_from(&rest, '\n', 0);
            proof {
                assert(rest@.skip(0) =~= rest@);
            }
            let inner = if i < rest.len() {
                trim_start_chars(&slice_of(&rest, i + 1, rest.len()))
            } else {
                trim_chars(&drop_word_exec(&rest))
            };
            proof {
                assert(rest@.subrange(i + 1, rest@.len() as int) =~= rest@.skip(i + 1));
            }
            match rfind_chars(&inner, &chars_of("```")) {
                Some(j) => {
                    proof {
                        lemma_rfind(inner@, "```"@);
                        assert(occurs_at(inner@, "```"@, j as int));
                    }
                    let head = slice_of(&inner, 0, j);
                    proof {
                        assert(head@ =~= inner@.take(j as int));
                    }
                    trim_end_chars(&head)
                },
                None => inner,
            }
        },
    }
}

/// `s.trim_matches(['"', '`'])`.
pub open spec fn unquoted(s: Seq<char>) -> Seq<char> {
    trim_start_set(trim_end_set(s))
}

pub open spec fn quote_or_tick(c: char) -> bool {
    c == '"' || c == '`'
}

pub open spec fn trim_end_set(s: Seq<char>) -> Seq<char>
    decreases s.len(),
{
    if s.len() > 0 && quote_or_tick(s.last()) {
        trim_end_set(s.drop_last())
    } else {
        s
    }
}

pub open spec fn trim_start_set(s: Seq<char>) -> Seq<char>
    decreases s.len(),
{
    if s.len() > 0 && quote_or_tick(s[0]) {
        trim_start_set(s.drop_first())
    } else {
        s
    }
}

fn unquoted_exec(s: &[char]) -> (r: Vec<char>)
    ensures
        r@ == unquoted(s@),
{
    let mut e: usize = s.len();
    proof {
        assert(s@.take(e as int) =~= s@);
    }
    while e > 0 && (s[e - 1] == '"' || s[e - 1] == '`')
        invariant
            e <= s@.len(),
            trim_end_set(s@.take(e as int)) == trim_end_set(s@),
        decreases e,
    {
        proof {
            assert(s@.take(e as int).drop_last() =~= s@.take(e - 1));
        }
        e = e - 1;
    }
    let t = slice_of(s, 0, e);
    proof {
        assert(t@ =~= s@.take(e as int));
    }
    let mut b: usize = 0;
    proof {
        assert(t@.skip(0) =~= t@);
    }
    while b < t.len() && (t[b] == '"' || t[b] == '`')
        invariant
            b <= t@.len(),
            trim_start_set(t@.skip(b as int)) == trim_start_set(t@),
        decreases t.len() - b,
    {
        proof {
            assert(t@.skip(b as int).drop_first() =~= t@.skip(b + 1));
        }
        b = b + 1;
    }
    slice_of(&t, b, t.len())
}

/// The line that carries the commit subject.
pub open spec fn subject_line(l: Seq<char>) -> bool {
    let t = trim(l);
    t.len() > 0 && !starts_with(t, "```"@) && unquoted(t).len() > 0
}

/// Index of the first subject line at or after `i` (`ls.len()` if none).
pub open spec fn first_subject_line(ls: Seq<Seq<char>>, i: int) -> int
    decreases ls.len() - i,
{
    if i < 0 || i >= ls.len() {
        ls.len() as int
    } else if subject_line(ls[i]) {
        i
    } else {
        first_subject_line(ls, i + 1)
    }
}

/// `ls` without trailing lines that are blank or a fence closer.
pub open spec fn drop_trailing_fences(ls: Seq<Seq<char>>) -> Seq<Seq<char>>
    decreases ls.len(),
{
    if ls.len() > 0 && (trim(ls.last()).len() == 0 || starts_with(trim(ls.last()), "```"@)) {
        drop_trailing_fences(ls.drop_last())
    } else {
        ls
    }
}

/// (subject, body) of a model's commit message: the first usable line
/// (without wrapping quotes/backticks) and everything after it, trimmed.
pub open spec fn commit_parts(text: Seq<char>) -> (Seq<char>, Seq<char>) {
    let ls = lines(unfenced(text));
    let i = first_subject_line(ls, 0);
    if i < ls.len() {
        (unquoted(trim(ls[i])), trim(join(drop_trailing_fences(ls.skip(i + 1)), "\n"@)))
    } else {
        (Seq::empty(), Seq::empty())
    }
}

/// Split an AI commit message into (subject, body). Both come back trimmed;
/// either may be empty.
pub fn split_commit_message(text: &str) -> (r: (String, String))
    ensures
        (r.0@, r.1@) == commit_parts(text@),
{
    let t = strip_wrapping_fence(text);
    let ls = lines_of(&t);
    let ghost lv = views(ls@);
    let n = ls.len();
    let mut i: usize = 0;
    while i < n
        invariant
            i <= n == ls@.len(),
            lv == views(ls@),
            first_subject_line(lv, i as int) == first_subject_line(lv, 0),
        ensures
            i <= n,
            first_subject_line(lv, i as int) == first_subject_line(lv, 0),
            i < n ==> subject_line(lv[i as int]),
        decreases n - i,
    {
        proof {
            assert(lv[i as int] == ls@[i as int]@);
        }
        let tr = trim_chars(&ls[i]);
        if tr.len() > 0 && !starts_with_str(&tr, "```") && unquoted_exec(&tr).len() > 0 {
            break;
        }
        i = i + 1;
    }
    if i >= n {
        return (String::new(), String::new());
    }
    proof {
        assert(lv[i as int] == ls@[i as int]@);
    }
    let subject = unquoted_exec(&trim_chars(&ls[i]));
    let mut e: usize = n;
    proof {
        assert(lv.subrange(i + 1, n as int) =~= lv.skip(i + 1));
    }
    while e > i + 1 && (crate::text::is_blank_chars(&ls[e - 1]) || starts_with_str(
        &trim_chars(&ls[e - 1]),
        "```",
    ))
        invariant
            i + 1 <= e <= n == ls@.len(),
            lv == views(ls@),
            drop_trailing_fences(lv.subrange(i + 1, e as int)) == drop_trailing_fences(lv.skip(i + 1)),
        decreases e,
    {
        proof {
            assert(lv.subrange(i + 1, e as int).drop_last() =~= lv.subrange(i + 1, e - 1));
            assert(lv[e - 1] == ls@[e - 1]@);
        }
        e = e - 1;
    }
    let rest = sub_lines(&ls, i + 1, e);
    proof {
        let sr = lv.subrange(i + 1, e as int);
        if sr.len() > 0 {
            assert(sr.last() == ls@[e - 1]@);
        }
        assert(drop_trailing_fences(sr) == sr);
    }
    let body = trim_chars(&join_chars(&rest, &newline()));
    (string_from(&subject), string_from(&body))
}

/// (title, body) of a model's PR draft: the first line (without wrapping
/// double quotes) and the rest, trimmed; `None` without a usable title.
pub open spec fn pr_parts(text: Seq<char>) -> Option<(Seq<char>, Seq<char>)> {
    let ls = lines(trim(text));
    if ls.len() == 0 {
        None
    } else {
        let title = trim_start_char(trim_end_char(trim(ls[0]), '"'), '"');
        if title.len() == 0 {
            None
        } else {
            Some((title, trim(join(ls.skip(1), "\n"@))))
        }
    }
}

/// Split an AI PR draft into (title, body).
pub fn split_pr_draft(text: &str) -> (r: Option<(String, String)>)
    ensures
        match r {
            Some((t, b)) => pr_parts(text@) == Some((t@, b@)),
            None => pr_parts(text@) is None,
        },
{
    let ls = lines_of(&trim_chars(&chars_of(text)));
    if ls.len() == 0 {
        return None;
    }
    let title = trim_start_char_chars(&trim_end_char_chars(&trim_chars(&ls[0]), '"'), '"');
    if title.len() == 0 {
        return None;
    }
    let rest = sub_lines(&ls, 1, ls.len());
    proof {
        assert(views(ls@).subrange(1, ls@.len() as int) =~= views(ls@).skip(1));
        assert(views(ls@)[0] == ls@[0]@);
    }
    let body = trim_chars(&join_chars(&rest, &newline()));
    Some((string_from(&title), string_from(&body)))
}


// ───────────────────────────── other prompts ─────────────────────────────

fn join_lines(parts: &[String]) -> (r: Vec<char>)
    ensures
        r@ == join(str_views(parts@), "\n"@),
{
    let mut v: Vec<Vec<char>> = Vec::new();
    let mut k: usize = 0;
    while k < parts.len()
        invariant
            k <= parts@.len(),
            views(v@) == str_views(parts@).take(k as int),
        decreases parts.len() - k,
    {
        let c = chars_of(parts[k].as_str());
        proof {
            lemma_views_push(v@, c);
            assert(str_views(parts@).take(k + 1) =~= str_views(parts@).take(k as int).push(
                parts@[k as int]@,
            ));
        }
        v.push(c);
        k = k + 1;
    }
    proof {
        assert(str_views(parts@).take(parts@.len() as int) =~= str_views(parts@));
    }
    join_chars(&v, &newline())
}

pub const CHANGELOG_PROMPT_HEAD: &'static str = "Summarize these commits into a concise changelog as markdown bullet points, grouping related changes. No preamble.\n\nCommits:\n";
pub const CHANGELOG_PROMPT_END: &'static str = "\n\nChangelog:";
pub const PR_PROMPT_HEAD: &'static str = "Draft a pull request for branch \"";
pub const PR_PROMPT_MID: &'static str = "\" from these commits (newest first). Output the PR title on the FIRST line (imperative, under 72 chars, no quotes), then a blank line, then a concise markdown body summarizing the changes as bullet points. No preamble, no code fences.\n\nCommits:\n";
pub const PR_PROMPT_END: &'static str = "\n\nPull request:";
pub const RESUME_PROMPT_HEAD: &'static str = "In 2–3 short sentences, catch me up on what changed in the \"";
pub const RESUME_PROMPT_MID: &'static str = "\" repository since I last looked, based on these commits (newest first). Be specific and factual, no preamble, no markdown.\n\nCommits:\n";
pub const RESUME_PROMPT_END: &'static str = "\n\nWhat changed:";
pub const BRIEFING_PROMPT_HEAD: &'static str = "You are a dev's morning briefing. In 2–4 short sentences, summarize what changed across these repositories. Be specific and factual, no preamble.\n\n";
pub const BRIEFING_PROMPT_END: &'static str = "\n\nBriefing:";

/// Prompt to summarize commits into a changelog.
pub fn changelog_prompt(commits: &[String]) -> (r: String)
    ensures
        r@ == CHANGELOG_PROMPT_HEAD@ + join(str_views(commits@), "\n"@) + CHANGELOG_PROMPT_END@,
{
    let mut out = chars_of(CHANGELOG_PROMPT_HEAD);
    push_all(&mut out, &join_lines(commits));
    push_str(&mut out, CHANGELOG_PROMPT_END);
    string_from(&out)
}

/// Prompt to draft a pull-request title (first line) and body from a
/// branch's commits.
pub fn pr_prompt(branch: &str, commits: &[String]) -> (r: String)
    ensures
        r@ == PR_PROMPT_HEAD@ + branch@ + PR_PROMPT_MID@ + join(str_views(commits@), "\n"@)
            + PR_PROMPT_END@,
{
    let mut out = chars_of(PR_PROMPT_HEAD);
    push_str(&mut out, branch);
    push_str(&mut out, PR_PROMPT_MID);
    push_all(&mut out, &join_lines(commits));
    push_str(&mut out, PR_PROMPT_END);
    string_from(&out)
}

/// Prompt to catch the user up on what changed in a repo since they last looked.
pub fn resume_prompt(repo_name: &str, commits: &[String]) -> (r: String)
    ensures
        r@ == RESUME_PROMPT_HEAD@ + repo_name@ + RESUME_PROMPT_MID@ + join(
            str_views(commits@),
            "\n"@,
        ) + RESUME_PROMPT_END@,
{
    let mut out = chars_of(RESUME_PROMPT_HEAD);
    push_str(&mut out, repo_name);
    push_str(&mut out, RESUME_PROMPT_MID);
    push_all(&mut out, &join_lines(commits));
    push_str(&mut out, RESUME_PROMPT_END);
    string_from(&out)
}

/// Prompt for a short daily briefing across recently-active repos.
pub fn briefing_prompt(lines: &[String]) -> (r: String)
    ensures
        r@ == BRIEFING_PROMPT_HEAD@ + join(str_views(lines@), "\n"@) + BRIEFING_PROMPT_END@,
{
    let mut out = chars_of(BRIEFING_PROMPT_HEAD);
    push_all(&mut out, &join_lines(lines));
    push_str(&mut out, BRIEFING_PROMPT_END);
    string_from(&out)
}

pub const SUMMARY_PROMPT_HEAD: &'static str = "You summarize a code repository in ONE concise, factual sentence for a developer dashboard. No preamble, no markdown, max 24 words.\n\nName: ";

/// The working-tree phrase of the summary prompt.
pub open spec fn changes_phrase(dirty: u32) -> Seq<char> {
    if dirty > 0 {
        dec(dirty as nat) + " uncommitted change(s)"@
    } else {
        "a clean tree"@
    }
}

/// An optional field, or the fallback text when absent.
pub open spec fn or_text(o: Option<String>, fallback: Seq<char>) -> Seq<char> {
    match o {
        Some(v) => v@,
        None => fallback,
    }
}

/// The summarization prompt for a repo.
pub open spec fn summary_prompt_text(repo: Repo) -> Seq<char> {
    SUMMARY_PROMPT_HEAD@ + repo.display_name@ + "\nLanguage: "@ + or_text(repo.language, "unknown"@)
        + "\nDescription: "@ + or_text(repo.description, "(none)"@) + "\nState: branch "@
        + repo.git.branch@ + ", "@ + changes_phrase(repo.git.dirty) + ", "@ + dec(
        repo.git.ahead as nat,
    ) + " ahead / "@ + dec(repo.git.behind as nat) + " behind upstream.\n\nSummary:"@
}

fn push_or(out: &mut Vec<char>, o: &Option<String>, fallback: &str)
    ensures
        final(out)@ == old(out)@ + or_text(*o, fallback@),
{
    match o {
        Some(v) => push_str(out, v.as_str()),
        None => push_str(out, fallback),
    }
}

/// Build the summarization prompt from repo metadata.
pub fn summary_prompt(repo: &Repo) -> (r: String)
    ensures
        r@ == summary_prompt_text(*repo),
{
    let mut out = chars_of(SUMMARY_PROMPT_HEAD);
    push_str(&mut out, repo.display_name.as_str());
    push_str(&mut out, "\nLanguage: ");
    push_or(&mut out, &repo.language, "unknown");
    push_str(&mut out, "\nDescription: ");
    push_or(&mut out, &repo.description, "(none)");
    push_str(&mut out, "\nState: branch ");
    push_str(&mut out, repo.git.branch.as_str());
    push_str(&mut out, ", ");
    if repo.git.dirty > 0 {
        push_all(&mut out, &dec_chars(repo.git.dirty as u64));
        push_str(&mut out, " uncommitted change(s)");
    } else {
        push_str(&mut out, "a clean tree");
    }
    push_str(&mut out, ", ");
    push_all(&mut out, &dec_chars(repo.git.ahead as u64));
    push_str(&mut out, " ahead / ");
    push_all(&mut out, &dec_chars(repo.git.behind as u64));
    push_str(&mut out, " behind upstream.\n\nSummary:");
    string_from(&out)
}

// ───────────────────────────── non-AI fallbacks ─────────────────────────────

/// A Conventional Commit type at the start of a lower-cased line.
pub open spec fn conventional_start(l: Seq<char>) -> bool {
    ||| starts_with(l, "feat"@)
    ||| starts_with(l, "fix"@)
    ||| starts_with(l, "chore"@)
    ||| starts_with(l, "docs"@)
    ||| starts_with(l, "refactor"@)
    ||| starts_with(l, "test"@)
    ||| starts_with(l, "perf"@)
    ||| starts_with(l, "ci"@)
    ||| starts_with(l, "build"@)
    ||| starts_with(l, "style"@)
}

pub open spec fn bullet_mark(c: char) -> bool {
    c == '-' || c == '*' || c == '+'
}

/// `s.trim_start_matches(['-', '*', '+'])`.
pub open spec fn unbulleted(s: Seq<char>) -> Seq<char>
    decreases s.len(),
{
    if s.len() > 0 && bullet_mark(s[0]) {
        unbulleted(s.drop_first())
    } else {
        s
    }
}

/// A changelog line as a commit subject: bullet marks dropped, `chore: `
/// prefixed unless it already reads as a Conventional Commit, at most 72
/// characters; headings and blank lines give none.
pub open spec fn line_subject(line: Seq<char>) -> Option<Seq<char>> {
    let t = trim(line);
    if t.len() == 0 || starts_with(t, "#"@) {
        None
    } else {
        let u = trim(unbulleted(t));
        if u.len() == 0 {
            None
        } else {
            let subject = if conventional_start(lower_ascii(u)) && contains(u, seq![':']) {
                u
            } else {
                "chore: "@ + u
            };
            Some(clamp(subject, 72))
        }
    }
}

fn unbulleted_exec(s: &[char]) -> (r: Vec<char>)
    ensures
        r@ == unbulleted(s@),
{
    let mut n: usize = 0;
    proof {
        assert(s@.skip(0) =~= s@);
    }
    while n < s.len() && (s[n] == '-' || s[n] == '*' || s[n] == '+')
        invariant
            n <= s@.len(),
            unbulleted(s@.skip(n as int)) == unbulleted(s@),
        decreases s.len() - n,
    {
        proof {
            assert(s@.skip(n as int).drop_first() =~= s@.skip(n + 1));
        }
        n = n + 1;
    }
    slice_of(s, n, s.len())
}

fn line_subject_exec(line: &[char]) -> (r: Option<Vec<char>>)
    ensures
        opt_chars_view(r) == line_subject(line@),
{
    let t = trim_chars(line);
    if t.len() == 0 || starts_with_str(&t, "#") {
        return None;
    }
    let u = trim_chars(&unbulleted_exec(&t));
    if u.len() == 0 {
        return None;
    }
    let lower = lower_ascii_chars(&u);
    let conventional = starts_with_str(&lower, "feat") || starts_with_str(&lower, "fix")
        || starts_with_str(&lower, "chore") || starts_with_str(&lower, "docs") || starts_with_str(
        &lower,
        "refactor",
    ) || starts_with_str(&lower, "test") || starts_with_str(&lower, "perf") || starts_with_str(
        &lower,
        "ci",
    ) || starts_with_str(&lower, "build") || starts_with_str(&lower, "style");
    let subject = if conventional && colon_in(&u) {
        u
    } else {
        let mut v = chars_of("chore: ");
        push_all(&mut v, &u);
        v
    };
    Some(clamp_chars(&subject, 72))
}

/// A changelog line as a commit subject (see `line_subject`).
pub fn changelog_line_as_subject(line: &str) -> (r: Option<String>)
    ensures
        opt_str_view(r) == line_subject(line@),
{
    opt_string(line_subject_exec(&chars_of(line)))
}

/// The first line of `ls` at or after `i` that makes a subject.
pub open spec fn first_line_subject(ls: Seq<Seq<char>>, i: int) -> Option<Seq<char>>
    decreases ls.len() - i,
{
    if i < 0 || i >= ls.len() {
        None
    } else if line_subject(ls[i]) is Some {
        line_subject(ls[i])
    } else {
        first_line_subject(ls, i + 1)
    }
}

/// The first subject found in the changelog excerpts at or after `i`.
pub open spec fn first_changelog_subject(cls: Seq<(String, String)>, i: int) -> Option<Seq<char>>
    decreases cls.len() - i,
{
    if i < 0 || i >= cls.len() {
        None
    } else if first_line_subject(lines(cls[i].1@), 0) is Some {
        first_line_subject(lines(cls[i].1@), 0)
    } else {
        first_changelog_subject(cls, i + 1)
    }
}

/// The file part of each path.
pub open spec fn file_names(ps: Seq<Seq<char>>) -> Seq<Seq<char>> {
    ps.map_values(|p: Seq<char>| after_last(p, '/'))
}

/// `chore: update …` naming the changed files (two by name, then a count).
pub open spec fn files_subject_text(diff: Seq<char>) -> Seq<char> {
    let names = file_names(diff_paths(lines(diff)));
    let listed = if names.len() == 0 {
        "working tree"@
    } else if names.len() == 1 {
        names[0]
    } else if names.len() == 2 {
        names[0] + " and "@ + names[1]
    } else {
        names[0] + ", "@ + names[1] + ", and "@ + dec((names.len() - 2) as nat) + " more"@
    };
    clamp("chore: update "@ + listed, 72)
}

/// A subject naming the files a diff touches.
pub fn files_subject(diff: &str) -> (r: String)
    ensures
        r@ == files_subject_text(diff@),
{
    let paths = diff_paths_exec(&chars_of(diff));
    let ghost ps = diff_paths(lines(diff@));
    let n = paths.len();
    let mut out = chars_of("chore: update ");
    if n == 0 {
        push_str(&mut out, "working tree");
    } else {
        proof {
            assert(views(paths@)[0] == paths@[0]@);
        }
        let a = after_last_chars(&paths[0], '/');
        push_all(&mut out, &a);
        if n == 2 {
            proof {
                assert(views(paths@)[1] == paths@[1]@);
            }
            push_str(&mut out, " and ");
            push_all(&mut out, &after_last_chars(&paths[1], '/'));
        } else if n > 2 {
            proof {
                assert(views(paths@)[1] == paths@[1]@);
            }
            push_str(&mut out, ", ");
            push_all(&mut out, &after_last_chars(&paths[1], '/'));
            push_str(&mut out, ", and ");
            push_all(&mut out, &dec_chars((n - 2) as u64));
            push_str(&mut out, " more");
        }
    }
    proof {
        assert(file_names(ps).len() == n);
    }
    string_from(&clamp_chars(&out, 72))
}

/// `subject` with the manifest version appended in parentheses, unless no
/// version is known or the subject already names it; at most 72 characters.
pub open spec fn with_version(subject: Seq<char>, diff: Seq<char>, disk_version: Option<Seq<char>>) -> Seq<
    char,
> {
    match version_hint(diff, disk_version) {
        None => subject,
        Some(h) => {
            let ver = trim(
                match rfind(h, ": "@) {
                    Some(i) => h.skip(i + 2),
                    None => h,
                },
            );
            if ver.len() == 0 || contains(subject, ver) {
                subject
            } else {
                clamp(subject + " ("@ + ver + ")"@, 72)
            }
        },
    }
}

/// Append the Odoo module version to a fallback subject.
pub fn append_odoo_version(subject: String, diff: &str, disk_version: Option<&str>) -> (r: String)
    ensures
        r@ == with_version(subject@, diff@, opt_ref_view(disk_version)),
{
    proof {
        assert(opt_ref_view(disk_version) == match disk_version {
            Some(d) => Some(d@),
            None => None::<Seq<char>>,
        });
    }
    let hint = match odoo_manifest_version_hint(diff, disk_version) {
        None => return subject,
        Some(h) => chars_of(h.as_str()),
    };
    let sep = chars_of(": ");
    proof {
        reveal_strlit(": ");
        assert(sep@.len() == 2);
    }
    let tail = match rfind_chars(&hint, &sep) {
        Some(i) => {
            proof {
                lemma_rfind(hint@, sep@);
                assert(occurs_at(hint@, sep@, i as int));
            }
            let hl = hint.len();
            assert(i + 2 <= hl);
            let start: usize = i + 2;
            let t = slice_of(&hint, start, hl);
            proof {
                assert(t@ =~= hint@.skip(i + 2));
            }
            t
        },
        None => {
            let t = slice_of(&hint, 0, hint.len());
            proof {
                assert(t@ =~= hint@);
            }
            t
        },
    };
    proof {
        assert(tail@ == match rfind(hint@, ": "@) {
            Some(i) => hint@.skip(i + 2),
            None => hint@,
        });
    }
    let ver = trim_chars(&tail);
    let sv = chars_of(subject.as_str());
    if ver.len() == 0 || crate::text::contains_chars(&sv, &ver) {
        return subject;
    }
    let mut out = sv;
    push_str(&mut out, " (");
    push_all(&mut out, &ver);
    push_str(&mut out, ")");
    proof {
        assert(opt_ref_view(disk_version) == match disk_version {
            Some(d) => Some(d@),
            None => None::<Seq<char>>,
        });
    }
    string_from(&clamp_chars(&out, 72))
}

fn first_changelog_subject_exec(cls: &Vec<(String, String)>) -> (r: Option<Vec<char>>)
    ensures
        opt_chars_view(r) == first_changelog_subject(cls@, 0),
{
    let mut k: usize = 0;
    while k < cls.len()
        invariant
            k <= cls@.len(),
            first_changelog_subject(cls@, k as int) == first_changelog_subject(cls@, 0),
        decreases cls.len() - k,
    {
        let ls = lines_of(&chars_of(cls[k].1.as_str()));
        let ghost lv = views(ls@);
        let mut m: usize = 0;
        while m < ls.len()
            invariant
                m <= ls@.len(),
                k < cls@.len(),
                lv == views(ls@),
                lv == lines(cls@[k as int].1@),
                first_changelog_subject(cls@, k as int) == first_changelog_subject(cls@, 0),
                first_line_subject(lv, m as int) == first_line_subject(lv, 0),
            decreases ls.len() - m,
        {
            proof {
                assert(lv[m as int] == ls@[m as int]@);
            }
            let s = line_subject_exec(&ls[m]);
            if s.is_some() {
                proof {
                    assert(first_line_subject(lv, m as int) == opt_chars_view(s));
                    assert(lv == lines(cls@[k as int].1@));
                    assert(first_changelog_subject(cls@, k as int) == first_line_subject(lv, 0));
                }
                return s;
            }
            m = m + 1;
        }
        proof {
            assert(lv == lines(cls@[k as int].1@));
        }
        k = k + 1;
    }
    None
}

/// The non-AI commit subject: the first changelog bullet near the changed
/// files, else the changed files by name; with the manifest version appended.
pub open spec fn fallback_commit_text(
    diff: Seq<char>,
    cls: Seq<(String, String)>,
    disk_version: Option<Seq<char>>,
) -> Seq<char> {
    let subject = match first_changelog_subject(cls, 0) {
        Some(s) => s,
        None => files_subject_text(diff),
    };
    with_version(subject, diff, disk_version)
}

/// Non-AI Conventional Commit for when generation is unreachable; `extras`
/// and `disk_version` are what was gathered from the repo (empty and `None`
/// when its path is unknown).
pub fn fallback_commit_message(diff: &str, extras: &CommitExtras, disk_version: Option<&str>) -> (r:
    String)
    ensures
        r@ == fallback_commit_text(diff@, extras.changelogs@, opt_ref_view(disk_version)),
{
    let subject = match first_changelog_subject_exec(&extras.changelogs) {
        Some(s) => string_from(&s),
        None => files_subject(diff),
    };
    append_odoo_version(subject, diff, disk_version)
}

/// Non-AI PR draft: the latest commit's subject as the title (the branch
/// name when there is none), the commit list as the body.
pub fn fallback_pr_draft(branch: &str, commits: &[String]) -> (r: (String, String))
    ensures
        r.0@ == if commits@.len() > 0 && not_blank(commits@[0]@) {
            commits@[0]@
        } else {
            branch@
        },
        r.1@ == join(dashed(str_views(commits@)), "\n"@),
{
    let title = if commits.len() > 0 && !crate::text::is_blank_chars(&chars_of(commits[0].as_str())) {
        string_from(&chars_of(commits[0].as_str()))
    } else {
        string_from(&chars_of(branch))
    };
    let mut v: Vec<String> = Vec::new();
    let mut k: usize = 0;
    while k < commits.len()
        invariant
            k <= commits@.len(),
            str_views(v@) == str_views(commits@).take(k as int),
        decreases commits.len() - k,
    {
        let c = string_from(&chars_of(commits[k].as_str()));
        proof {
            assert(str_views(v@.push(c)) =~= str_views(v@).push(c@));
            assert(str_views(commits@).take(k + 1) =~= str_views(commits@).take(k as int).push(
                commits@[k as int]@,
            ));
        }
        v.push(c);
        k = k + 1;
    }
    proof {
        assert(str_views(commits@).take(commits@.len() as int) =~= str_views(commits@));
    }
    let d = dashed_exec(&v);
    let body = join_chars(&d, &newline());
    (title, string_from(&body))
}


// ───────────────────────────── generation results ─────────────────────────────

/// Whether a non-thinking model's empty first answer is retried with thinking
/// switched off (thinking models get that on the first attempt already).
pub fn retry_with_think(model: &str, first_response: &str) -> (r: bool)
    ensures
        r == (!thinking_name(lowercase(model@)) && first_response@.len() == 0),
{
    !likely_thinking_model(model) && first_response.unicode_len() == 0
}

pub const EMPTY_RESPONSE_TAIL: &'static str = " returned an empty response — try another model or raise the token budget";
pub const CPU_RETRY_TAIL: &'static str = " (GPU runner also failed — free VRAM, restart Ollama, or use a smaller model like qwen3:0.6b)";

/// The final answer of a generation: an empty response is always an error,
/// never a blank success.
pub fn finish_generation(model: &str, text: String) -> (r: Result<String, String>)
    ensures
        text@.len() == 0 ==> (r matches Err(e) && e@ == "model "@ + model@ + EMPTY_RESPONSE_TAIL@),
        text@.len() > 0 ==> r == Ok::<String, String>(text),
{
    if text.unicode_len() == 0 {
        let mut v = chars_of("model ");
        push_str(&mut v, model);
        push_str(&mut v, EMPTY_RESPONSE_TAIL);
        Err(string_from(&v))
    } else {
        Ok(text)
    }
}

/// The error reported when the CPU retry after a GPU runner crash fails too.
pub fn cpu_retry_error(cpu_err: &str) -> (r: String)
    ensures
        r@ == cpu_err@ + CPU_RETRY_TAIL@,
{
    let mut v = chars_of(cpu_err);
    push_str(&mut v, CPU_RETRY_TAIL);
    string_from(&v)
}

/// The model name a pull asks for: an explicit tag, `:latest` by default.
pub fn pull_model_name(model: &str) -> (r: String)
    ensures
        r@ == if contains(model@, seq![':']) {
            model@
        } else {
            model@ + ":latest"@
        },
{
    let mut v = chars_of(model);
    if !colon_in(&v) {
        push_str(&mut v, ":latest");
    }
    string_from(&v)
}

/// The string `"error"` field of a JSON object body (as `serde_json` parses
/// it), `None` when the body is not JSON or has no such string field.
pub uninterp spec fn json_error_field(body: Seq<char>) -> Option<Seq<char>>;

/// `serde_json::from_str::<Value>` on the body, then `Value::get("error")`
/// and `Value::as_str`: the result is named `json_error_field` of the body.
#[verifier::external_body]
fn error_field_of(body: &str) -> (r: Option<String>)
    ensures
        opt_str_view(r) == json_error_field(body@),
{
    match serde_json::from_str::<serde_json::Value>(body) {
        Ok(v) => match v.get("error") {
            Some(e) => e.as_str().map(|s| s.to_string()),
            None => None,
        },
        Err(_) => None,
    }
}

/// A readable API error: the body's `"error"` field when it has one, else the
/// trimmed body; the bare status when that is empty.
pub open spec fn api_error_text(status: Seq<char>, body: Seq<char>, field: Option<Seq<char>>) -> Seq<char> {
    let detail = match field {
        Some(d) => d,
        None => trim(body),
    };
    if detail.len() == 0 {
        "Ollama API "@ + status
    } else {
        "Ollama API "@ + status + ": "@ + detail
    }
}

/// The error message for a non-2xx response, given the body's `"error"` field.
pub fn api_error_message(status: &str, body: &str, error_field: Option<String>) -> (r: String)
    ensures
        r@ == api_error_text(status@, body@, opt_str_view(error_field)),
{
    let detail = match error_field {
        Some(d) => chars_of(d.as_str()),
        None => trim_chars(&chars_of(body)),
    };
    let mut v = chars_of("Ollama API ");
    push_str(&mut v, status);
    if detail.len() > 0 {
        push_str(&mut v, ": ");
        push_all(&mut v, &detail);
    }
    string_from(&v)
}

/// The error message for a non-2xx response (`status` as the HTTP client
/// prints it, e.g. `500 Internal Server Error`).
pub fn ollama_error_message(status: &str, body: &str) -> (r: String)
    ensures
        r@ == api_error_text(status@, body@, json_error_field(body@)),
{
    let field = error_field_of(body);
    api_error_message(status, body, field)
}

/// The views of byte vectors.
pub open spec fn byte_views(v: Seq<Vec<u8>>) -> Seq<Seq<u8>> {
    v.map_values(|x: Vec<u8>| x@)
}

/// Newline-delimited framing of a byte stream: the complete non-empty lines
/// (without their `\n`) and the bytes after the last newline.
pub open spec fn frame(b: Seq<u8>) -> (Seq<Seq<u8>>, Seq<u8>)
    decreases b.len(),
{
    if b.len() == 0 {
        (Seq::empty(), Seq::empty())
    } else {
        let (ls, cur) = frame(b.drop_last());
        if b.last() == 10u8 {
            (
                if cur.len() > 0 {
                    ls.push(cur)
                } else {
                    ls
                },
                Seq::empty(),
            )
        } else {
            (ls, cur.push(b.last()))
        }
    }
}

/// Take the complete lines out of a streaming buffer, leaving the partial
/// last line in it; empty lines are dropped.
pub fn take_complete_lines(buf: &mut Vec<u8>) -> (r: Vec<Vec<u8>>)
    ensures
        byte_views(r@) == frame(old(buf)@).0,
        final(buf)@ == frame(old(buf)@).1,
{
    let mut done: Vec<Vec<u8>> = Vec::new();
    let mut cur: Vec<u8> = Vec::new();
    let mut k: usize = 0;
    while k < buf.len()
        invariant
            k <= buf@.len(),
            buf@ == old(buf)@,
            (byte_views(done@), cur@) == frame(buf@.take(k as int)),
        decreases buf.len() - k,
    {
        proof {
            assert(buf@.take(k + 1).drop_last() =~= buf@.take(k as int));
            assert(buf@.take(k + 1).last() == buf@[k as int]);
        }
        let b = buf[k];
        if b == 10u8 {
            if cur.len() > 0 {
                proof {
                    assert(byte_views(done@.push(cur)) =~= byte_views(done@).push(cur@));
                }
                done.push(cur);
            }
            cur = Vec::new();
        } else {
            cur.push(b);
        }
        k = k + 1;
    }
    proof {
        assert(buf@.take(buf@.len() as int) =~= buf@);
    }
    *buf = cur;
    done
}

} // verus!
