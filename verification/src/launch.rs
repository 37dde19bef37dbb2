//! Argument vectors for spawning external programs from `{path}`-templated
//! command strings (IDE / terminal coding agent).
use vstd::prelude::*;

use crate::text::{chars_of, replace, replace_chars, string_from, views, words, words_of};

verus! {

/// A template token with `{path}` substituted.
pub open spec fn subst_path(t: Seq<char>, path: Seq<char>) -> Seq<char> {
    replace(t, "{path}"@, path)
}

/// A dispatch-args token with `{path}` then `{prompt}` substituted.
pub open spec fn subst_both(t: Seq<char>, path: Seq<char>, prompt: Seq<char>) -> Seq<char> {
    replace(replace(t, "{path}"@, path), "{prompt}"@, prompt)
}

/// The argv of a templated command: each whitespace-separated token of the
/// template with `{path}` substituted.
pub open spec fn command_argv(template: Seq<char>, path: Seq<char>) -> Seq<Seq<char>> {
    words(template).map_values(|t: Seq<char>| subst_path(t, path))
}

/// The argv for dispatching an agent: the template's tokens, then the
/// dispatch-args tokens with `{prompt}` substituted after tokenizing (so a
/// multi-word prompt stays one argument).
pub open spec fn dispatch_argv(template: Seq<char>, args: Seq<char>, path: Seq<char>, prompt: Seq<
    char,
>) -> Seq<Seq<char>> {
    command_argv(template, path) + words(args).map_values(
        |t: Seq<char>| subst_both(t, path, prompt),
    )
}

/// The views of a sequence of strings.
pub open spec fn argv_views(v: Seq<String>) -> Seq<Seq<char>> {
    v.map_values(|x: String| x@)
}

/// Argv of `template` with `{path}` substituted into every token.
pub fn command_tokens(template: &str, path: &str) -> (r: Vec<String>)
    ensures
        argv_views(r@) == command_argv(template@, path@),
{
    let t = chars_of(template);
    let ws = words_of(&t);
    let key = chars_of("{path}");
    let pv = chars_of(path);
    proof {
        reveal_strlit("{path}");
    }
    let mut out: Vec<String> = Vec::new();
    let mut k: usize = 0;
    while k < ws.len()
        invariant
            k <= ws@.len(),
            views(ws@) == words(template@),
            key@ == "{path}"@,
            key@.len() > 0,
            pv@ == path@,
            argv_views(out@) == command_argv(template@, path@).take(k as int),
        decreases ws.len() - k,
    {
        let tok = replace_chars(&ws[k], &key, &pv);
        proof {
            assert(views(ws@)[k as int] == ws@[k as int]@);
        }
        let st = string_from(&tok);
        let ghost o0 = out@;
        out.push(st);
        proof {
            assert(argv_views(out@) =~= argv_views(o0).push(st@));
            assert(command_argv(template@, path@)[k as int] == subst_path(ws@[k as int]@, path@));
            assert(argv_views(out@) =~= command_argv(template@, path@).take(k + 1));
        }
        k = k + 1;
    }
    proof {
        assert(command_argv(template@, path@).take(ws@.len() as int) =~= command_argv(
            template@,
            path@,
        ));
    }
    out
}

/// Build the argv for dispatching an agent with a task prompt.
pub fn dispatch_tokens(template: &str, dispatch_args: &str, path: &str, prompt: &str) -> (r: Vec<
    String,
>)
    ensures
        argv_views(r@) == dispatch_argv(template@, dispatch_args@, path@, prompt@),
{
    let mut out = command_tokens(template, path);
    let ghost base = argv_views(out@);
    let a = chars_of(dispatch_args);
    let ws = words_of(&a);
    let kp = chars_of("{path}");
    let kq = chars_of("{prompt}");
    let pv = chars_of(path);
    let qv = chars_of(prompt);
    proof {
        reveal_strlit("{path}");
        reveal_strlit("{prompt}");
    }
    let ghost tail = words(dispatch_args@).map_values(
        |t: Seq<char>| subst_both(t, path@, prompt@),
    );
    let mut k: usize = 0;
    while k < ws.len()
        invariant
            k <= ws@.len(),
            views(ws@) == words(dispatch_args@),
            kp@ == "{path}"@,
            kq@ == "{prompt}"@,
            kp@.len() > 0,
            kq@.len() > 0,
            pv@ == path@,
            qv@ == prompt@,
            tail == words(dispatch_args@).map_values(
                |t: Seq<char>| subst_both(t, path@, prompt@),
            ),
            argv_views(out@) == base + tail.take(k as int),
        decreases ws.len() - k,
    {
        let t1 = replace_chars(&ws[k], &kp, &pv);
        let t2 = replace_chars(&t1, &kq, &qv);
        proof {
            assert(views(ws@)[k as int] == ws@[k as int]@);
        }
        let st = string_from(&t2);
        let ghost o0 = out@;
        out.push(st);
        proof {
            assert(argv_views(out@) =~= argv_views(o0).push(st@));
            assert(tail[k as int] == subst_both(ws@[k as int]@, path@, prompt@));
            assert(argv_views(out@) =~= base + tail.take(k + 1));
        }
        k = k + 1;
    }
    proof {
        assert(tail.take(ws@.len() as int) =~= tail);
    }
    out
}

} // verus!
