//! The egress rules of the optional OpenAI-compatible backend: the base URL
//! must be `https` unless it is loopback, and which provider complaints
//! warrant a retry.
use vstd::prelude::*;

use crate::text::{
    after_last, after_last_chars, before_first, before_first_chars, chars_eq, chars_of, contains,
    contains_chars, ends_with, ends_with_str, lowercase, push_all, push_str, rsplit_once_char,
    rsplit_once_char_chars, split_once, split_once_chars, string_from, to_lowercase, trim,
    trim_chars, trim_end_char, trim_end_char_chars, trim_start_char, trim_start_char_chars,
};

verus! {

/// A loopback host (brackets of an IPv6 literal ignored).
pub open spec fn loopback(host: Seq<char>) -> bool {
    let h = trim_end_char(trim_start_char(host, '['), ']');
    h == "localhost"@ || h == "127.0.0.1"@ || h == "::1"@ || ends_with(h, ".localhost"@)
}

/// Loopback hosts may use plain `http` (a local OpenAI-shaped server).
pub fn host_is_loopback(host: &str) -> (r: bool)
    ensures
        r == loopback(host@),
{
    let c = chars_of(host);
    let a = trim_start_char_chars(&c, '[');
    let h = trim_end_char_chars(&a, ']');
    chars_eq(&h, &chars_of("localhost")) || chars_eq(&h, &chars_of("127.0.0.1")) || chars_eq(
        &h,
        &chars_of("::1"),
    ) || ends_with_str(&h, ".localhost")
}

/// The host of the part after `://`: up to the first `/`, after any `user@`,
/// without a `:port`.
pub open spec fn url_host(rest: Seq<char>) -> Seq<char> {
    let host = after_last(before_first(rest, '/'), '@');
    match rsplit_once_char(host, ':') {
        Some((h, _)) => h,
        None => host,
    }
}

/// Validation of a configured base URL, returned without trailing slashes.
pub open spec fn normalized(raw: Seq<char>) -> Result<Seq<char>, Seq<char>> {
    let base = trim_end_char(trim(raw), '/');
    if base.len() == 0 {
        Err("set an AI base URL in Settings (e.g. a Groq or OpenAI endpoint)"@)
    } else {
        match split_once(base, "://"@) {
            None => Err("AI base URL must start with https://"@),
            Some((scheme, rest)) => if url_host(rest).len() == 0 {
                Err("AI base URL has no host"@)
            } else if scheme == "https"@ {
                Ok(base)
            } else if scheme == "http"@ && loopback(url_host(rest)) {
                Ok(base)
            } else if scheme == "http"@ {
                Err("AI base URL must use https (plain http is only allowed for localhost)"@)
            } else {
                Err("unsupported AI base URL scheme `"@ + scheme + "`"@)
            },
        }
    }
}

/// Validate and normalize a configured base URL, returning it without a
/// trailing slash: a key must never travel over plain http to a remote host.
pub fn normalize_base(raw: &str) -> (r: Result<String, String>)
    ensures
        match r {
            Ok(s) => normalized(raw@) == Ok::<Seq<char>, Seq<char>>(s@),
            Err(e) => normalized(raw@) == Err::<Seq<char>, Seq<char>>(e@),
        },
{
    let c = chars_of(raw);
    let t = trim_chars(&c);
    let base = trim_end_char_chars(&t, '/');
    if base.len() == 0 {
        return Err(string_from(&chars_of("set an AI base URL in Settings (e.g. a Groq or OpenAI endpoint)")));
    }
    let sep = chars_of("://");
    match split_once_chars(&base, &sep) {
        None => Err(string_from(&chars_of("AI base URL must start with https://"))),
        Some((scheme, rest)) => {
            let pre = before_first_chars(&rest, '/');
            let host = after_last_chars(&pre, '@');
            let host_only = match rsplit_once_char_chars(&host, ':') {
                Some((h, _)) => h,
                None => host,
            };
            if host_only.len() == 0 {
                return Err(string_from(&chars_of("AI base URL has no host")));
            }
            let hs = string_from(&host_only);
            if chars_eq(&scheme, &chars_of("https")) {
                Ok(string_from(&base))
            } else if chars_eq(&scheme, &chars_of("http")) && host_is_loopback(hs.as_str()) {
                Ok(string_from(&base))
            } else if chars_eq(&scheme, &chars_of("http")) {
                Err(string_from(&chars_of("AI base URL must use https (plain http is only allowed for localhost)")))
            } else {
                let mut v: Vec<char> = Vec::new();
                push_str(&mut v, "unsupported AI base URL scheme `");
                push_all(&mut v, &scheme);
                push_str(&mut v, "`");
                Err(string_from(&v))
            }
        },
    }
}

/// Law of the egress rule: an accepted base URL is `https`, or plain `http`
/// to a loopback host — and it never ends in a slash.
pub proof fn law_accepted_base_is_safe(raw: Seq<char>)
    ensures
        normalized(raw) matches Ok(b) ==> (split_once(b, "://"@) matches Some((scheme, rest)) && (
        scheme == "https"@ || (scheme == "http"@ && loopback(url_host(rest))))),
        normalized(raw) matches Ok(b) ==> b.len() > 0 && b.last() != '/',
{
    let base = trim_end_char(trim(raw), '/');
    lemma_trim_end_char_last(trim(raw), '/');
}

proof fn lemma_trim_end_char_last(s: Seq<char>, c: char)
    ensures
        trim_end_char(s, c).len() > 0 ==> trim_end_char(s, c).last() != c,
    decreases s.len(),
{
    if s.len() > 0 && s.last() == c {
        lemma_trim_end_char_last(s.drop_last(), c);
    }
}

/// A 4xx whose body complains about `reasoning_effort` (so the request is
/// retried without that field).
pub fn rejects_reasoning_effort(status: u16, body: &str) -> (r: bool)
    ensures
        r == (400 <= status < 500 && contains(lowercase(body@), "reasoning_effort"@)),
{
    if !(400 <= status && status < 500) {
        return false;
    }
    let b = chars_of(body);
    let low = to_lowercase(&b);
    let pat = chars_of("reasoning_effort");
    contains_chars(&low, &pat)
}

/// The `error.message` (or string `error`) of a JSON error body, as
/// `serde_json` reads it; `None` when the body is not JSON or has neither.
pub uninterp spec fn json_error_message(body: Seq<char>) -> Option<Seq<char>>;

/// `serde_json::from_str::<Value>` on the body, then `error.message` or the
/// string `error`; the result is named `json_error_message` of the body.
#[verifier::external_body]
fn error_message_of(body: &str) -> (r: Option<String>)
    ensures
        crate::model::opt_view(r) == json_error_message(body@),
{
    let v = match serde_json::from_str::<serde_json::Value>(body) {
        Ok(v) => v,
        Err(_) => return None,
    };
    match v.get("error") {
        Some(e) => e["message"].as_str().or(e.as_str()).map(String::from),
        None => None,
    }
}

/// Longest provider detail kept from a raw (non-JSON) error body.
pub const ERROR_DETAIL_CHARS: usize = 300;

/// A readable provider error: the body's error message when it has one, else
/// the first 300 characters of the trimmed body; the bare status when that is
/// empty. The key is never part of it.
pub open spec fn api_error_text(status: Seq<char>, body: Seq<char>, field: Option<Seq<char>>) -> Seq<char> {
    let detail = match field {
        Some(d) => d,
        None => crate::text::clamp(trim(body), ERROR_DETAIL_CHARS as nat),
    };
    if detail.len() == 0 {
        "AI API "@ + status
    } else {
        "AI API "@ + status + ": "@ + detail
    }
}

/// The error for a non-2xx response, given the body's parsed error message.
pub fn api_error_with(status: &str, body: &str, field: Option<String>) -> (r: String)
    ensures
        r@ == api_error_text(status@, body@, crate::model::opt_view(field)),
{
    let detail = match field {
        Some(d) => chars_of(d.as_str()),
        None => crate::text::clamp_chars(&trim_chars(&chars_of(body)), ERROR_DETAIL_CHARS),
    };
    let mut v = chars_of("AI API ");
    push_str(&mut v, status);
    if detail.len() > 0 {
        push_str(&mut v, ": ");
        push_all(&mut v, &detail);
    }
    string_from(&v)
}

/// The error for a non-2xx response (`status` as the HTTP client prints it).
pub fn api_error(status: &str, body: &str) -> (r: String)
    ensures
        r@ == api_error_text(status@, body@, json_error_message(body@)),
{
    let field = error_message_of(body);
    api_error_with(status, body, field)
}

/// The model to ask: the trimmed setting, or the error asking for one.
pub fn model_to_use(model: &str) -> (r: Result<String, String>)
    ensures
        match r {
            Ok(m) => trim(model@).len() > 0 && m@ == trim(model@),
            Err(e) => trim(model@).len() == 0 && e@
                == "set an AI model in Settings (e.g. llama-3.1-8b-instant)"@,
        },
{
    let m = trim_chars(&chars_of(model));
    if m.len() == 0 {
        Err(string_from(&chars_of("set an AI model in Settings (e.g. llama-3.1-8b-instant)")))
    } else {
        Ok(string_from(&m))
    }
}

/// The answer of one completion: the trimmed content, or, when it is empty,
/// the error (a model that spent its budget on hidden reasoning is named as
/// such).
pub open spec fn answer_of(model: Seq<char>, content: Seq<char>, reasoning: Option<Seq<char>>) -> Result<
    Seq<char>,
    Seq<char>,
> {
    let text = trim(content);
    if text.len() > 0 {
        Ok(text)
    } else if reasoning matches Some(r) && trim(r).len() > 0 {
        Err("model "@ + model
            + " spent its whole token budget thinking and returned no answer — pick a non-reasoning model in Settings"@)
    } else {
        Err("model "@ + model + " returned an empty response — try another model in Settings"@)
    }
}

/// Turn a completion's message (content and optional reasoning) into the
/// answer or the error shown for it.
pub fn completion_answer(model: &str, content: &str, reasoning: Option<&str>) -> (r: Result<String, String>)
    ensures
        match r {
            Ok(t) => answer_of(model@, content@, crate::model::ref_view(reasoning)) == Ok::<
                Seq<char>,
                Seq<char>,
            >(t@),
            Err(e) => answer_of(model@, content@, crate::model::ref_view(reasoning)) == Err::<
                Seq<char>,
                Seq<char>,
            >(e@),
        },
{
    let text = trim_chars(&chars_of(content));
    if text.len() > 0 {
        return Ok(string_from(&text));
    }
    let reasoned = match reasoning {
        Some(r) => trim_chars(&chars_of(r)).len() > 0,
        None => false,
    };
    let mut v = chars_of("model ");
    push_str(&mut v, model);
    if reasoned {
        push_str(
            &mut v,
            " spent its whole token budget thinking and returned no answer — pick a non-reasoning model in Settings",
        );
    } else {
        push_str(&mut v, " returned an empty response — try another model in Settings");
    }
    Err(string_from(&v))
}

/// Whether `xs` is in non-decreasing text order.
pub open spec fn text_sorted(xs: Seq<Seq<char>>) -> bool {
    forall|i: int, j: int| 0 <= i < j < xs.len() ==> !crate::attention::lex_lt(xs[j], xs[i])
}

/// The listed models: the non-empty ids (size unknown, so 0), sorted.
pub fn model_list(ids: Vec<String>) -> (r: Vec<(String, u64)>)
    ensures
        text_sorted(r@.map_values(|m: (String, u64)| m.0@)),
        forall|i: int| 0 <= i < r@.len() ==> (#[trigger] r@[i]).1 == 0,
        r@.map_values(|m: (String, u64)| m.0@).to_multiset() =~= crate::text::str_views(ids@).filter(
            |s: Seq<char>| s.len() > 0,
        ).to_multiset(),
{
    let ghost all = crate::text::str_views(ids@);
    let ghost allv = ids@;
    let mut out: Vec<(String, u64)> = Vec::new();
    let mut k: usize = 0;
    let n = ids.len();
    let mut rest = ids;
    proof {
        reveal(Seq::filter);
        assert(all.take(0).filter(|s: Seq<char>| s.len() > 0) =~= Seq::<Seq<char>>::empty());
        assert(out@.map_values(|m: (String, u64)| m.0@) =~= Seq::<Seq<char>>::empty());
        assert(rest@ =~= allv.skip(0));
    }
    while k < n
        invariant
            k <= n,
            n == all.len(),
            n == allv.len(),
            all == crate::text::str_views(allv),
            rest@ == allv.skip(k as int),
            text_sorted(out@.map_values(|m: (String, u64)| m.0@)),
            forall|i: int| 0 <= i < out@.len() ==> (#[trigger] out@[i]).1 == 0,
            out@.map_values(|m: (String, u64)| m.0@).to_multiset() =~= all.take(k as int).filter(
                |s: Seq<char>| s.len() > 0,
            ).to_multiset(),
        decreases n - k,
    {
        proof {
            reveal(Seq::filter);
            assert(all.take(k + 1).drop_last() =~= all.take(k as int));
            assert(all.take(k + 1).last() == all[k as int]);
            assert(rest@[0] == allv[k as int]);
        }
        let id = rest.remove(0);
        proof {
            assert(rest@ =~= allv.skip(k + 1));
            assert(id@ == all[k as int]);
        }
        if id.as_str().unicode_len() > 0 {
            let ghost idv = id@;
            insert_model(&mut out, id);
            proof {
                broadcast use vstd::seq_lib::group_to_multiset_ensures;

                assert(all.take(k + 1).filter(|s: Seq<char>| s.len() > 0) =~= all.take(k as int).filter(
                    |s: Seq<char>| s.len() > 0,
                ).push(idv));
            }
        } else {
            proof {
                assert(all.take(k + 1).filter(|s: Seq<char>| s.len() > 0) =~= all.take(k as int).filter(
                    |s: Seq<char>| s.len() > 0,
                ));
            }
        }
        k = k + 1;
    }
    proof {
        assert(all.take(n as int) =~= all);
    }
    out
}

/// Insert one model id into a sorted list, after the ids not above it.
fn insert_model(out: &mut Vec<(String, u64)>, id: String)
    requires
        text_sorted(old(out)@.map_values(|m: (String, u64)| m.0@)),
        forall|i: int| 0 <= i < old(out)@.len() ==> (#[trigger] old(out)@[i]).1 == 0,
    ensures
        text_sorted(final(out)@.map_values(|m: (String, u64)| m.0@)),
        forall|i: int| 0 <= i < final(out)@.len() ==> (#[trigger] final(out)@[i]).1 == 0,
        final(out)@.map_values(|m: (String, u64)| m.0@).to_multiset() =~= old(out)@.map_values(
            |m: (String, u64)| m.0@,
        ).to_multiset().insert(id@),
{
    let ghost ov = old(out)@.map_values(|m: (String, u64)| m.0@);
    let c = chars_of(id.as_str());
    let mut pos: usize = 0;
    while pos < out.len() && !crate::attention::lex_lt_exec(&c, &chars_of(out[pos].0.as_str()))
        invariant
            pos <= out@.len(),
            out@ == old(out)@,
            ov == out@.map_values(|m: (String, u64)| m.0@),
            c@ == id@,
            forall|i: int| 0 <= i < pos ==> !crate::attention::lex_lt(c@, #[trigger] ov[i]),
        decreases out.len() - pos,
    {
        pos = pos + 1;
    }
    proof {
        assert forall|i: int| pos <= i < ov.len() implies crate::attention::lex_lt(c@, #[trigger] ov[i]) by {
            if pos < ov.len() {
                assert(crate::attention::lex_lt(c@, ov[pos as int]));
                if i > pos {
                    assert(!crate::attention::lex_lt(ov[i], ov[pos as int]));
                    if ov[pos as int] != ov[i] {
                        crate::git_ops::lemma_lex_total(ov[pos as int], ov[i]);
                        crate::attention::lemma_lex_trans(c@, ov[pos as int], ov[i]);
                    }
                }
            }
        }
    }
    out.insert(pos, (id, 0));
    proof {
        let nv = out@.map_values(|m: (String, u64)| m.0@);
        assert(nv =~= ov.insert(pos as int, c@));
        assert forall|i: int, j: int| 0 <= i < j < nv.len() implies !crate::attention::lex_lt(
            nv[j],
            nv[i],
        ) by {
            if i < pos && j == pos {
                assert(!crate::attention::lex_lt(c@, ov[i]));
            } else if i == pos && j > pos {
                assert(crate::attention::lex_lt(c@, ov[j - 1]));
                crate::attention::lemma_lex_asym(c@, ov[j - 1]);
            } else if i < pos && j > pos {
                assert(!crate::attention::lex_lt(ov[j - 1], ov[i]));
            } else if i > pos {
                assert(!crate::attention::lex_lt(ov[j - 1], ov[i - 1]));
            } else {
                assert(!crate::attention::lex_lt(ov[j], ov[i]));
            }
        }
        vstd::seq_lib::to_multiset_insert(ov, pos as int, c@);
    }
}

} // verus!
