//! The background attention poll's decisions: which inbox facts become
//! attention items, their glance labels and dedupe keys, and which of them
//! are new enough (and enabled) to notify. Fetching and notifying are the
//! caller's part.
use vstd::prelude::*;

use crate::inbox::{InboxItem, Notification};
use crate::text::{
    after_last, after_last_chars, chars_of, dec, dec_chars, push_all, push_str, str_eq, str_views,
    string_from,
};

verus! {

/// The trailing path segment of an `owner/name` slug, for compact labels.
pub fn short_repo(repo: &str) -> (r: String)
    ensures
        r@ == after_last(repo@, '/'),
{
    string_from(&after_last_chars(&chars_of(repo), '/'))
}

/// Whether an attention kind notifies from the poll: only new PRs (when
/// opted in). Review requests and CI failures notify through the attention
/// model instead, so the poll never double-fires for them.
pub fn type_enabled(notify_new_pr: bool, kind: &str) -> (r: bool)
    ensures
        r == (kind@ == "pr"@ && notify_new_pr),
{
    str_eq(kind, "pr") && notify_new_pr
}

/// One thing needing attention: a stable key for dedupe, a glance label, and
/// a notification title and body.
#[derive(Debug, Clone)]
pub struct Attention {
    /// "pr" | "review" | "ci": selects the per-type opt-in toggle.
    pub kind: String,
    pub key: String,
    pub label: String,
    pub title: String,
    pub body: String,
}

/// A newly-appeared item to surface as a desktop notification.
#[derive(Debug, Clone)]
pub struct Notice {
    pub title: String,
    pub body: String,
}

/// Result of one poll.
#[derive(Debug, Clone)]
pub struct PollResult {
    /// Glance labels for every current attention item.
    pub lines: Vec<String>,
    /// Items new since the previous poll and enabled by config.
    pub fresh: Vec<Notice>,
    /// The raw inbox facts behind the glance.
    pub inbox: Vec<InboxItem>,
}

/// (kind, key, label, title, body) of an attention item.
pub open spec fn attention_view(a: Attention) -> (Seq<char>, Seq<char>, Seq<char>, Seq<char>, Seq<char>) {
    (a.kind@, a.key@, a.label@, a.title@, a.body@)
}

/// The attention item an inbox entry makes: authored PRs and review requests
/// (assigned issues make none).
pub open spec fn inbox_attention_of(it: InboxItem) -> Option<(Seq<char>, Seq<char>, Seq<char>, Seq<char>, Seq<char>)> {
    let short = after_last(it.repo@, '/');
    let n = dec(it.number as nat);
    let body = it.repo@ + " #"@ + n + " · "@ + it.title@;
    if it.kind@ == "pr"@ {
        Some(("pr"@, "pr:"@ + it.repo@ + "#"@ + n, "New PR: "@ + short + " #"@ + n, "New pull request"@, body))
    } else if it.kind@ == "review"@ {
        Some(
            (
                "review"@,
                "review:"@ + it.repo@ + "#"@ + n,
                "Review requested: "@ + short + " #"@ + n,
                "Review requested"@,
                body,
            ),
        )
    } else {
        None
    }
}

/// The attention item an inbox entry makes, if any.
pub fn inbox_attention(it: &InboxItem) -> (r: Option<Attention>)
    ensures
        match r {
            Some(a) => inbox_attention_of(*it) == Some(attention_view(a)),
            None => inbox_attention_of(*it) is None,
        },
{
    let n = dec_chars(it.number);
    let short = after_last_chars(&chars_of(it.repo.as_str()), '/');
    let mut body = chars_of(it.repo.as_str());
    push_str(&mut body, " #");
    push_all(&mut body, &n);
    push_str(&mut body, " · ");
    push_str(&mut body, it.title.as_str());
    let is_pr = str_eq(it.kind.as_str(), "pr");
    if is_pr || str_eq(it.kind.as_str(), "review") {
        let kind = if is_pr {
            "pr"
        } else {
            "review"
        };
        let mut key = chars_of(kind);
        push_str(&mut key, ":");
        push_str(&mut key, it.repo.as_str());
        push_str(&mut key, "#");
        push_all(&mut key, &n);
        let mut label = chars_of(
            if is_pr {
                "New PR: "
            } else {
                "Review requested: "
            },
        );
        push_all(&mut label, &short);
        push_str(&mut label, " #");
        push_all(&mut label, &n);
        let title = if is_pr {
            "New pull request"
        } else {
            "Review requested"
        };
        proof {
            reveal_strlit("pr");
            reveal_strlit("review");
            reveal_strlit(":");
            reveal_strlit("pr:");
            reveal_strlit("review:");
            assert(key@ =~= (if is_pr {
                "pr:"@
            } else {
                "review:"@
            }) + it.repo@ + "#"@ + dec(it.number as nat));
        }
        Some(
            Attention {
                kind: string_from(&chars_of(kind)),
                key: string_from(&key),
                label: string_from(&label),
                title: string_from(&chars_of(title)),
                body: string_from(&body),
            },
        )
    } else {
        None
    }
}

/// The attention item a host notification makes: CI alerts (check suites).
pub open spec fn notification_attention_of(n: Notification) -> Option<(Seq<char>, Seq<char>, Seq<char>, Seq<char>, Seq<char>)> {
    if n.kind@ == "CheckSuite"@ {
        Some(
            (
                "ci"@,
                "ci:"@ + n.repo@ + ":"@ + n.title@,
                "CI: "@ + after_last(n.repo@, '/'),
                "CI alert"@,
                n.repo@ + ": "@ + n.title@,
            ),
        )
    } else {
        None
    }
}

/// The attention item a host notification makes, if any.
pub fn notification_attention(n: &Notification) -> (r: Option<Attention>)
    ensures
        match r {
            Some(a) => notification_attention_of(*n) == Some(attention_view(a)),
            None => notification_attention_of(*n) is None,
        },
{
    if !str_eq(n.kind.as_str(), "CheckSuite") {
        return None;
    }
    let mut key = chars_of("ci:");
    push_str(&mut key, n.repo.as_str());
    push_str(&mut key, ":");
    push_str(&mut key, n.title.as_str());
    let mut label = chars_of("CI: ");
    push_all(&mut label, &after_last_chars(&chars_of(n.repo.as_str()), '/'));
    let mut body = chars_of(n.repo.as_str());
    push_str(&mut body, ": ");
    push_str(&mut body, n.title.as_str());
    Some(
        Attention {
            kind: string_from(&chars_of("ci")),
            key: string_from(&key),
            label: string_from(&label),
            title: string_from(&chars_of("CI alert")),
            body: string_from(&body),
        },
    )
}

/// The notices a poll fires: none on the first poll (no previous snapshot) or
/// with notifications off; otherwise the items whose key was not seen before
/// and whose kind is enabled, in order.
pub open spec fn fresh_of(
    items: Seq<Attention>,
    prev: Option<Seq<Seq<char>>>,
    notify_enabled: bool,
    notify_new_pr: bool,
) -> Seq<(Seq<char>, Seq<char>)>
    decreases items.len(),
{
    if items.len() == 0 {
        Seq::empty()
    } else {
        let rest = fresh_of(items.drop_last(), prev, notify_enabled, notify_new_pr);
        let a = items.last();
        match prev {
            Some(p) => if notify_enabled && !p.contains(a.key@) && a.kind@ == "pr"@ && notify_new_pr {
                rest.push((a.title@, a.body@))
            } else {
                rest
            },
            None => rest,
        }
    }
}

pub open spec fn notice_views(v: Seq<Notice>) -> Seq<(Seq<char>, Seq<char>)> {
    v.map_values(|n: Notice| (n.title@, n.body@))
}

fn seen_before(prev: &[String], key: &str) -> (r: bool)
    ensures
        r == str_views(prev@).contains(key@),
{
    let mut k: usize = 0;
    while k < prev.len()
        invariant
            k <= prev@.len(),
            forall|m: int| 0 <= m < k ==> prev@[m]@ != key@,
        decreases prev.len() - k,
    {
        if str_eq(prev[k].as_str(), key) {
            proof {
                assert(str_views(prev@)[k as int] == key@);
            }
            return true;
        }
        k = k + 1;
    }
    proof {
        if str_views(prev@).contains(key@) {
            let m = choose|m: int| 0 <= m < str_views(prev@).len() && str_views(prev@)[m] == key@;
            assert(prev@[m]@ == key@);
        }
    }
    false
}

/// The notifications a poll fires, given the keys seen on the previous poll
/// (`None` on the very first poll, so launch never notifies the whole inbox).
pub fn fresh_notices(
    items: &[Attention],
    prev: Option<&[String]>,
    notify_enabled: bool,
    notify_new_pr: bool,
) -> (r: Vec<Notice>)
    ensures
        notice_views(r@) == fresh_of(
            items@,
            match prev {
                Some(p) => Some(str_views(p@)),
                None => None,
            },
            notify_enabled,
            notify_new_pr,
        ),
        prev is None ==> r@.len() == 0,
{
    let ghost pv: Option<Seq<Seq<char>>> = match prev {
        Some(p) => Some(str_views(p@)),
        None => None,
    };
    let mut out: Vec<Notice> = Vec::new();
    let mut k: usize = 0;
    proof {
        assert(items@.take(0) =~= Seq::<Attention>::empty());
        assert(notice_views(out@) =~= Seq::<(Seq<char>, Seq<char>)>::empty());
    }
    while k < items.len()
        invariant
            k <= items@.len(),
            pv == match prev {
                Some(p) => Some(str_views(p@)),
                None => None::<Seq<Seq<char>>>,
            },
            notice_views(out@) == fresh_of(items@.take(k as int), pv, notify_enabled, notify_new_pr),
            prev is None ==> out@.len() == 0,
        decreases items.len() - k,
    {
        proof {
            assert(items@.take(k + 1).drop_last() =~= items@.take(k as int));
            assert(items@.take(k + 1).last() == items@[k as int]);
        }
        match prev {
            Some(p) => {
                let a = &items[k];
                if notify_enabled && !seen_before(p, a.key.as_str()) && type_enabled(
                    notify_new_pr,
                    a.kind.as_str(),
                ) {
                    let n = Notice { title: a.title.clone(), body: a.body.clone() };
                    proof {
                        assert(notice_views(out@.push(n)) =~= notice_views(out@).push(
                            (n.title@, n.body@),
                        ));
                    }
                    out.push(n);
                }
            },
            None => {},
        }
        k = k + 1;
    }
    proof {
        assert(items@.take(items@.len() as int) =~= items@);
    }
    out
}

/// The glance labels of the current items, in order.
pub fn glance_lines(items: &[Attention]) -> (r: Vec<String>)
    ensures
        r@.len() == items@.len(),
        forall|i: int| 0 <= i < r@.len() ==> #[trigger] r@[i]@ == items@[i].label@,
{
    let mut out: Vec<String> = Vec::new();
    let mut k: usize = 0;
    while k < items.len()
        invariant
            k <= items@.len(),
            out@.len() == k,
            forall|i: int| 0 <= i < k ==> #[trigger] out@[i]@ == items@[i].label@,
        decreases items.len() - k,
    {
        out.push(items[k].label.clone());
        k = k + 1;
    }
    out
}

/// The dedupe keys of the current items, in order (the next poll's snapshot).
pub fn seen_keys(items: &[Attention]) -> (r: Vec<String>)
    ensures
        r@.len() == items@.len(),
        forall|i: int| 0 <= i < r@.len() ==> #[trigger] r@[i]@ == items@[i].key@,
{
    let mut out: Vec<String> = Vec::new();
    let mut k: usize = 0;
    while k < items.len()
        invariant
            k <= items@.len(),
            out@.len() == k,
            forall|i: int| 0 <= i < k ==> #[trigger] out@[i]@ == items@[i].key@,
        decreases items.len() - k,
    {
        out.push(items[k].key.clone());
        k = k + 1;
    }
    out
}

/// The attention items of the inbox entries, in order.
pub open spec fn inbox_attentions(items: Seq<InboxItem>) -> Seq<(Seq<char>, Seq<char>, Seq<char>, Seq<char>, Seq<char>)>
    decreases items.len(),
{
    if items.len() == 0 {
        Seq::empty()
    } else {
        let r = inbox_attentions(items.drop_last());
        match inbox_attention_of(items.last()) {
            Some(a) => r.push(a),
            None => r,
        }
    }
}

/// The attention items of the host notifications, in order.
pub open spec fn note_attentions(notes: Seq<Notification>) -> Seq<(Seq<char>, Seq<char>, Seq<char>, Seq<char>, Seq<char>)>
    decreases notes.len(),
{
    if notes.len() == 0 {
        Seq::empty()
    } else {
        let r = note_attentions(notes.drop_last());
        match notification_attention_of(notes.last()) {
            Some(a) => r.push(a),
            None => r,
        }
    }
}

pub open spec fn attention_views(v: Seq<Attention>) -> Seq<(Seq<char>, Seq<char>, Seq<char>, Seq<char>, Seq<char>)> {
    v.map_values(|a: Attention| attention_view(a))
}

/// Everything needing attention from one poll: new PRs and review requests
/// from the inbox, then CI alerts from the notifications.
pub fn collect_attention(inbox: &[InboxItem], notes: &[Notification]) -> (r: Vec<Attention>)
    ensures
        attention_views(r@) == inbox_attentions(inbox@) + note_attentions(notes@),
{
    let mut out: Vec<Attention> = Vec::new();
    let mut k: usize = 0;
    proof {
        assert(inbox@.take(0) =~= Seq::<InboxItem>::empty());
        assert(attention_views(out@) =~= Seq::<(Seq<char>, Seq<char>, Seq<char>, Seq<char>, Seq<char>)>::empty());
    }
    while k < inbox.len()
        invariant
            k <= inbox@.len(),
            attention_views(out@) == inbox_attentions(inbox@.take(k as int)),
        decreases inbox.len() - k,
    {
        proof {
            assert(inbox@.take(k + 1).drop_last() =~= inbox@.take(k as int));
            assert(inbox@.take(k + 1).last() == inbox@[k as int]);
        }
        match inbox_attention(&inbox[k]) {
            Some(a) => {
                proof {
                    assert(attention_views(out@.push(a)) =~= attention_views(out@).push(attention_view(a)));
                }
                out.push(a);
            },
            None => {},
        }
        k = k + 1;
    }
    proof {
        assert(inbox@.take(inbox@.len() as int) =~= inbox@);
    }
    let ghost head = attention_views(out@);
    let mut j: usize = 0;
    proof {
        assert(notes@.take(0) =~= Seq::<Notification>::empty());
        assert(head + note_attentions(notes@.take(0)) =~= head);
    }
    while j < notes.len()
        invariant
            j <= notes@.len(),
            head == inbox_attentions(inbox@),
            attention_views(out@) == head + note_attentions(notes@.take(j as int)),
        decreases notes.len() - j,
    {
        proof {
            assert(notes@.take(j + 1).drop_last() =~= notes@.take(j as int));
            assert(notes@.take(j + 1).last() == notes@[j as int]);
        }
        match notification_attention(&notes[j]) {
            Some(a) => {
                proof {
                    assert(attention_views(out@.push(a)) =~= attention_views(out@).push(attention_view(a)));
                    assert(head + note_attentions(notes@.take(j + 1)) =~= (head + note_attentions(
                        notes@.take(j as int),
                    )).push(attention_view(a)));
                }
                out.push(a);
            },
            None => {},
        }
        j = j + 1;
    }
    proof {
        assert(notes@.take(notes@.len() as int) =~= notes@);
    }
    out
}

} // verus!
