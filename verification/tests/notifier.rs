use repoharbor::notifier::collect_attention;
use repoharbor::inbox::{InboxItem, Notification};
use repoharbor::model::Host;
use repoharbor::notifier::{
    fresh_notices, glance_lines, inbox_attention, notification_attention, seen_keys, short_repo,
    type_enabled,
};

fn item(kind: &str, number: u64) -> InboxItem {
    InboxItem {
        kind: kind.into(),
        title: "Fix it".into(),
        repo: "acme/widget".into(),
        url: String::new(),
        number,
        draft: false,
        host: Host::Github,
    }
}

#[test]
fn short_repo_takes_trailing_segment() {
    assert_eq!(short_repo("acme/widget"), "widget");
    assert_eq!(short_repo("RepoHarbor"), "RepoHarbor");
}

#[test]
fn reviews_and_ci_never_notify_from_the_poll() {
    assert!(!type_enabled(true, "review"));
    assert!(!type_enabled(true, "ci"));
    assert!(type_enabled(true, "pr"));
    assert!(!type_enabled(false, "pr"));
}

#[test]
fn inbox_entries_become_attention_items() {
    let a = inbox_attention(&item("pr", 7)).unwrap();
    assert_eq!(a.kind, "pr");
    assert_eq!(a.key, "pr:acme/widget#7");
    assert_eq!(a.label, "New PR: widget #7");
    assert_eq!(a.title, "New pull request");
    assert_eq!(a.body, "acme/widget #7 · Fix it");
    let r = inbox_attention(&item("review", 3)).unwrap();
    assert_eq!(r.key, "review:acme/widget#3");
    assert_eq!(r.label, "Review requested: widget #3");
    assert!(inbox_attention(&item("issue", 1)).is_none());
}

#[test]
fn only_check_suite_notifications_become_ci_items() {
    let n = Notification {
        title: "Build failed".into(),
        repo: "acme/widget".into(),
        reason: "ci_activity".into(),
        kind: "CheckSuite".into(),
    };
    let a = notification_attention(&n).unwrap();
    assert_eq!(a.kind, "ci");
    assert_eq!(a.key, "ci:acme/widget:Build failed");
    assert_eq!(a.label, "CI: widget");
    let mut other = n.clone();
    other.kind = "PullRequest".into();
    assert!(notification_attention(&other).is_none());
}

#[test]
fn first_poll_never_notifies_and_later_polls_only_new_prs() {
    let items = vec![
        inbox_attention(&item("pr", 1)).unwrap(),
        inbox_attention(&item("pr", 2)).unwrap(),
        inbox_attention(&item("review", 3)).unwrap(),
    ];
    assert!(fresh_notices(&items, None, true, true).is_empty());
    let prev = vec!["pr:acme/widget#1".to_string()];
    let fresh = fresh_notices(&items, Some(&prev), true, true);
    assert_eq!(fresh.len(), 1);
    assert_eq!(fresh[0].body, "acme/widget #2 · Fix it");
    assert!(fresh_notices(&items, Some(&prev), false, true).is_empty());
    assert_eq!(glance_lines(&items)[2], "Review requested: widget #3");
    assert_eq!(seen_keys(&items), vec!["pr:acme/widget#1", "pr:acme/widget#2", "review:acme/widget#3"]);
}

#[test]
fn collect_lists_inbox_items_then_ci_alerts() {
    let notes = vec![
        Notification { title: "Build failed".into(), repo: "acme/widget".into(), reason: "ci".into(), kind: "CheckSuite".into() },
        Notification { title: "x".into(), repo: "acme/widget".into(), reason: "mention".into(), kind: "Issue".into() },
    ];
    let items = collect_attention(&[item("issue", 1), item("review", 2), item("pr", 3)], &notes);
    let keys: Vec<&str> = items.iter().map(|a| a.key.as_str()).collect();
    assert_eq!(keys, vec!["review:acme/widget#2", "pr:acme/widget#3", "ci:acme/widget:Build failed"]);
}
