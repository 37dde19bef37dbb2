use repoharbor::dispatch::SessionTransition::{Finished, NoChange, Resumed, SeenAlive};
use repoharbor::dispatch::{names, rand_suffix, session_transition, slugify};

#[test]
fn session_transitions_cover_the_lifecycle() {
    assert_eq!(session_transition(false, 0, 0), NoChange);
    assert_eq!(session_transition(true, 0, 0), SeenAlive);
    assert_eq!(session_transition(true, 100, 0), SeenAlive);
    assert_eq!(session_transition(false, 100, 0), Finished);
    assert_eq!(session_transition(false, 100, 200), NoChange);
    assert_eq!(session_transition(true, 100, 200), Resumed);
}

#[test]
fn slugify_kebabs_and_caps() {
    assert_eq!(slugify("Fix the flaky CI tests!"), "fix-the-flaky-ci-tests");
    assert_eq!(slugify("  weird   spacing\n\t"), "weird-spacing");
    assert_eq!(slugify(""), "task");
    assert_eq!(slugify("!!!"), "task");
    let long = slugify("a very long prompt that should be truncated somewhere sensible");
    assert!(long.len() <= 28, "slug too long: {long}");
    assert!(!long.ends_with('-'), "no trailing dash: {long}");
}

#[test]
fn names_shape() {
    let n = names("Fix the tests", "3fa9");
    assert!(n.branch.starts_with("agent/fix-the-tests-"), "{}", n.branch);
    assert!(n.worktree.starts_with("agent-fix-the-tests-"), "{}", n.worktree);
    assert!(!n.worktree.contains('/'), "worktree name must be flat: {}", n.worktree);
    let suffix = n.branch.rsplit('-').next().unwrap();
    assert_eq!(suffix.len(), 4);
    assert!(suffix.chars().all(|c| c.is_ascii_hexdigit()));
}

#[test]
fn names_carry_the_given_suffix_on_both_names() {
    let n = names("Ship it", "00ff");
    assert_eq!(n.branch, "agent/ship-it-00ff");
    assert_eq!(n.worktree, "agent-ship-it-00ff");
}

#[test]
fn rand_suffix_is_four_lowercase_hex_digits_of_the_low_bits() {
    assert_eq!(rand_suffix(0), "0000");
    assert_eq!(rand_suffix(0xabcd), "abcd");
    assert_eq!(rand_suffix(0x1234_5678_9abc_def0), "def0");
    assert_eq!(rand_suffix(u64::MAX), "ffff");
    let n = names("Fix the login/logout bug", &rand_suffix(0x00af));
    assert_eq!(n.worktree, "agent-fix-the-login-logout-bug-00af");
    assert!(!n.worktree.contains('/'));
}
