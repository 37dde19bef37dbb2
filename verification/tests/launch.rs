use repoharbor::launch::{command_tokens, dispatch_tokens};

#[test]
fn prompt_stays_one_token() {
    let argv = dispatch_tokens(
        "kitty --working-directory {path} -e aider",
        "{prompt}",
        "/repo",
        "fix the flaky tests",
    );
    assert_eq!(
        argv,
        vec!["kitty", "--working-directory", "/repo", "-e", "aider", "fix the flaky tests"]
    );
}

#[test]
fn dispatch_args_can_carry_flags_and_path() {
    let argv = dispatch_tokens("aider", "--cwd {path} {prompt}", "/r", "do x");
    assert_eq!(argv, vec!["aider", "--cwd", "/r", "do x"]);
}

#[test]
fn empty_dispatch_args_appends_nothing() {
    let argv = dispatch_tokens("aider", "", "/r", "ignored");
    assert_eq!(argv, vec!["aider"]);
}

#[test]
fn command_tokens_substitutes_path_without_splitting_it() {
    let argv = command_tokens("code {path}", "/home/me/my repo");
    assert_eq!(argv, vec!["code", "/home/me/my repo"]);
    assert!(command_tokens("   ", "/r").is_empty());
}
