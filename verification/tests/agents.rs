use repoharbor::agents::{
    agent_session, basename, boot_time, cmdline_args, cwd_in_repo, newest_first, starttime_ticks,
    RunningAgent,
};

#[test]
fn basename_takes_trailing_segment() {
    assert_eq!(basename("/usr/bin/aider"), "aider");
    assert_eq!(basename("aider"), "aider");
    assert_eq!(basename(""), "");
}

#[test]
fn starttime_ticks_parses_field_22() {
    let after_comm: String = (3..=22).map(|n| n.to_string()).collect::<Vec<_>>().join(" ");
    let stat = format!("1234 (bash) {after_comm}\n");
    assert_eq!(starttime_ticks(&stat), Some(22));
}

#[test]
fn starttime_ticks_handles_comm_with_spaces_and_parens() {
    let after_comm: String = (3..=22).map(|n| (n * 10).to_string()).collect::<Vec<_>>().join(" ");
    let stat = format!("42 ((weird) name) {after_comm}");
    assert_eq!(starttime_ticks(&stat), Some(220));
}

#[test]
fn starttime_ticks_rejects_malformed() {
    assert_eq!(starttime_ticks("no parens here"), None);
    assert_eq!(starttime_ticks("1 (x) S 1 2 3"), None, "too few fields");
}

#[test]
fn boot_time_reads_the_btime_line() {
    assert_eq!(boot_time("cpu 1 2 3\nbtime 1700000000\nprocesses 5\n"), 1700000000);
    assert_eq!(boot_time("cpu 1 2 3\n"), 0);
}

#[test]
fn cmdline_args_splits_on_nul_bytes() {
    let raw = b"aider\0--resume\0x y\0";
    assert_eq!(cmdline_args(raw), vec!["aider", "--resume", "x y"]);
    assert!(cmdline_args(b"").is_empty());
    assert_eq!(cmdline_args(&[0x66, 0xff, 0x00]), vec!["f\u{fffd}"]);
}

#[test]
fn cwd_in_repo_matches_the_tree_not_a_prefix_sibling() {
    assert!(cwd_in_repo("/home/u/dev/app", "/home/u/dev/app"));
    assert!(cwd_in_repo("/home/u/dev/app/src", "/home/u/dev/app"));
    assert!(!cwd_in_repo("/home/u/dev/apple", "/home/u/dev/app"));
}

#[test]
fn agent_session_needs_a_known_program_inside_a_repo() {
    let repos = vec!["/home/u/dev/app".to_string()];
    let programs = vec!["aider".to_string(), "codex".to_string()];
    let args = vec!["/usr/bin/aider".to_string(), "--resume".to_string()];
    assert_eq!(
        agent_session(&args, "/home/u/dev/app/src", &repos, &programs),
        Some(("/home/u/dev/app".to_string(), "/usr/bin/aider --resume".to_string()))
    );
    assert_eq!(agent_session(&args, "/tmp", &repos, &programs), None);
    let other = vec!["vim".to_string()];
    assert_eq!(agent_session(&other, "/home/u/dev/app", &repos, &programs), None);
}

#[test]
fn newest_first_orders_by_start_time_descending() {
    let a = |pid: u32, t: i64| RunningAgent { pid, repo: "/r".into(), command: "c".into(), started_unix: t };
    let out = newest_first(vec![a(1, 10), a(2, 30), a(3, 20), a(4, 30)]);
    let pids: Vec<u32> = out.iter().map(|x| x.pid).collect();
    assert_eq!(pids, vec![2, 4, 3, 1]);
}
