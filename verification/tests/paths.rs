use repoharbor::dispatch::{worktree_dest, worktree_dest_under};
use repoharbor::paths::{
    config_file_under, config_write_path, data_dir, join_path, legacy_config_path, legacy_data_dir,
    read_path_choice, redact_user_paths, redact_with_home,
};

#[test]
fn redacts_home_prefix_when_present() {
    let home = "/home/tester";
    assert_eq!(redact_with_home("/home/tester/odoo/project/foo", Some(home)), "~/odoo/project/foo");
    assert_eq!(redact_with_home("already ~ relative", Some(home)), "already ~ relative");
    assert_eq!(redact_with_home("/home/tester/a and /home/tester/b", Some(home)), "~/a and ~/b");
    assert_eq!(redact_with_home("/x", Some("")), "/x");
    assert_eq!(redact_with_home("/home/tester/x", None), "/home/tester/x");
    if let Some(real) = dirs::home_dir() {
        let real = real.to_string_lossy().into_owned();
        if !real.is_empty() {
            assert_eq!(redact_user_paths(&format!("{real}/odoo/project/foo")), "~/odoo/project/foo");
        }
    }
    assert_eq!(redact_user_paths("already ~ relative"), "already ~ relative");
}

#[test]
fn paths_join_like_path_buf() {
    assert_eq!(join_path("/a", "b"), "/a/b");
    assert_eq!(join_path("/a/", "b"), "/a/b");
    assert_eq!(join_path("/a", "/abs"), "/abs");
    assert_eq!(join_path("", "b"), "b");
    assert_eq!(config_file_under("/home/u/.config", "repoharbor"), "/home/u/.config/repoharbor/config.toml");
}

#[test]
fn app_paths_use_the_new_name_and_legacy_only_for_reading() {
    if let Some(d) = data_dir() {
        assert!(d.ends_with("/repoharbor"), "{d}");
    }
    if let Some(d) = legacy_data_dir() {
        assert!(d.ends_with("/orrery"), "{d}");
    }
    if let Some(p) = config_write_path() {
        assert!(p.ends_with("/repoharbor/config.toml"), "{p}");
    }
    if let Some(p) = legacy_config_path() {
        assert!(p.ends_with("/orrery/config.toml"), "{p}");
    }
    let new = "/n".to_string();
    let legacy = Some("/l".to_string());
    assert_eq!(read_path_choice(new.clone(), legacy.clone(), true, true), "/n");
    assert_eq!(read_path_choice(new.clone(), legacy.clone(), false, true), "/l");
    assert_eq!(read_path_choice(new.clone(), legacy, false, false), "/n");
    assert_eq!(read_path_choice(new, None, false, true), "/n");
}

#[test]
fn dest_is_under_data_dir_and_keyed_by_repo() {
    let dest = worktree_dest_under("/home/u/.local/share/repoharbor", "/home/u/dev/myrepo/", "agent-x-abcd");
    assert_eq!(dest, "/home/u/.local/share/repoharbor/worktrees/myrepo-agent-x-abcd");
    if let Some(s) = worktree_dest("/home/u/dev/myrepo", "agent-x-abcd") {
        assert!(s.contains("repoharbor"));
        assert!(s.ends_with("worktrees/myrepo-agent-x-abcd"), "{s}");
    }
}
