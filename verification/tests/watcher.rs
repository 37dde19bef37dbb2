use repoharbor::watcher::{ignored_dir, DirEntry, NestedWalk, NESTED_WATCH_CAP};

fn dir(parent: &str, name: &str) -> DirEntry {
    DirEntry { name: name.into(), path: format!("{parent}/{name}"), is_dir: true }
}

/// Drive a walk over an in-memory tree given as (dir, children) listings.
fn walk(repo: &str, tree: &[(&str, Vec<DirEntry>)], ignore: &[String]) -> Vec<String> {
    let mut w = NestedWalk::start(repo);
    while let Some((d, depth)) = w.next_dir() {
        let listing = tree.iter().find(|(p, _)| *p == d).map(|(_, es)| es.clone()).unwrap_or_default();
        w.visit(depth, &listing, ignore);
    }
    w.found()
}

#[test]
fn target_paths_include_shallow_nested_dirs() {
    let tree = vec![
        ("/r", vec![dir("/r", "src"), dir("/r", "node_modules"), dir("/r", ".git"),
            DirEntry { name: "README.md".into(), path: "/r/README.md".into(), is_dir: false }]),
        ("/r/src", vec![dir("/r/src", "nested")]),
        ("/r/src/nested", vec![dir("/r/src/nested", "deep")]),
        ("/r/src/nested/deep", vec![dir("/r/src/nested/deep", "deeper")]),
        ("/r/node_modules", vec![dir("/r/node_modules", "pkg")]),
    ];
    let found = walk("/r", &tree, &["node_modules".to_string()]);
    assert_eq!(found, vec!["/r/src", "/r/src/nested", "/r/src/nested/deep"]);
}

#[test]
fn nested_watch_dirs_respects_cap() {
    let children: Vec<DirEntry> = (0..NESTED_WATCH_CAP + 20).map(|i| dir("/r", &format!("d{i}"))).collect();
    let tree = vec![("/r", children)];
    let found = walk("/r", &tree, &[]);
    assert_eq!(found.len(), NESTED_WATCH_CAP);
    assert_eq!(found[0], "/r/d0");
}

#[test]
fn vcs_and_configured_names_are_ignored() {
    assert!(ignored_dir(".git", &[]));
    assert!(ignored_dir(".hg", &[]));
    assert!(ignored_dir(".svn", &[]));
    assert!(ignored_dir("target", &["target".to_string()]));
    assert!(!ignored_dir("src", &["target".to_string()]));
}

#[test]
fn an_empty_repo_has_no_nested_targets() {
    assert!(walk("/r", &[], &[]).is_empty());
}
