use repoharbor::search::{hits_from_output, locate_rg, search_args};

fn match_line(path: &str, line: u64, text: &str) -> String {
    format!(
        "{{\"type\":\"match\",\"data\":{{\"path\":{{\"text\":\"{path}\"}},\"lines\":{{\"text\":\"{text}\\n\"}},\"line_number\":{line},\"absolute_offset\":6,\"submatches\":[]}}}}"
    )
}

#[test]
fn finds_a_match_and_attributes_it_to_the_repo() {
    let root = "/tmp/work/repo".to_string();
    let out = format!(
        "{{\"type\":\"begin\",\"data\":{{\"path\":{{\"text\":\"/tmp/work/repo/foo.txt\"}}}}}}\n{}\n{{\"type\":\"end\",\"data\":{{}}}}\n",
        match_line("/tmp/work/repo/foo.txt", 2, "the needle is here")
    );
    let hits = hits_from_output(&out, std::slice::from_ref(&root), 10);
    assert_eq!(hits.len(), 1);
    assert_eq!(hits[0].file, "foo.txt");
    assert_eq!(hits[0].repo, root);
    assert_eq!(hits[0].abs, "/tmp/work/repo/foo.txt");
    assert_eq!(hits[0].line, 2);
    assert!(hits[0].text.contains("needle"));
    assert!(!hits[0].text.ends_with('\n'));
}

#[test]
fn empty_query_or_no_paths_returns_empty() {
    assert!(search_args("", &["/tmp".into()]).is_none());
    assert!(search_args("   ", &["/tmp".into()]).is_none());
    assert!(search_args("x", &[]).is_none());
}

#[test]
fn a_dash_prefixed_query_is_a_literal_pattern_not_a_flag() {
    let args = search_args(" --pre=danger ", &["/r".to_string(), "relative".to_string()]).unwrap();
    assert_eq!(
        args,
        vec!["--json", "--smart-case", "--max-count", "20", "--max-columns", "300", "-e", "--pre=danger", "--", "/r"]
    );
}

#[test]
fn hits_go_to_the_longest_repo_prefix_and_respect_the_limit() {
    let paths = vec!["/w".to_string(), "/w/inner".to_string()];
    let out = [
        match_line("/w/inner/src/a.rs", 3, "x"),
        "not json".to_string(),
        match_line("/w/b.rs", 7, "y"),
        match_line("/elsewhere/c.rs", 1, "z"),
    ]
    .join("\n");
    let hits = hits_from_output(&out, &paths, 10);
    assert_eq!(hits.len(), 3);
    assert_eq!((hits[0].repo.as_str(), hits[0].file.as_str()), ("/w/inner", "src/a.rs"));
    assert_eq!((hits[1].repo.as_str(), hits[1].file.as_str()), ("/w", "b.rs"));
    assert_eq!((hits[2].repo.as_str(), hits[2].file.as_str()), ("", "elsewhere/c.rs"));
    assert_eq!(hits_from_output(&out, &paths, 2).len(), 2);
    assert!(hits_from_output(&out, &paths, 0).is_empty());
}

#[test]
fn locate_rg_reports_a_missing_binary_plainly() {
    match locate_rg() {
        Ok(p) => assert!(p == "rg" || p.ends_with("/rg")),
        Err(e) => assert_eq!(e, "ripgrep (rg) not found on PATH"),
    }
}
