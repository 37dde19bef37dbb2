use repoharbor::model::{Activity, GitStatus, Repo};
use repoharbor::semantic::{
    build_doc, changed_sources, chunk_text, hard_split, join_with, repo_key, sig_key,
    text_signature, CHUNK_MAX_CHARS, CHUNK_TARGET_CHARS, MAX_CHUNKS_PER_SOURCE,
};

fn repo() -> Repo {
    Repo {
        id: "/home/u/dev/repoharbor".into(),
        display_name: "RepoHarbor".into(),
        slug: Some("o/repoharbor".into()),
        path: "~/dev/repoharbor".into(),
        description: None,
        language: None,
        git: GitStatus::default(),
        last_commit_unix: 0,
        activity: Activity::Active,
        root: "~/dev".into(),
        host: None,
        remote_host: Some("github.com".into()),
        stars: 0,
        topics: vec![],
        open_issues: 0,
        latest_release: None,
        private: false,
        favorite: false,
        ai_summary: None,
        parent_id: None,
        submodule_path: None,
    }
}

#[test]
fn chunking_packs_paragraphs_and_respects_headings() {
    assert!(chunk_text("").is_empty());
    assert!(chunk_text("  \n\n \n").is_empty());
    let chunks = chunk_text("first para\nstill first\n\nsecond para");
    assert_eq!(chunks, vec!["first para\nstill first\n\nsecond para"]);
    let chunks = chunk_text("# Title\nintro text\n\n## Usage\nrun it");
    assert_eq!(chunks.len(), 1);
    assert!(chunks[0].contains("# Title\nintro text"));
    assert!(chunks[0].contains("## Usage\nrun it"));
    let para = "x".repeat(CHUNK_TARGET_CHARS - 10);
    let text = format!("# One\n{para}\n\n# Two\nsecond section");
    let chunks = chunk_text(&text);
    assert_eq!(chunks.len(), 2);
    assert!(chunks[0].starts_with("# One"));
    assert_eq!(chunks[1], "# Two\nsecond section");
}

#[test]
fn chunking_hard_splits_oversized_blocks_and_caps_count() {
    let words = "word ".repeat(1000);
    let chunks = chunk_text(&words);
    assert!(chunks.len() >= 3);
    for c in &chunks {
        assert!(c.chars().count() <= CHUNK_MAX_CHARS);
        assert!(!c.is_empty());
    }
    assert!(chunks.iter().all(|c| c.starts_with("word")));
    let huge = "para\n\n".repeat(10_000);
    assert_eq!(chunk_text(&huge).len(), MAX_CHUNKS_PER_SOURCE);
}

#[test]
fn hard_split_keeps_short_blocks_whole() {
    assert_eq!(hard_split("short block"), vec!["short block"]);
    let long = "y".repeat(CHUNK_MAX_CHARS + 5);
    let pieces = hard_split(&long);
    assert_eq!(pieces.len(), 2);
    assert_eq!(pieces[0].chars().count(), CHUNK_MAX_CHARS);
}

#[test]
fn changed_sources_skips_unchanged_and_absent() {
    let sources = vec![
        ("readme".to_string(), "# Hello".to_string()),
        ("notes".to_string(), "remember the milk".to_string()),
        ("topics".to_string(), "".to_string()),
    ];
    let changed = changed_sources(&sources, &[None, None, None]);
    assert_eq!(changed.iter().map(|(s, ..)| s.as_str()).collect::<Vec<_>>(), vec!["readme", "notes"]);

    let readme_sig = text_signature("# Hello");
    let changed = changed_sources(&sources, &[Some(readme_sig.clone()), None, None]);
    assert_eq!(changed.len(), 1);
    assert_eq!(changed[0].0, "notes");
    assert_eq!(changed[0].2, text_signature("remember the milk"));

    let cleared = vec![("notes".to_string(), "".to_string())];
    let changed = changed_sources(&cleared, &[Some("oldsig".into())]);
    assert_eq!(changed.len(), 1);
    assert_eq!(changed[0].1, "");
    let empty_sig = text_signature("");
    assert!(changed_sources(&cleared, &[Some(empty_sig)]).is_empty());
}

#[test]
fn text_signature_is_stable_and_tells_texts_apart() {
    assert_eq!(text_signature("abc"), text_signature("abc"));
    assert_ne!(text_signature("abc"), text_signature("abd"));
    assert_ne!(text_signature("abc"), "abc");
}

#[test]
fn repo_key_prefers_host_slug_and_falls_back_to_path() {
    let mut repo = repo();
    assert_eq!(repo_key(&repo), ("github.com".to_string(), "o/repoharbor".to_string()));
    repo.slug = None;
    assert_eq!(repo_key(&repo), (String::new(), "/home/u/dev/repoharbor".to_string()));
}

#[test]
fn sig_key_joins_host_slug_and_source() {
    assert_eq!(sig_key("github.com", "o/test", "readme"), "embed_sig:github.com\u{1f}o/test\u{1f}readme");
}

#[test]
fn build_doc_lists_every_source_kind() {
    let mut r = repo();
    r.topics = vec!["rust".into(), "git".into()];
    let doc = build_doc(&r, "# Readme", "a note", &["feat: one".to_string(), "fix: two".to_string()]);
    assert_eq!(doc.host, "github.com");
    assert_eq!(doc.slug, "o/repoharbor");
    let kinds: Vec<&str> = doc.sources.iter().map(|(k, _)| k.as_str()).collect();
    assert_eq!(kinds, vec!["readme", "description", "topics", "notes", "commits"]);
    assert_eq!(doc.sources[0].1, "# Readme");
    assert_eq!(doc.sources[2].1, "rust, git");
    assert_eq!(doc.sources[3].1, "a note");
    assert_eq!(doc.sources[4].1, "feat: one\nfix: two");
    assert_eq!(join_with(&[], ", "), "");
}
