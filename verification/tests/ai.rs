use repoharbor::ai::{api_error_message, ollama_error_message};
use repoharbor::ai::{cpu_retry_error, finish_generation, pull_model_name, retry_with_think};
use repoharbor::ai::take_complete_lines;
use repoharbor::ai::{walkable_path, ChangelogPick, MAX_CHANGELOGS, MAX_CHANGELOG_BYTES};
use repoharbor::ai::{backend_is_remote, embed_refusal, embeddings_supported, pull_refusal};
use repoharbor::ai::{
    changed_paths_in_diff, changelog_excerpt, commit_prompt, commit_prompt_with_context,
    commit_prompt_with_extras, fallback_commit_message, fallback_pr_draft, is_embedding_model,
    is_runner_crash, likely_thinking_model, manifest_paths_in_diff, odoo_manifest_version_hint,
    parse_backend, parse_odoo_version_line, pick_model, pr_prompt, split_commit_message,
    split_pr_draft, summary_prompt, version_from_manifest_text, Backend, CommitExtras,
    COMMIT_DIFF_CLAMP,
};
use repoharbor::model::{Activity, GitStatus, Repo};

fn repo() -> Repo {
    Repo {
        id: "/x".into(),
        display_name: "RepoHarbor".into(),
        slug: Some("acme/widget".into()),
        path: "~/dev/widget".into(),
        description: Some("repo dashboard".into()),
        language: Some("Rust".into()),
        git: GitStatus {
            branch: "main".into(),
            ahead: 2,
            behind: 0,
            dirty: 7,
            ..Default::default()
        },
        last_commit_unix: 0,
        activity: Activity::Active,
        root: "~/dev".into(),
        host: None,
        remote_host: None,
        stars: 0,
        topics: vec![],
        open_issues: 0,
        latest_release: None,
        private: false,
        favorite: false,
        ai_summary: None,
        parent_id: None,
        submodule_path: None,
    }
}

#[test]
fn pick_model_prefers_configured_then_smallest() {
    let avail = vec![("big:70b".to_string(), 40_000), ("small:1b".to_string(), 1_000)];
    assert_eq!(pick_model("big:70b", &avail).as_deref(), Some("big:70b"));
    assert_eq!(pick_model("missing", &avail).as_deref(), Some("small:1b"));
    assert_eq!(pick_model("x", &[]), None);
    assert_eq!(
        pick_model("qwen2.5", &[("qwen2.5:3b".into(), 1900), ("qwen3:0.6b".into(), 500)]).as_deref(),
        Some("qwen2.5:3b")
    );
}

#[test]
fn likely_thinking_model_matches_qwen3_and_gemma3() {
    assert!(likely_thinking_model("qwen3:0.6b"));
    assert!(likely_thinking_model("gemma3:1b"));
    assert!(!likely_thinking_model("qwen2.5:1.5b"));
    assert!(!likely_thinking_model("llama3.2:1b"));
}

#[test]
fn runner_crash_errors_are_detected_for_cpu_retry() {
    assert!(is_runner_crash(
        "Ollama API 500 Internal Server Error: llama runner process has terminated: %!w(<nil>)"
    ));
    assert!(is_runner_crash("runner process has terminated"));
    assert!(is_runner_crash("CUDA error: out of memory"));
    assert!(is_runner_crash("ggml_gallocr_reserve_n failed"));
    assert!(!is_runner_crash("model not found"));
}

#[test]
fn parse_backend_accepts_spellings_and_defaults_local() {
    assert!(matches!(parse_backend("llamaCpp"), Backend::LlamaCpp));
    assert!(matches!(parse_backend("llama_cpp"), Backend::LlamaCpp));
    assert!(matches!(parse_backend("ollama"), Backend::Ollama));
    assert!(matches!(parse_backend("cloud"), Backend::Cloud));
    assert!(matches!(parse_backend("openai"), Backend::Cloud));
    assert!(matches!(parse_backend("openaiCompat"), Backend::Cloud));
    assert!(matches!(parse_backend(""), Backend::Ollama));
    assert!(matches!(parse_backend("groq"), Backend::Ollama));
}

#[test]
fn pick_model_skips_embedding_models_in_fallback() {
    let avail = vec![
        ("nomic-embed-text".to_string(), 270),
        ("gemma:2b".to_string(), 1_600),
        ("qwen:9b".to_string(), 9_000),
    ];
    assert_eq!(pick_model("missing", &avail).as_deref(), Some("gemma:2b"));
    assert_eq!(pick_model("nomic-embed-text", &avail).as_deref(), Some("nomic-embed-text"));
    assert_eq!(pick_model("x", &[("all-minilm".to_string(), 50)]), None);
    assert!(is_embedding_model("nomic-embed-text"));
    assert!(!is_embedding_model("gemma:2b"));
}

#[test]
fn summary_prompt_includes_key_facts() {
    let p = summary_prompt(&repo());
    assert!(p.contains("RepoHarbor"));
    assert!(p.contains("Rust"));
    assert!(p.contains("7 uncommitted"));
    assert!(p.contains("branch main"));
}

#[test]
fn pr_prompt_and_draft_split_round_trip() {
    let commits = vec!["feat: two".to_string(), "feat: one".to_string()];
    let p = pr_prompt("feat/x", &commits);
    assert!(p.contains("feat/x"));
    assert!(p.contains("feat: two"));
    assert!(p.contains("FIRST line"));

    let (title, body) = split_pr_draft("feat: add x\n\n- one\n- two").unwrap();
    assert_eq!(title, "feat: add x");
    assert_eq!(body, "- one\n- two");
    assert_eq!(
        split_pr_draft("\"feat: quoted\"").unwrap(),
        ("feat: quoted".to_string(), String::new())
    );
    assert!(split_pr_draft("   \n").is_none());
}

#[test]
fn split_commit_message_separates_subject_and_body() {
    let (s, b) = split_commit_message("feat(x): add y\n\nLonger reasoning.\nSecond line.");
    assert_eq!(s, "feat(x): add y");
    assert_eq!(b, "Longer reasoning.\nSecond line.");
    assert_eq!(
        split_commit_message("`fix: subject only`\n"),
        ("fix: subject only".to_string(), String::new())
    );
    let (s, b) = split_commit_message("fix: a\nbody line");
    assert_eq!((s.as_str(), b.as_str()), ("fix: a", "body line"));
    assert_eq!(split_commit_message("  "), (String::new(), String::new()));
    let (s, b) = split_commit_message("```\nfeat(foo): add bar\n\nWhy it changed.\n```");
    assert_eq!(s, "feat(foo): add bar");
    assert_eq!(b, "Why it changed.");
    let (s, b) = split_commit_message("```text\nfix: z\n\nBody.\n```");
    assert_eq!(s, "fix: z");
    assert_eq!(b, "Body.");
}

#[test]
fn fallback_commit_message_uses_changelog_bullet() {
    let extras = CommitExtras {
        changelogs: vec![(
            "mod/CHANGELOG.md".to_string(),
            "# Changelog\n\n## [Unreleased]\n- Penalty bridge for absences.\n".to_string(),
        )],
        recent_subjects: vec![],
    };
    let diff = "diff --git a/mod/models/x.py b/mod/models/x.py\n+pass\n";
    let msg = fallback_commit_message(diff, &extras, None);
    assert!(msg.starts_with("chore: Penalty bridge"), "{msg}");
    assert!(!msg.contains("working tree"), "{msg}");
}

#[test]
fn fallback_commit_message_names_files_without_changelog() {
    let diff = "\
diff --git a/src/main.rs b/src/main.rs
+++ b/src/main.rs
diff --git a/src/lib.rs b/src/lib.rs
+++ b/src/lib.rs
";
    let msg = fallback_commit_message(diff, &CommitExtras::default(), None);
    assert_eq!(msg, "chore: update main.rs and lib.rs");
}

#[test]
fn fallback_commit_message_appends_odoo_version() {
    let diff = "\
diff --git a/addons/foo/__manifest__.py b/addons/foo/__manifest__.py
--- a/addons/foo/__manifest__.py
+++ b/addons/foo/__manifest__.py
@@ -1,3 +1,3 @@
 {
-    'version': '19.0.1.1.0',
+    'version': '19.0.1.2.0',
 }
";
    let msg = fallback_commit_message(diff, &CommitExtras::default(), None);
    assert!(msg.contains("19.0.1.2.0"), "{msg}");
    assert!(msg.starts_with("chore: update"), "{msg}");
}

#[test]
fn fallback_pr_draft_uses_latest_subject_and_lists_commits() {
    let commits = vec!["feat: two".to_string(), "feat: one".to_string()];
    let (title, body) = fallback_pr_draft("feat/x", &commits);
    assert_eq!(title, "feat: two");
    assert_eq!(body, "- feat: two\n- feat: one");
    let (title, body) = fallback_pr_draft("feat/x", &[]);
    assert_eq!(title, "feat/x");
    assert!(body.is_empty());
}

#[test]
fn commit_prompt_includes_diff_and_clamps() {
    let p = commit_prompt("diff --git a/x b/x\n+hello");
    assert!(p.contains("Conventional Commit"));
    assert!(p.contains("WHAT changed and WHY"));
    assert!(p.contains("+hello"));
    let big = "x".repeat(20_000);
    let clamped = commit_prompt(&big);
    assert!(clamped.len() < COMMIT_DIFF_CLAMP + 2_000);
    assert!(!clamped.contains(&"x".repeat(COMMIT_DIFF_CLAMP + 1)));
}

#[test]
fn parse_odoo_version_line_accepts_common_forms() {
    assert_eq!(
        parse_odoo_version_line("    'version': '19.0.1.2.0',"),
        Some("19.0.1.2.0".into())
    );
    assert_eq!(
        parse_odoo_version_line("+    \"version\": \"18.0.1.0.1\""),
        Some("18.0.1.0.1".into())
    );
    assert_eq!(parse_odoo_version_line("name = 'foo'"), None);
    assert_eq!(parse_odoo_version_line("--- a/__manifest__.py"), None);
}

#[test]
fn odoo_manifest_version_hint_from_diff_and_disk() {
    let diff = "\
diff --git a/addons/foo/__manifest__.py b/addons/foo/__manifest__.py
--- a/addons/foo/__manifest__.py
+++ b/addons/foo/__manifest__.py
@@ -1,5 +1,5 @@
 {
-    'version': '19.0.1.1.0',
+    'version': '19.0.1.2.0',
     'name': 'Foo',
 }
";
    let hint = odoo_manifest_version_hint(diff, None).expect("hint");
    assert!(hint.contains("19.0.1.2.0"), "{hint}");
    assert!(hint.contains("Odoo module version"));

    assert!(odoo_manifest_version_hint("diff --git a/x.rs b/x.rs\n+hi", None).is_none());

    // The version read from the manifest on disk wins over the diff's.
    let on_disk = version_from_manifest_text("{\n    'version': '19.0.9.9.9',\n    'name': 'Foo',\n}\n");
    assert_eq!(on_disk.as_deref(), Some("19.0.9.9.9"));
    let hint = odoo_manifest_version_hint(diff, on_disk.as_deref()).unwrap();
    assert!(hint.contains("19.0.9.9.9"), "{hint}");

    let prompt = commit_prompt_with_context(diff, None);
    assert!(prompt.contains("19.0.1.2.0"));
    assert!(prompt.contains("MUST mention the module version"));
}

#[test]
fn non_odoo_prompt_never_asks_for_a_module_version() {
    let p = commit_prompt("diff --git a/src/main.rs b/src/main.rs\n+fn main() {}\n");
    assert!(!p.contains("MUST mention the module version"), "{p}");
    assert!(!p.to_lowercase().contains("__manifest__"), "{p}");
    assert!(p.contains("Do not invent version numbers"));
}

#[test]
fn changed_paths_in_diff_lists_files_and_skips_dev_null() {
    let diff = "\
diff --git a/mod/views/foo.xml b/mod/views/foo.xml
--- a/mod/views/foo.xml
+++ b/mod/views/foo.xml
diff --git a/old.py b/old.py
--- a/old.py
+++ /dev/null
";
    let paths = changed_paths_in_diff(diff);
    assert_eq!(paths, vec!["mod/views/foo.xml", "old.py"]);
}

#[test]
fn changelog_excerpt_prefers_unreleased_section() {
    let text = "\
# Changelog

## [Unreleased]
### Added
- Penalty bridge for absences.

## [19.0.1.1.0] - 2026-01-01
- Older entry nobody asked about.
";
    let ex = changelog_excerpt(text);
    assert!(ex.contains("Penalty bridge"), "{ex}");
    assert!(!ex.contains("Older entry"), "{ex}");
    let empty = "# Changelog\n\n## Unreleased\n\n## [1.0.0]\n- First release.\n";
    assert!(changelog_excerpt(empty).contains("First release"));
    assert!(changelog_excerpt("just some notes\nand more\n").contains("just some notes"));
    assert!(changelog_excerpt("").is_empty());
}

#[test]
fn commit_prompt_with_extras_injects_notes_and_style() {
    let extras = CommitExtras {
        changelogs: vec![(
            "addons/foo/CHANGELOG.md".to_string(),
            "## Unreleased\n- Adds a bridge.".to_string(),
        )],
        recent_subjects: vec!["feat(foo): earlier work".to_string()],
    };
    let p = commit_prompt_with_extras("diff --git a/x b/x\n+hi", None, &extras);
    assert!(p.contains("addons/foo/CHANGELOG.md"));
    assert!(p.contains("Adds a bridge"));
    assert!(p.contains("feat(foo): earlier work"));
    assert!(p.contains("do not copy them verbatim"));
    assert!(p.contains("+hi"));
    assert_eq!(
        commit_prompt_with_extras("diff --git a/x b/x\n+hi", None, &CommitExtras::default()),
        commit_prompt("diff --git a/x b/x\n+hi")
    );
}

#[test]
fn manifest_paths_in_diff_collects_headers() {
    let diff = "diff --git a/m/__manifest__.py b/m/__manifest__.py\n+++ b/m/__openerp__.py\n";
    let paths = manifest_paths_in_diff(diff);
    assert!(paths.iter().any(|p| p == "m/__manifest__.py"));
    assert!(paths.iter().any(|p| p == "m/__openerp__.py"));
}

#[test]
fn ollama_errors_prefer_the_json_error_field() {
    assert_eq!(
        ollama_error_message("500 Internal Server Error", "{\"error\":\"model 'x' not found\"}"),
        "Ollama API 500 Internal Server Error: model 'x' not found"
    );
    assert_eq!(ollama_error_message("502 Bad Gateway", "  upstream down \n"), "Ollama API 502 Bad Gateway: upstream down");
    assert_eq!(ollama_error_message("503 Service Unavailable", ""), "Ollama API 503 Service Unavailable");
    assert_eq!(ollama_error_message("500 Internal Server Error", "{\"error\":42}"), "Ollama API 500 Internal Server Error: {\"error\":42}");
    assert_eq!(api_error_message("400", "raw", Some("field".into())), "Ollama API 400: field");
}

#[test]
fn generation_results_never_succeed_empty() {
    assert_eq!(finish_generation("m", "hi".into()), Ok("hi".to_string()));
    let e = finish_generation("m", String::new()).unwrap_err();
    assert!(e.starts_with("model m returned an empty response"), "{e}");
    assert!(cpu_retry_error("boom").starts_with("boom (GPU runner also failed"));
    assert_eq!(pull_model_name("qwen3"), "qwen3:latest");
    assert_eq!(pull_model_name("qwen3:0.6b"), "qwen3:0.6b");
    assert!(retry_with_think("llama3.2:1b", ""));
    assert!(!retry_with_think("qwen3:0.6b", ""));
    assert!(!retry_with_think("llama3.2:1b", "text"));
}

#[test]
fn streaming_buffers_yield_complete_lines_only() {
    let mut buf = b"{\"a\":1}\n\n{\"b\":2}\n{\"c\"".to_vec();
    let lines = take_complete_lines(&mut buf);
    assert_eq!(lines, vec![b"{\"a\":1}".to_vec(), b"{\"b\":2}".to_vec()]);
    assert_eq!(buf, b"{\"c\"".to_vec());
}

#[test]
fn backends_gate_embeddings_and_pulls() {
    assert!(embeddings_supported("ollama"));
    assert!(!embeddings_supported("cloud"));
    assert!(backend_is_remote("openai"));
    assert!(!backend_is_remote("llamaCpp"));
    assert!(embed_refusal(Backend::Ollama).is_none());
    assert!(embed_refusal(Backend::Cloud).is_some());
    assert!(pull_refusal(Backend::Ollama).is_none());
    assert!(pull_refusal(Backend::LlamaCpp).is_some());
}

#[test]
fn only_relative_paths_without_parent_steps_are_walked() {
    assert!(walkable_path("addons/sale/models/sale.py"));
    assert!(walkable_path("README.md"));
    assert!(walkable_path("a/.../b"));
    assert!(!walkable_path("/etc/passwd"));
    assert!(!walkable_path("../outside/x"));
    assert!(!walkable_path("a/../../b"));
    assert!(!walkable_path(".."));
}

#[test]
fn changelog_pick_dedupes_caps_and_skips_blank_or_large() {
    let mut pick = ChangelogPick::new();
    assert!(pick.wants_more());
    assert!(pick.should_read("a/CHANGELOG.md", 10));
    pick.add("a/CHANGELOG.md".to_string(), "## Unreleased\n- fixed the thing\n");
    assert_eq!(pick.found.len(), 1);
    assert_eq!(pick.found[0].0, "a/CHANGELOG.md");
    assert!(pick.found[0].1.contains("fixed the thing"));
    // The same file is not read twice; an oversized one not at all.
    assert!(!pick.should_read("a/CHANGELOG.md", 10));
    assert!(!pick.should_read("b/CHANGELOG.md", MAX_CHANGELOG_BYTES + 1));
    assert!(pick.should_read("b/CHANGELOG.md", MAX_CHANGELOG_BYTES));
    // A blank changelog contributes nothing.
    pick.add("b/CHANGELOG.md".to_string(), "   \n\n");
    assert_eq!(pick.found.len(), 1);
    pick.add("c/CHANGES.md".to_string(), "- one\n");
    pick.add("d/HISTORY.md".to_string(), "- two\n");
    assert_eq!(pick.found.len(), MAX_CHANGELOGS);
    assert!(!pick.wants_more());
}

#[test]
fn commit_prompt_asks_for_the_version_exactly_when_a_manifest_version_is_found() {
    let extras = CommitExtras {
        changelogs: vec![("m/CHANGELOG.md".to_string(), "- MUST keep".to_string())],
        recent_subjects: vec!["fix(m): mention the module".to_string(), "chore: version bump".to_string()],
    };
    let odoo = "diff --git a/m/__manifest__.py b/m/__manifest__.py\n+    'version': '17.0.2.0.0',\n";
    let p = commit_prompt_with_extras(odoo, None, &extras);
    assert!(p.contains("MUST mention the module version"));
    assert!(p.contains("17.0.2.0.0"));
    for s in ["m/CHANGELOG.md", "- MUST keep", "fix(m): mention the module", "chore: version bump"] {
        assert!(p.contains(s), "{s}");
    }
    let plain = commit_prompt_with_extras("diff --git a/x b/x\n+hi", None, &extras);
    assert!(!plain.contains("MUST mention the module version"), "{plain}");
    assert!(plain.contains("diff --git a/x b/x\n+hi"));
}
