use project_x::orchestrator::context::{
    missing_file_context, BuildContext, ContextBuilder, DirListing, FileContext, ProjectContext,
    ProjectTree,
};

#[test]
fn test_suggest_relevant_files() {
    let builder = ContextBuilder::new();
    let tree = ProjectTree {
        root_files: vec!["src/main.rs".to_string(), "Cargo.toml".to_string()],
        dirs: vec![
            DirListing {
                dir: "src/voice".to_string(),
                files: vec!["capture.rs".to_string(), "transcribe.rs".to_string()],
            },
            DirListing {
                dir: "src/llm".to_string(),
                files: vec!["gemini_client.rs".to_string(), "notes.md".to_string()],
            },
        ],
    };

    let test_files = builder.suggest_relevant_files("add voice recording feature", &tree);
    assert!(test_files.iter().any(|f| f.contains("voice")));

    let llm_files = builder.suggest_relevant_files("fix gemini api issue", &tree);
    assert!(llm_files.iter().any(|f| f.contains("llm")));
}

#[test]
fn test_suggest_keeps_anchors_first_and_dedups() {
    let builder = ContextBuilder::new();
    let tree = ProjectTree {
        root_files: vec!["src/main.rs".to_string()],
        dirs: vec![DirListing {
            dir: "src/llm".to_string(),
            files: vec!["client.rs".to_string()],
        }],
    };
    let files = builder.suggest_relevant_files("gemini gemini ai llm", &tree);
    assert_eq!(files, vec!["src/main.rs", "src/llm/client.rs"]);
}

#[test]
fn test_format_for_llm() {
    let builder = ContextBuilder::new();
    let file_context = FileContext {
        path: "test.rs".to_string(),
        content: "fn test() {}".to_string(),
        line_count: 1,
        char_count: 12,
        exists: true,
    };

    let context = BuildContext {
        files: vec![file_context],
        total_lines: 1,
        total_chars: 12,
        total_files: 1,
        context_summary: "Test context".to_string(),
    };

    let formatted = builder.format_for_llm(&context, "test request");
    assert!(formatted.contains("User Request: test request"));
    assert!(formatted.contains("=== File: test.rs ==="));
    assert!(formatted.contains("fn test() {}"));
}

#[test]
fn test_build_context_with_nonexistent_file() {
    let builder = ContextBuilder::new();
    let entry = missing_file_context("nonexistent.rs");
    let context = builder.build_context(vec![entry]);

    assert_eq!(context.files.len(), 1);
    assert!(!context.files[0].exists);
    assert!(context.files[0].content.contains("does not exist"));
    assert!(context.context_summary.contains("1 files (0 successful)"));
}

#[test]
fn test_extract_keywords() {
    let builder = ContextBuilder::new();
    let keywords = builder.extract_keywords("add an APIs key to the client in api.rs");
    assert!(keywords.contains(&"api.rs".to_string()));
    assert!(keywords.contains(&"APIs".to_string()));
    assert!(!keywords.iter().any(|k| k == "client"));
}

#[test]
fn test_keyword_pattern_joins_with_pipe() {
    let builder = ContextBuilder::new();
    let pattern = builder.keyword_pattern(&vec!["API".to_string(), "api.rs".to_string()]);
    assert_eq!(pattern, "API|api.rs");
}

#[test]
fn test_limit_files_caps_the_bundle() {
    let builder = ContextBuilder::new();
    let files = vec!["a".to_string(), "b".to_string(), "c".to_string()];
    assert_eq!(builder.limit_files(&files, 2), vec!["a", "b"]);
    assert_eq!(builder.limit_files(&files, 9), vec!["a", "b", "c"]);
}

#[test]
fn test_project_context_new_is_empty() {
    let ctx = ProjectContext::new();
    assert!(ctx.files.is_empty());
    assert_eq!(ctx.total_line_count, 0);
    assert_eq!(ctx.total_char_count, 0);
}

#[test]
fn test_build_context_with_existing_file() {
    let builder = ContextBuilder::new();
    let entry = project_x::orchestrator::context::file_context_of(
        "test.rs",
        "fn main() {\n    println!(\"Hello\");\n}",
    );
    let context = builder.build_context(vec![entry]);

    assert_eq!(context.files.len(), 1);
    assert!(context.files[0].exists);
    assert_eq!(context.files[0].line_count, 3);
    assert!(context.files[0].content.contains("fn main()"));
}
