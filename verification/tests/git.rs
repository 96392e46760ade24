use project_x::utils::git_client::{has_uncommitted_changes, suggest_commit_message, GitDiff,
    GitStatus};

fn empty_status() -> GitStatus {
    GitStatus {
        staged_files: vec![],
        modified_files: vec![],
        untracked_files: vec![],
        deleted_files: vec![],
        renamed_files: vec![],
    }
}

fn small_diff() -> GitDiff {
    GitDiff { diff_text: String::new(), file_count: 1, insertions: 1, deletions: 0 }
}

#[test]
fn test_suggest_commit_message() {
    let mut status = empty_status();
    status.staged_files = vec!["test.rs".to_string()];

    let suggestion = suggest_commit_message(&status, &small_diff());
    assert!(suggestion.contains("test.rs") || suggestion.contains("Rust"));
}

#[test]
fn test_suggest_commit_message_no_staged_changes() {
    let suggestion = suggest_commit_message(&empty_status(), &small_diff());
    assert_eq!(suggestion, "No staged changes");
}

#[test]
fn test_suggest_commit_message_kinds() {
    let mut status = empty_status();
    status.staged_files = vec!["README.md".to_string()];
    assert_eq!(suggest_commit_message(&status, &small_diff()), "Update documentation: README.md");

    status.staged_files = vec!["a.rs".to_string(), "b.py".to_string()];
    assert_eq!(suggest_commit_message(&status, &small_diff()), "Update Rust implementation");

    status.staged_files = vec!["a.txt".to_string(), "b.txt".to_string()];
    assert_eq!(suggest_commit_message(&status, &small_diff()), "Update 2 files");
}

#[test]
fn test_suggest_commit_message_appends_large_diff_stats() {
    let mut status = empty_status();
    status.staged_files = vec!["big.rs".to_string()];
    let diff = GitDiff { diff_text: String::new(), file_count: 1, insertions: 60, deletions: 5 };
    let suggestion = suggest_commit_message(&status, &diff);
    assert_eq!(suggestion, "Update big.rs (+60 -5 lines)");
}

#[test]
fn test_has_uncommitted_changes() {
    let mut status = empty_status();
    assert!(!has_uncommitted_changes(&status));
    status.untracked_files = vec!["new.rs".to_string()];
    assert!(has_uncommitted_changes(&status));
}
