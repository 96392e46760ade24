use project_x::edit::patch::{ApplyStep, CodePatcher, PatchResult, ToolOutput};

#[test]
fn test_validate_diff() {
    let valid_diff = r#"--- a/test.txt
+++ b/test.txt
@@ -1,3 +1,3 @@
 line 1
-old line
+new line
 line 3"#;

    assert!(CodePatcher::validate_diff(valid_diff));
    assert!(CodePatcher::validate_diff("")); // Empty diff is valid
    assert!(!CodePatcher::validate_diff("not a diff"));
}

#[test]
fn test_parse_modified_files() {
    let patcher = CodePatcher::new();
    let patch_output = r#"patching file src/main.rs
patching file src/lib.rs
Hunk #1 succeeded at 10 (offset 2 lines)."#;

    let files = patcher.parse_modified_files(patch_output);
    assert_eq!(files, vec!["src/main.rs", "src/lib.rs"]);
}

#[test]
fn test_create_patch() {
    let old_content = "line 1\nold line\nline 3\n";
    let new_content = "line 1\nnew line\nline 3\n";

    let patch = CodePatcher::create_patch(old_content, new_content, "test.txt");

    assert!(!patch.is_empty());
    assert!(patch.contains("--- a/test.txt"));
    assert!(patch.contains("+++ b/test.txt"));
    assert!(patch.contains("-old line"));
    assert!(patch.contains("+new line"));
}

#[test]
fn test_create_patch_identical_contents() {
    let patch = CodePatcher::create_patch("same\n", "same\n", "test.txt");
    assert_eq!(patch, "");
}

#[test]
fn test_create_patch_reconstructs_both_sides() {
    let old_content = "a\nb\n";
    let new_content = "a\nc\n";
    let patch = CodePatcher::create_patch(old_content, new_content, "f.txt");
    let minus: Vec<&str> = patch
        .lines()
        .skip(3)
        .filter(|l| l.starts_with('-'))
        .map(|l| &l[1..])
        .collect();
    let plus: Vec<&str> = patch
        .lines()
        .skip(3)
        .filter(|l| l.starts_with('+'))
        .map(|l| &l[1..])
        .collect();
    assert_eq!(minus, vec!["a", "b"]);
    assert_eq!(plus, vec!["a", "c"]);
}

#[test]
fn test_empty_diff_is_trivial_success() {
    let patcher = CodePatcher::new();
    match patcher.begin_apply("") {
        ApplyStep::Done(r) => {
            assert!(r.success);
            assert!(r.files_modified.is_empty());
            assert_eq!(r.output, "No changes to apply");
            assert!(r.error.is_none());
        },
        ApplyStep::RunTool(_) => panic!("empty diff must not reach the patch utility"),
    }
    match patcher.begin_apply("   \n\t") {
        ApplyStep::Done(r) => assert!(r.success),
        ApplyStep::RunTool(_) => panic!("blank diff must not reach the patch utility"),
    }
}

#[test]
fn test_fallback_order_and_first_success() {
    let patcher = CodePatcher::new();
    let diff = "--- a/x\n+++ b/x\n@@ -1 +1 @@\n-a\n+b";
    let cmd = match patcher.begin_apply(diff) {
        ApplyStep::RunTool(c) => c,
        ApplyStep::Done(_) => panic!("non-empty diff must run the utility"),
    };
    assert_eq!(cmd.strategy_index, 0);
    assert_eq!(cmd.strategy.strip, 1);
    assert!(cmd.strategy.fuzz.is_none());
    assert!(!cmd.dry_run);
    assert!(cmd.backup);

    let fail = ToolOutput { success: false, stdout: String::new(), stderr: "rejected".to_string() };
    let cmd2 = match patcher.continue_apply(0, &fail) {
        ApplyStep::RunTool(c) => c,
        ApplyStep::Done(_) => panic!("first failure must fall through to the second strategy"),
    };
    assert_eq!(cmd2.strategy_index, 1);
    assert_eq!(cmd2.strategy.strip, 1);
    assert_eq!(cmd2.strategy.fuzz, Some(3));

    let ok = ToolOutput {
        success: true,
        stdout: "patching file src/main.rs\n".to_string(),
        stderr: String::new(),
    };
    match patcher.continue_apply(1, &ok) {
        ApplyStep::Done(r) => {
            assert!(r.success);
            assert_eq!(r.files_modified, vec!["src/main.rs"]);
            assert!(r.error.is_none());
        },
        ApplyStep::RunTool(_) => panic!("a success must stop the fallback at once"),
    }

    let cmd3 = match patcher.continue_apply(1, &fail) {
        ApplyStep::RunTool(c) => c,
        ApplyStep::Done(_) => panic!("second failure must fall through to the third strategy"),
    };
    assert_eq!(cmd3.strategy_index, 2);
    assert_eq!(cmd3.strategy.strip, 0);
    assert_eq!(cmd3.strategy.fuzz, Some(3));

    match patcher.continue_apply(2, &fail) {
        ApplyStep::Done(r) => {
            assert!(!r.success);
            assert_eq!(r.error, Some("rejected".to_string()));
        },
        ApplyStep::RunTool(_) => panic!("the fallback has only three strategies"),
    }
}

#[test]
fn test_test_patch_is_dry_run() {
    let patcher = CodePatcher::with_options(false, true);
    let diff = "--- a/x\n+++ b/x\n@@ -1 +1 @@\n-a\n+b";
    match patcher.test_patch(diff) {
        ApplyStep::RunTool(c) => {
            assert!(c.dry_run);
            assert!(!c.backup);
            assert_eq!(c.strategy_index, 0);
        },
        ApplyStep::Done(_) => panic!("non-empty diff must run the utility"),
    }
}

#[test]
fn test_verify_outcome_filters_missing_files() {
    let patcher = CodePatcher::new();
    let result = PatchResult {
        success: true,
        files_modified: vec!["kept.rs".to_string(), "gone.rs".to_string()],
        output: "out".to_string(),
        error: None,
    };
    let flags = vec![true, false];
    let verified = patcher.verify_outcome(result, &flags);
    assert!(verified.success);
    assert_eq!(verified.files_modified, vec!["kept.rs"]);
    assert_eq!(verified.output, "out");
}

#[test]
fn test_validate_diff_is_idempotent() {
    let diff = "--- a/test.txt\n+++ b/test.txt\n@@ -1 +1 @@\n-a\n+b";
    let first = CodePatcher::validate_diff(diff);
    let second = CodePatcher::validate_diff(diff);
    assert_eq!(first, second);
    assert!(first);
    let first = CodePatcher::validate_diff("prose only");
    let second = CodePatcher::validate_diff("prose only");
    assert_eq!(first, second);
    assert!(!first);
}
