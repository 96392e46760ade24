use project_x::edit::patch::PatchResult;
use project_x::hooks::autotest::TestExecutor;
use project_x::orchestrator::change_loop::{sanitize, ChangeLoop, LoopAction, LoopConfig,
    LoopOutcome};
use project_x::orchestrator::memory::MemoryManager;

const VALID_DIFF: &str = "--- a/src/lib.rs\n+++ b/src/lib.rs\n@@ -1 +1 @@\n-old\n+new";

#[test]
fn test_sanitize_passes_plain_diff_through() {
    assert_eq!(sanitize(VALID_DIFF), VALID_DIFF);
}

#[test]
fn test_sanitize_unwraps_fenced_diff() {
    let raw = format!("Here you go:\n```diff\n{}\n```\nGood luck!", VALID_DIFF);
    assert_eq!(sanitize(&raw), VALID_DIFF);
}

#[test]
fn test_sanitize_strips_line_number_pipes() {
    let raw = "--- a/x\n+++ b/x\n@@ -1 +1 @@\n   7 | -old\n   8 | +new";
    assert_eq!(sanitize(raw), "--- a/x\n+++ b/x\n@@ -1 +1 @@\n-old\n+new");
}

#[test]
fn test_sanitize_drops_prose() {
    let raw = "I think the fix is:\n--- a/x\n+++ b/x\n@@ -1 +1 @@\n-a\n+b\nHope this helps!";
    assert_eq!(sanitize(raw), "--- a/x\n+++ b/x\n@@ -1 +1 @@\n-a\n+b");
}

#[test]
fn test_sanitize_free_prose_yields_no_valid_diff() {
    let out = sanitize("This request cannot be fulfilled, sorry.");
    assert!(!project_x::edit::patch::CodePatcher::validate_diff(&out) || out.is_empty());
}

fn fresh_loop(max_retries: usize, dry_run: bool, skip_tests: bool) -> ChangeLoop {
    let memory = MemoryManager::new_in_memory().unwrap();
    let config = LoopConfig { max_retries, dry_run, skip_tests };
    ChangeLoop::new(config, memory)
}

fn passing_tests() -> project_x::hooks::autotest::TestResult {
    let executor = TestExecutor::new();
    executor.interpret_test_run(
        true,
        "test result: ok. 5 passed; 0 failed; 0 ignored; 0 measured; 0 filtered out",
        "",
        10,
    )
}

fn failing_tests() -> project_x::hooks::autotest::TestResult {
    let executor = TestExecutor::new();
    executor.interpret_test_run(
        false,
        "test foo::bar ... FAILED\nthread 'foo::bar' panicked at src/x.rs:1:1:\nboom\ntest result: FAILED. 3 passed; 1 failed; 0 ignored; 0 measured; 0 filtered out",
        "",
        10,
    )
}

#[test]
fn test_loop_succeeds_on_first_attempt() {
    let mut cl = fresh_loop(3, false, false);
    let a = cl.begin("add function X").unwrap();
    assert!(matches!(a, LoopAction::BuildContext));

    let a = cl.on_context_built("the files", "add function X").unwrap();
    let prompt = match a {
        LoopAction::Generate(p) => p,
        _ => panic!("expected a generation request"),
    };
    assert!(prompt.contains("USER REQUEST: \"add function X\""));
    assert!(!prompt.contains("previous attempt failed"));

    let a = cl.on_generation(VALID_DIFF).unwrap();
    let diff = match a {
        LoopAction::ApplyPatch(d) => d,
        _ => panic!("expected patch application"),
    };
    assert_eq!(diff, VALID_DIFF);

    let outcome = PatchResult {
        success: true,
        files_modified: vec!["src/lib.rs".to_string()],
        output: String::new(),
        error: None,
    };
    let a = cl.on_patch_applied(&outcome).unwrap();
    assert!(matches!(a, LoopAction::RunTests));

    let a = cl.on_tests_finished(&passing_tests()).unwrap();
    match a {
        LoopAction::Finish(LoopOutcome::Success { attempts, files_modified }) => {
            assert_eq!(attempts, 1);
            assert_eq!(files_modified, vec!["src/lib.rs"]);
        },
        _ => panic!("expected success"),
    }
}

#[test]
fn test_loop_retries_after_failed_patch_then_succeeds() {
    let mut cl = fresh_loop(3, false, false);
    cl.begin("add function X").unwrap();
    cl.on_context_built("files", "add function X").unwrap();
    cl.on_generation(VALID_DIFF).unwrap();

    let failed = PatchResult {
        success: false,
        files_modified: vec![],
        output: String::new(),
        error: Some("hunk mismatch".to_string()),
    };
    let a = cl.on_patch_applied(&failed).unwrap();
    assert!(matches!(a, LoopAction::BuildContext));
    assert_eq!(cl.attempt(), 2);

    let logged = cl.memory().search_messages("Patch application failed", 10).unwrap();
    assert_eq!(logged.len(), 1);
    assert!(logged[0].content.contains("hunk mismatch"));

    let a = cl.on_context_built("files", "add function X").unwrap();
    let prompt = match a {
        LoopAction::Generate(p) => p,
        _ => panic!("expected a generation request"),
    };
    assert!(prompt.contains("Your previous attempt failed"));

    cl.on_generation(VALID_DIFF).unwrap();
    let ok = PatchResult {
        success: true,
        files_modified: vec!["src/lib.rs".to_string()],
        output: String::new(),
        error: None,
    };
    cl.on_patch_applied(&ok).unwrap();
    let a = cl.on_tests_finished(&passing_tests()).unwrap();
    match a {
        LoopAction::Finish(LoopOutcome::Success { attempts, .. }) => assert_eq!(attempts, 2),
        _ => panic!("expected success at the second attempt"),
    }
}

#[test]
fn test_loop_exhausts_retries_after_failing_tests() {
    let mut cl = fresh_loop(2, false, false);
    cl.begin("add function X").unwrap();

    for attempt in 1..=2usize {
        assert_eq!(cl.attempt(), attempt);
        cl.on_context_built("files", "add function X").unwrap();
        cl.on_generation(VALID_DIFF).unwrap();
        let ok = PatchResult {
            success: true,
            files_modified: vec!["src/lib.rs".to_string()],
            output: String::new(),
            error: None,
        };
        cl.on_patch_applied(&ok).unwrap();
        let a = cl.on_tests_finished(&failing_tests()).unwrap();
        if attempt == 1 {
            assert!(matches!(a, LoopAction::BuildContext));
        } else {
            match a {
                LoopAction::Finish(LoopOutcome::ExhaustedRetries { attempts }) => {
                    assert_eq!(attempts, 2);
                },
                _ => panic!("expected exhausted retries"),
            }
        }
    }

    let failures = cl.memory().search_messages("Tests failed", 10).unwrap();
    assert_eq!(failures.len(), 2);
    assert!(failures[0].content.contains("3 passed, 1 failed"));
    assert!(failures[0].content.contains("foo::bar"));
}

#[test]
fn test_loop_invalid_diff_advances_without_patching() {
    let mut cl = fresh_loop(2, false, false);
    cl.begin("request").unwrap();
    cl.on_context_built("files", "request").unwrap();
    // bullet lines survive the sanitizer but are no grammar-valid diff
    let a = cl.on_generation("- look at the docs\n- try again later").unwrap();
    assert!(matches!(a, LoopAction::BuildContext));
    assert_eq!(cl.attempt(), 2);
    let notes = cl.memory().search_messages("not a valid unified diff", 10).unwrap();
    assert_eq!(notes.len(), 1);
}

#[test]
fn test_loop_dry_run_stops_after_patch() {
    let mut cl = fresh_loop(3, true, false);
    cl.begin("request").unwrap();
    cl.on_context_built("files", "request").unwrap();
    cl.on_generation(VALID_DIFF).unwrap();
    let ok = PatchResult {
        success: true,
        files_modified: vec!["src/lib.rs".to_string()],
        output: String::new(),
        error: None,
    };
    let a = cl.on_patch_applied(&ok).unwrap();
    match a {
        LoopAction::Finish(LoopOutcome::Success { attempts, .. }) => assert_eq!(attempts, 1),
        _ => panic!("dry run must stop after a successful application"),
    }
}
