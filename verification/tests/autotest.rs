use project_x::hooks::autotest::TestExecutor;

#[test]
fn test_parse_test_counts() {
    let executor = TestExecutor::new();
    let output = "test result: ok. 5 passed; 2 failed; 1 ignored; 0 measured; 0 filtered out";

    let (passed, failed, ignored, total) = executor.parse_test_counts(output);
    assert_eq!(passed, 5);
    assert_eq!(failed, 2);
    assert_eq!(ignored, 1);
    assert_eq!(total, 8);
}

#[test]
fn test_parse_failed_tests() {
    let executor = TestExecutor::new();
    let output = r#"test utils::git_client::tests::test_add_and_commit ... FAILED
thread 'utils::git_client::tests::test_add_and_commit' panicked at src/utils/git_client.rs:369:9:
assertion failed: status.staged_files.contains(&"test.txt".to_string())"#;

    let failed_tests = executor.parse_failed_tests(output);
    assert_eq!(failed_tests.len(), 1);
    assert_eq!(failed_tests[0].name, "utils::git_client::tests::test_add_and_commit");
    assert!(failed_tests[0].error_message.contains("assertion failed"));
}

#[test]
fn test_parse_failed_tests_location() {
    let executor = TestExecutor::new();
    let output = "test foo::bar ... FAILED\nthread 'foo::bar' panicked at src/x.rs:10:2:\nboom";
    let failed_tests = executor.parse_failed_tests(output);
    assert_eq!(failed_tests.len(), 1);
    assert_eq!(failed_tests[0].name, "foo::bar");
    assert_eq!(failed_tests[0].file_location, Some("src/x.rs".to_string()));
}

#[test]
fn test_parse_errors_picks_error_lines() {
    let executor = TestExecutor::new();
    let stderr = "warning: unused\nerror: expected `;`\nnote: hint\nError: build failed";
    let errors = executor.parse_errors(stderr);
    assert_eq!(errors.len(), 2);
    assert_eq!(errors[0], "error: expected `;`");
    assert_eq!(errors[1], "Error: build failed");
}

#[test]
fn test_interpret_test_run_combines_everything() {
    let executor = TestExecutor::with_timeout(1000);
    let stdout = "test result: ok. 3 passed; 0 failed; 1 ignored; 0 measured; 0 filtered out";
    let result = executor.interpret_test_run(true, stdout, "", 42);
    assert!(result.success);
    assert_eq!(result.passed, 3);
    assert_eq!(result.failed, 0);
    assert_eq!(result.ignored, 1);
    assert_eq!(result.total, 4);
    assert_eq!(result.duration_ms, 42);
    assert!(!result.timed_out);
    assert!(result.output.contains("STDOUT:"));
}

#[test]
fn test_interpret_timeout_is_distinct_failure() {
    let executor = TestExecutor::no_timeout();
    let result = executor.interpret_timeout(5000, "partial");
    assert!(result.timed_out);
    assert!(!result.success);
    assert_eq!(result.failed, 0);
    assert_eq!(result.total, 0);
    assert_eq!(result.output, "partial");
}

#[test]
fn test_counts_last_summary_line_wins() {
    let executor = TestExecutor::new();
    let output = "test result: ok. 1 passed; 0 failed; 0 ignored\ntest result: ok. 4 passed; 2 failed; 0 ignored";
    let (passed, failed, ignored, total) = executor.parse_test_counts(output);
    assert_eq!(passed, 4);
    assert_eq!(failed, 2);
    assert_eq!(ignored, 0);
    assert_eq!(total, 6);
}
