use project_x::llm::gemini_client::{code_suggestion_prompt, GeminiLimiter};

#[test]
fn test_code_suggestion_prompt_enhancement() {
    // Test that the code suggestion method properly formats the prompt
    let input = "create a function to sort an array";
    let expected_content = "You are a coding assistant";

    let prompt = code_suggestion_prompt(input);
    assert!(prompt.contains(expected_content));
    assert!(prompt.contains(input));
}

#[test]
fn test_code_suggestion_prompt_truncates_long_input() {
    let mut long = String::new();
    for _ in 0..600 {
        long.push('x');
    }
    let prompt = code_suggestion_prompt(&long);
    assert!(prompt.contains("... [truncated]"));
}

#[test]
fn test_limiter_counts_and_refuses() {
    let mut limiter = GeminiLimiter::new(2, 100);
    assert!(limiter.try_begin_request(10).is_ok());
    assert!(limiter.try_begin_request(10).is_ok());
    let refused = limiter.try_begin_request(10);
    assert!(refused.is_err());
    assert!(refused.unwrap_err().contains("Request limit exceeded: 3/2"));
    let (used, max) = limiter.get_usage_stats();
    assert_eq!(used, 3);
    assert_eq!(max, 2);
    limiter.reset_usage();
    assert_eq!(limiter.get_usage_stats().0, 0);
}

#[test]
fn test_limiter_refuses_long_prompts() {
    let mut limiter = GeminiLimiter::new(10, 5);
    let refused = limiter.try_begin_request(6);
    assert!(refused.is_err());
    assert!(refused.unwrap_err().contains("Prompt too long: 6 characters (max: 5)"));
    assert!(limiter.try_begin_request(5).is_ok());
}
