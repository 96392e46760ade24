use project_x::orchestrator::memory::{MemoryManager, MessageRole};

#[test]
fn test_memory_manager_creation() {
    let memory = MemoryManager::new_in_memory().unwrap();
    let stats = memory.get_stats().unwrap();
    assert_eq!(stats.total_messages, 0);
}

#[test]
fn test_add_and_retrieve_messages() {
    let mut memory = MemoryManager::new_in_memory().unwrap();

    memory.add_message(MessageRole::User, "Hello, world!").unwrap();
    memory.add_message(MessageRole::Assistant, "Hello! How can I help you?").unwrap();

    let history = memory.get_recent_history(10).unwrap();
    assert_eq!(history.len(), 2);
    assert_eq!(history[0].content, "Hello, world!");
    assert_eq!(history[1].content, "Hello! How can I help you?");
}

#[test]
fn test_search_messages() {
    let mut memory = MemoryManager::new_in_memory().unwrap();

    memory.add_message(MessageRole::User, "How do I implement a function?").unwrap();
    memory.add_message(MessageRole::Assistant, "You can implement a function like this...").unwrap();
    memory.add_message(MessageRole::User, "What about variables?").unwrap();

    let results = memory.search_messages("function", 10).unwrap();
    assert_eq!(results.len(), 2); // Should find both the user question and assistant response
}

#[test]
fn test_search_is_most_recent_first_and_capped() {
    let mut memory = MemoryManager::new_in_memory().unwrap();
    memory.add_message(MessageRole::User, "alpha one").unwrap();
    memory.add_message(MessageRole::User, "beta").unwrap();
    memory.add_message(MessageRole::User, "alpha two").unwrap();
    memory.add_message(MessageRole::User, "alpha three").unwrap();

    let results = memory.search_messages("alpha", 2).unwrap();
    assert_eq!(results.len(), 2);
    assert_eq!(results[0].content, "alpha three");
    assert_eq!(results[1].content, "alpha two");
}

#[test]
fn test_message_limit() {
    let mut memory = MemoryManager::new_in_memory().unwrap();

    for i in 0..10 {
        memory.add_message(MessageRole::User, &format!("Message {}", i)).unwrap();
    }

    let history = memory.get_recent_history(5).unwrap();
    assert_eq!(history.len(), 5);
    // Should get the 5 most recent messages (5-9)
    assert_eq!(history[0].content, "Message 5");
    assert_eq!(history[4].content, "Message 9");
}

#[test]
fn test_context_formatting() {
    let mut memory = MemoryManager::new_in_memory().unwrap();

    memory.add_message(MessageRole::User, "Hello").unwrap();
    memory.add_message(MessageRole::Assistant, "Hi there!").unwrap();

    let context = memory.format_context(5).unwrap();
    assert!(context.contains("user: Hello"));
    assert!(context.contains("assistant: Hi there!"));
}

#[test]
fn test_context_formatting_empty_log() {
    let memory = MemoryManager::new_in_memory().unwrap();
    let context = memory.format_context(5).unwrap();
    assert_eq!(context, "No previous conversation history.");
}

#[test]
fn test_ids_are_monotonic() {
    let mut memory = MemoryManager::new_in_memory().unwrap();
    let id1 = memory.add_message(MessageRole::User, "a").unwrap();
    let id2 = memory.add_message(MessageRole::System, "b").unwrap();
    assert_eq!(id1, 1);
    assert_eq!(id2, 2);
}

#[test]
fn test_stats_count_roles() {
    let mut memory = MemoryManager::new_in_memory().unwrap();
    memory.add_message(MessageRole::User, "a").unwrap();
    memory.add_message(MessageRole::Assistant, "b").unwrap();
    memory.add_message(MessageRole::Assistant, "c").unwrap();
    memory.add_message(MessageRole::System, "d").unwrap();
    let stats = memory.get_stats().unwrap();
    assert_eq!(stats.total_messages, 4);
    assert_eq!(stats.user_messages, 1);
    assert_eq!(stats.assistant_messages, 2);
    assert!(stats.first_message.is_some());
    assert!(stats.last_message.is_some());
}

#[test]
fn test_clear_history() {
    let mut memory = MemoryManager::new_in_memory().unwrap();
    memory.add_message(MessageRole::User, "a").unwrap();
    memory.clear_history().unwrap();
    assert_eq!(memory.message_count(), 0);
    let id = memory.add_message(MessageRole::User, "b").unwrap();
    assert_eq!(id, 1);
}

#[test]
fn test_time_range_query() {
    let mut memory = MemoryManager::new_in_memory().unwrap();
    memory.add_message(MessageRole::User, "a").unwrap();
    memory.add_message(MessageRole::User, "b").unwrap();
    let all = memory.get_history_by_time_range(0, i64::MAX).unwrap();
    assert_eq!(all.len(), 2);
    assert_eq!(all[0].content, "a");
    let none = memory.get_history_by_time_range(-10, -1).unwrap();
    assert!(none.is_empty());
}

#[test]
fn test_parse_role_round_trip() {
    assert!(matches!(MessageRole::parse_role("user"), Ok(MessageRole::User)));
    assert!(matches!(MessageRole::parse_role("ASSISTANT"), Ok(MessageRole::Assistant)));
    assert!(matches!(MessageRole::parse_role("System"), Ok(MessageRole::System)));
    let err = MessageRole::parse_role("robot");
    assert!(err.is_err());
    assert!(err.unwrap_err().contains("Invalid message role"));
    assert_eq!(MessageRole::User.role_name(), "user");
    assert_eq!(MessageRole::Assistant.role_name(), "assistant");
    assert_eq!(MessageRole::System.role_name(), "system");
}
