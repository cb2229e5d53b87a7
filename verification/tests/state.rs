use frona_server::state::ActiveSessions;

#[test]
fn test_register_and_count() {
    let mut sessions = ActiveSessions::new();
    sessions.register("chat-1", 1u32);
    sessions.register("chat-2", 2u32);
    assert_eq!(sessions.count(), 2);
}

#[test]
fn test_remove_decrements_count() {
    let mut sessions = ActiveSessions::new();
    sessions.register("chat-1", 1u32);
    sessions.register("chat-2", 2u32);
    sessions.remove("chat-1");
    assert_eq!(sessions.count(), 1);
}

#[test]
fn test_register_cancels_previous() {
    let mut sessions = ActiveSessions::new();
    assert_eq!(sessions.register("chat-1", 1u32), None);
    // The first session is handed back to be cancelled.
    assert_eq!(sessions.register("chat-1", 2u32), Some(1));
    assert_eq!(sessions.count(), 1);
    assert_eq!(sessions.cancel("chat-1"), Some(&2));
}

#[test]
fn test_cancel_returns_true_for_existing() {
    let mut sessions = ActiveSessions::new();
    sessions.register("chat-1", 1u32);
    assert!(sessions.cancel("chat-1").is_some());
}

#[test]
fn test_cancel_returns_false_for_missing() {
    let sessions: ActiveSessions<u32> = ActiveSessions::new();
    assert!(sessions.cancel("nonexistent").is_none());
}

#[test]
fn removing_a_chat_without_a_session_changes_nothing() {
    let mut sessions = ActiveSessions::new();
    sessions.register("chat-1", 1u32);
    sessions.remove("chat-9");
    assert_eq!(sessions.count(), 1);
    assert_eq!(sessions.cancel("chat-1"), Some(&1));
}
