use bunshin::assistant::AssistantCliManager;
use bunshin::store::{Session, SessionManager};
use bunshin::tui::{CreateSessionForm, OverlayState};

#[test]
fn test_session_manager_operations() {
    let mut manager = SessionManager::new();

    let session1 = Session::new(
        "session1".to_string(),
        "/tmp/session1".to_string(),
        "main".to_string(),
        "/tmp/repo".to_string(),
        0,
    );

    let session2 = Session::new(
        "session2".to_string(),
        "/tmp/session2".to_string(),
        "develop".to_string(),
        "/tmp/repo".to_string(),
        0,
    );

    // Add sessions
    manager.add_session(session1);
    manager.add_session(session2);
    assert_eq!(manager.sessions.len(), 2);

    // Get session
    let session = manager.get_session("session1");
    assert!(session.is_some());
    assert_eq!(session.unwrap().name, "session1");

    // Get non-existent session
    assert!(manager.get_session("nonexistent").is_none());

    // Remove session
    manager.remove_session("session1");
    assert_eq!(manager.sessions.len(), 1);
    assert!(manager.get_session("session1").is_none());
    assert!(manager.get_session("session2").is_some());
}

#[test]
fn test_session_activity_flag() {
    let mut s = Session::new(
        "s".to_string(),
        "/tmp/wt".to_string(),
        "main".to_string(),
        "/tmp/repo".to_string(),
        0,
    );
    assert!(!s.is_active());
    s.assistant_pid = Some(31337);
    assert!(s.is_active());
}

#[test]
fn test_overlay_state_creation() {
    let state = OverlayState::new(
        "test-session".to_string(),
        "/tmp/worktree".to_string(),
        "main".to_string(),
    );
    assert_eq!(state.session_name, "test-session");
    assert_eq!(state.branch_name, "main");
    assert_eq!(state.agent_count, 0);
}

#[test]
fn test_create_session_form_starts_empty() {
    let f = CreateSessionForm::new();
    assert_eq!(f.name, "");
    assert_eq!(f.current_field, 0);
    assert!(f.available_branches.is_empty());
}

#[test]
fn test_find_assistant_binary_preference_order() {
    // a search-path hit wins over every other location
    let existing = vec![
        "/usr/local/bin/assistant".to_string(),
        "/somewhere/assistant".to_string(),
    ];
    let hit = AssistantCliManager::find_assistant_binary_public(
        &Some("/somewhere/assistant".to_string()),
        &Some("/home/u".to_string()),
        &existing,
    );
    assert_eq!(hit.as_deref(), Some("/somewhere/assistant"));

    // without a path hit the package-manager locations come first
    let hit = AssistantCliManager::find_assistant_binary_public(&None, &None, &existing);
    assert_eq!(hit.as_deref(), Some("/usr/local/bin/assistant"));

    // the per-user locations are derived from the home directory
    let existing = vec!["/home/u/.assistant/local/assistant".to_string()];
    let hit = AssistantCliManager::find_assistant_binary_public(
        &None,
        &Some("/home/u".to_string()),
        &existing,
    );
    assert_eq!(hit.as_deref(), Some("/home/u/.assistant/local/assistant"));

    assert!(!AssistantCliManager::is_available(&None, &None, &Vec::new()));
    assert!(AssistantCliManager::is_available(
        &None,
        &Some("/home/u".to_string()),
        &vec!["/home/u/.local/bin/assistant".to_string()]
    ));
}
