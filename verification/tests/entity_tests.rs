use bunshin::entities::{Agent, AgentModel, AgentState, BunshinSession, Window};

#[test]
fn test_session_creation() {
    let mut session = BunshinSession::new("test-session".to_string(), 0);
    assert_eq!(session.name, "test-session");
    assert!(session.id.starts_with("s-"));
    assert_eq!(session.windows.len(), 0);

    let window_id = session.add_window("main".to_string(), 0);
    assert_eq!(session.windows.len(), 1);
    assert!(window_id.starts_with("w-"));
}

#[test]
fn test_window_creation() {
    let mut window = Window::new("test-window".to_string(), "s-test".to_string(), 0);
    assert_eq!(window.name, "test-window");
    assert!(window.id.starts_with("w-"));

    let agent_id = window.add_agent("agent1".to_string(), AgentModel::AssistantCli, 0);
    assert_eq!(window.agents.len(), 1);
    assert!(agent_id.starts_with("a-"));
}

#[test]
fn test_agent_lifecycle() {
    let mut agent = Agent::new(
        "test-agent".to_string(),
        "w-test".to_string(),
        "s-test".to_string(),
        AgentModel::AssistantCli,
        0,
    );

    assert!(matches!(agent.state, AgentState::Stopped));
    assert!(agent.uptime(0).is_none());

    agent.start(7);
    assert!(matches!(agent.state, AgentState::Starting));
    assert!(agent.uptime(9).is_some());

    agent.set_running(12345, 8);
    assert!(matches!(agent.state, AgentState::Running));
    assert_eq!(agent.pid, Some(12345));

    agent.add_tokens(1000, 9);
    assert_eq!(agent.tokens_used, 1000);
    assert!(agent.estimated_cost > 0);
}

#[test]
fn test_agent_model_parsing() {
    assert!(matches!("assistant-cli".parse::<AgentModel>().unwrap(), AgentModel::AssistantCli));
    assert!(matches!("gpt-4o".parse::<AgentModel>().unwrap(), AgentModel::Gpt4o));
    assert!(matches!("custom-model".parse::<AgentModel>().unwrap(), AgentModel::Custom(_)));
}

#[test]
fn test_model_alias_and_names() {
    assert!(matches!("sonnet-35".parse::<AgentModel>().unwrap(), AgentModel::Sonnet35));
    assert_eq!(AgentModel::Haiku35.name_string(), "haiku-3.5");
    assert_eq!(AgentModel::Gpt4oMini.name_string(), "gpt-4o-mini");
    assert_eq!(
        AgentModel::Custom("my-model".to_string()).name_string(),
        "my-model"
    );
}

#[test]
fn test_token_accounting_is_additive() {
    let mut a = Agent::new(
        "acc".to_string(),
        "w".to_string(),
        "s".to_string(),
        AgentModel::Gpt4o,
        0,
    );
    let mut b = a.clone();
    a.add_tokens(300, 1);
    a.add_tokens(700, 2);
    b.add_tokens(700, 1);
    b.add_tokens(300, 2);
    assert_eq!(a.tokens_used, 1000);
    assert_eq!(b.tokens_used, 1000);
    // 1000 tokens at 15000 nanodollars per token
    assert_eq!(a.estimated_cost, 15_000_000);
    assert_eq!(b.estimated_cost, a.estimated_cost);
}

#[test]
fn test_stop_clears_process_fields() {
    let mut a = Agent::new(
        "halt".to_string(),
        "w".to_string(),
        "s".to_string(),
        AgentModel::Sonnet35,
        0,
    );
    a.start(5);
    a.set_running(42, 6);
    a.stop();
    assert!(matches!(a.state, AgentState::Stopped));
    assert_eq!(a.pid, None);
    assert_eq!(a.uptime_start, None);
}

#[test]
fn test_session_totals() {
    let mut session = BunshinSession::new("totals".to_string(), 0);
    session.add_window("one".to_string(), 0);
    session.add_window("two".to_string(), 0);
    session.windows[0].add_agent("a1".to_string(), AgentModel::Haiku35, 0);
    session.windows[1].add_agent("a2".to_string(), AgentModel::Haiku35, 0);
    session.windows[0].agents[0].add_tokens(4000, 1);
    session.windows[1].agents[0].add_tokens(6000, 1);
    assert_eq!(session.total_agents(), 2);
    assert_eq!(session.total_tokens(), 10000);
    // 10000 tokens at 250 nanodollars per token
    assert_eq!(session.total_cost(), 2_500_000);
}
