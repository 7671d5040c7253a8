use bunshin::entities::{Agent, AgentModel, AgentState};
use bunshin::errors::OrchestratorError;
use bunshin::supervisor::{split_whitespace_tokens, tail_lines, ProcessConfig, ProcessManager};

fn demo_agent(model: AgentModel) -> Agent {
    Agent::new(
        "demo".to_string(),
        "w-1".to_string(),
        "s-1".to_string(),
        model,
        0,
    )
}

#[test]
fn test_build_command_assistant_available() {
    let a = demo_agent(AgentModel::AssistantCli);
    let cmd = ProcessManager::build_agent_command(&a, true).unwrap();
    assert_eq!(cmd, vec!["assistant".to_string()]);
}

#[test]
fn test_build_command_wrapper_module() {
    let a = demo_agent(AgentModel::Gpt4oMini);
    let cmd = ProcessManager::build_agent_command(&a, true).unwrap();
    assert_eq!(
        cmd,
        vec![
            "python3".to_string(),
            "-m".to_string(),
            "bunshin_agent".to_string(),
            "--model".to_string(),
            "gpt-4o-mini".to_string()
        ]
    );
}

#[test]
fn test_build_command_custom_literal() {
    let a = demo_agent(AgentModel::Custom("cmd:python3  my_script.py --fast".to_string()));
    let cmd = ProcessManager::build_agent_command(&a, false).unwrap();
    assert_eq!(
        cmd,
        vec![
            "python3".to_string(),
            "my_script.py".to_string(),
            "--fast".to_string()
        ]
    );
}

#[test]
fn test_build_command_empty_custom_fails() {
    // a custom model of bare "cmd:" is rejected before any process exists
    let a = demo_agent(AgentModel::Custom("cmd:".to_string()));
    let r = ProcessManager::build_agent_command(&a, true);
    assert!(matches!(r, Err(OrchestratorError::SpawnError(_))));
    let a = demo_agent(AgentModel::Custom("cmd:   ".to_string()));
    assert!(matches!(
        ProcessManager::build_agent_command(&a, true),
        Err(OrchestratorError::SpawnError(_))
    ));
}

#[test]
fn test_split_whitespace_tokens() {
    assert_eq!(
        split_whitespace_tokens(" a  bb\tccc\n"),
        vec!["a".to_string(), "bb".to_string(), "ccc".to_string()]
    );
    assert_eq!(split_whitespace_tokens(""), Vec::<String>::new());
}

#[test]
fn test_send_input_and_read_output_order() {
    let mut pm = ProcessManager::new("/tmp/logs".to_string());
    let cfg = ProcessConfig::new("/tmp".to_string());
    pm.register_process("a-1".to_string(), 99, cfg, "/tmp/logs/a-1.log".to_string(), 0);

    pm.send_input("a-1", "first").unwrap();
    pm.send_input("a-1", "second").unwrap();
    assert_eq!(
        pm.drain_stdin("a-1"),
        vec!["first".to_string(), "second".to_string()]
    );
    assert_eq!(pm.drain_stdin("a-1"), Vec::<String>::new());

    assert!(pm.push_output("a-1", "out1".to_string()));
    assert!(pm.push_output("a-1", "out2".to_string()));
    assert!(pm.push_output("a-1", "out3".to_string()));
    // reads drain oldest lines first and keep the order of the rest
    assert_eq!(
        pm.read_output("a-1", Some(2)).unwrap(),
        vec!["out1".to_string(), "out2".to_string()]
    );
    assert_eq!(
        pm.read_output("a-1", None).unwrap(),
        vec!["out3".to_string()]
    );
    assert!(pm.read_errors("a-1", None).unwrap().is_empty());
    assert!(matches!(
        pm.read_output("a-none", None),
        Err(OrchestratorError::NotFound(_))
    ));
}

#[test]
fn test_send_input_channel_closed() {
    let mut pm = ProcessManager::new("/tmp/logs".to_string());
    let cfg = ProcessConfig::new("/tmp".to_string());
    pm.register_process("a-1".to_string(), 99, cfg, "log".to_string(), 0);
    pm.close_stdin("a-1");
    assert!(matches!(
        pm.send_input("a-1", "late"),
        Err(OrchestratorError::ChannelClosed)
    ));
    assert!(matches!(
        pm.send_input("a-2", "x"),
        Err(OrchestratorError::NotFound(_))
    ));
}

#[test]
fn test_kill_agent_removes_entry_and_is_idempotent() {
    let mut pm = ProcessManager::new("/tmp/logs".to_string());
    let cfg = ProcessConfig::new("/tmp".to_string());
    let mut agent = demo_agent(AgentModel::AssistantCli);
    agent.set_running(1234, 1);
    pm.register_process(agent.id.clone(), 1234, cfg, "log".to_string(), 0);
    assert_eq!(pm.pid_of(agent.id.as_str()), Some(1234));

    let aid = agent.id.clone();
    pm.kill_agent(aid.as_str(), &mut agent, true, String::new(), 2)
        .unwrap();
    assert!(matches!(agent.state, AgentState::Stopped));
    assert_eq!(agent.pid, None);
    assert!(!pm.has_process(agent.id.as_str()));

    // killing again finds no process and still succeeds
    pm.kill_agent(aid.as_str(), &mut agent, true, String::new(), 3)
        .unwrap();
    assert!(matches!(agent.state, AgentState::Stopped));
}

#[test]
fn test_kill_agent_wait_failure_marks_error() {
    let mut pm = ProcessManager::new("/tmp/logs".to_string());
    let cfg = ProcessConfig::new("/tmp".to_string());
    let mut agent = demo_agent(AgentModel::AssistantCli);
    pm.register_process(agent.id.clone(), 7, cfg, "log".to_string(), 0);
    let aid = agent.id.clone();
    let r = pm.kill_agent(aid.as_str(), &mut agent, false, "wait failed".to_string(), 5);
    assert!(matches!(r, Err(OrchestratorError::ProcessError(_))));
    assert!(matches!(agent.state, AgentState::Error(_)));
}

#[test]
fn test_cleanup_dead_is_a_fixed_point() {
    let mut pm = ProcessManager::new("/tmp/logs".to_string());
    for (id, pid) in [("a-1", 1), ("a-2", 2), ("a-3", 3)] {
        let cfg = ProcessConfig::new("/tmp".to_string());
        pm.register_process(id.to_string(), pid, cfg, "log".to_string(), 0);
    }
    let exited = vec!["a-1".to_string(), "a-3".to_string()];
    let dead = pm.cleanup_dead_processes(&exited);
    assert_eq!(dead, vec!["a-1".to_string(), "a-3".to_string()]);
    assert_eq!(pm.list_running_processes(), vec!["a-2".to_string()]);

    // running it again right away reports nothing and changes nothing
    let dead_again = pm.cleanup_dead_processes(&exited);
    assert_eq!(dead_again, Vec::<String>::new());
    assert_eq!(pm.list_running_processes(), vec!["a-2".to_string()]);
}

#[test]
fn test_register_replaces_stale_entry() {
    let mut pm = ProcessManager::new("/tmp/logs".to_string());
    let cfg = ProcessConfig::new("/tmp".to_string());
    pm.register_process("a-1".to_string(), 10, cfg, "log".to_string(), 0);
    let cfg2 = ProcessConfig::new("/elsewhere".to_string());
    pm.register_process("a-1".to_string(), 20, cfg2, "log2".to_string(), 1);
    assert_eq!(pm.list_running_processes(), vec!["a-1".to_string()]);
    assert_eq!(pm.pid_of("a-1"), Some(20));
}

#[test]
fn test_process_stats_and_log_paths() {
    let mut pm = ProcessManager::new("/var/log/agents".to_string());
    let cfg = ProcessConfig::new("/tmp".to_string());
    let log = pm.resolve_log_file("a-9", &cfg);
    assert_eq!(log, "/var/log/agents/a-9.log");
    pm.register_process("a-9".to_string(), 9, cfg, log.clone(), 100);
    let st = pm.get_process_stats("a-9", 160).unwrap();
    assert_eq!(st.pid, 9);
    assert_eq!(st.uptime_seconds, 60);
    assert_eq!(pm.log_file_of("a-9").as_deref(), Some(log.as_str()));
}

#[test]
fn test_agent_env_and_working_directory() {
    let mut a = demo_agent(AgentModel::AssistantCli);
    let cfg = ProcessConfig::new("/fallback".to_string());
    assert_eq!(ProcessManager::resolve_working_directory(&a, &cfg), "/fallback");
    a.artifacts_path = Some("/worktrees/a".to_string());
    assert_eq!(
        ProcessManager::resolve_working_directory(&a, &cfg),
        "/worktrees/a"
    );
    a.project = Some("proj".to_string());
    let env = ProcessManager::build_agent_env(&a, &cfg);
    assert_eq!(env[0].0, "BUNSHIN_AGENT_ID");
    assert_eq!(env[0].1, a.id);
    assert_eq!(env[4], ("BUNSHIN_MODEL".to_string(), "assistant-cli".to_string()));
    assert_eq!(env[5], ("BUNSHIN_PROJECT".to_string(), "proj".to_string()));
    assert_eq!(env.len(), 6);
}

#[test]
fn test_broadcast_message_reports_successes() {
    let mut pm = ProcessManager::new("/tmp/logs".to_string());
    for id in ["a-1", "a-2", "a-3"] {
        let cfg = ProcessConfig::new("/tmp".to_string());
        pm.register_process(id.to_string(), 1, cfg, "log".to_string(), 0);
    }
    pm.close_stdin("a-2");
    let targets = vec![
        "a-1".to_string(),
        "a-2".to_string(),
        "a-none".to_string(),
        "a-3".to_string(),
        "a-1".to_string(),
    ];
    let ok = pm.broadcast_message(&targets, "hello").unwrap();
    assert_eq!(
        ok,
        vec!["a-1".to_string(), "a-3".to_string(), "a-1".to_string()]
    );
    assert_eq!(
        pm.drain_stdin("a-1"),
        vec!["hello".to_string(), "hello".to_string()]
    );
    assert_eq!(pm.drain_stdin("a-2"), Vec::<String>::new());
    assert_eq!(pm.drain_stdin("a-3"), vec!["hello".to_string()]);
}

#[test]
fn test_split_handles_unicode_whitespace() {
    // words separated by a no-break space or an em space split apart too
    assert_eq!(
        split_whitespace_tokens("a\u{00A0}b\u{2003}c"),
        vec!["a".to_string(), "b".to_string(), "c".to_string()]
    );
}

#[test]
fn test_is_running_and_config_capture() {
    let mut pm = ProcessManager::new("/tmp/logs".to_string());
    let cfg = ProcessConfig::new("/somewhere".to_string());
    pm.register_process("a-1".to_string(), 5, cfg, "log".to_string(), 0);
    assert!(pm.is_running("a-1", true));
    assert!(!pm.is_running("a-1", false));
    assert!(!pm.is_running("a-2", true));
    let captured = pm.config_of("a-1").unwrap();
    assert_eq!(captured.working_directory, "/somewhere");
    assert_eq!(captured.timeout_seconds, Some(3600));
    assert!(pm.config_of("a-2").is_none());
}

#[test]
fn test_tail_lines_keeps_the_last() {
    let lines: Vec<String> = (1..=5).map(|n| format!("line {}", n)).collect();
    assert_eq!(
        tail_lines(&lines, 2),
        vec!["line 4".to_string(), "line 5".to_string()]
    );
    assert_eq!(tail_lines(&lines, 9), lines);
    assert_eq!(tail_lines(&lines, 0), Vec::<String>::new());
}
