use bunshin::entities::{AgentModel, AgentState, Project};
use bunshin::errors::OrchestratorError;
use bunshin::registry::BunshinManager;

#[test]
fn test_spawn_and_kill_agent_lifecycle() {
    // create session "demo", a window named "main" comes with it
    let mut m = BunshinManager::new();
    let sid = m.create_session("demo".to_string(), "/tmp".to_string(), 0);
    let wid = m.sessions[0].windows[0].id.clone();
    let aid = m
        .spawn_agent(&sid, &wid, "agent-1".to_string(), AgentModel::AssistantCli, 0)
        .unwrap();

    // before any process is spawned the agent is stopped
    let (fsid, fwid, agent) = m.find_agent(&aid).unwrap();
    assert_eq!(fsid, sid.as_str());
    assert_eq!(fwid, wid.as_str());
    assert!(matches!(agent.state, AgentState::Stopped));
    assert_eq!(agent.pid, None);

    // the supervisor reports the process is up
    let (i, j, k) = m.find_agent_loc(&aid).unwrap();
    m.sessions[i].windows[j].agents[k].set_running(4242, 1);
    let (_, _, agent) = m.find_agent(&aid).unwrap();
    assert!(matches!(agent.state, AgentState::Running));
    assert_eq!(agent.pid, Some(4242));

    // killing stops the agent and hands back the recorded pid
    let pid = m.kill_agent(&aid).unwrap();
    assert_eq!(pid, Some(4242));
    let (_, _, agent) = m.find_agent(&aid).unwrap();
    assert!(matches!(agent.state, AgentState::Stopped));
    assert_eq!(agent.pid, None);
}

#[test]
fn test_kill_agent_twice_is_safe() {
    let mut m = BunshinManager::new();
    let sid = m.create_session("twice".to_string(), "/tmp".to_string(), 0);
    let wid = m.sessions[0].windows[0].id.clone();
    let aid = m
        .spawn_agent(&sid, &wid, "a".to_string(), AgentModel::AssistantCli, 0)
        .unwrap();
    let (i, j, k) = m.find_agent_loc(&aid).unwrap();
    m.sessions[i].windows[j].agents[k].set_running(77, 1);

    assert_eq!(m.kill_agent(&aid).unwrap(), Some(77));
    // the second call finds no process, does not error, leaves it stopped
    assert_eq!(m.kill_agent(&aid).unwrap(), None);
    let (_, _, agent) = m.find_agent(&aid).unwrap();
    assert!(matches!(agent.state, AgentState::Stopped));
}

#[test]
fn test_kill_absent_agent_errors() {
    let mut m = BunshinManager::new();
    assert!(matches!(
        m.kill_agent("a-none"),
        Err(OrchestratorError::NotFound(_))
    ));
}

#[test]
fn test_generated_ids_are_unique() {
    let mut m = BunshinManager::new();
    let sid = m.create_session("uniq".to_string(), "/tmp".to_string(), 0);
    let wid = m.sessions[0].windows[0].id.clone();
    let mut ids: Vec<String> = Vec::new();
    for n in 0..16 {
        let aid = m
            .spawn_agent(&sid, &wid, format!("agent-{}", n + 1), AgentModel::AssistantCli, 0)
            .unwrap();
        ids.push(aid);
    }
    for x in 0..ids.len() {
        for y in 0..ids.len() {
            if x != y {
                assert_ne!(ids[x], ids[y]);
            }
        }
    }
}

#[test]
fn test_spawn_agents_in_current_window_bulk() {
    let mut m = BunshinManager::new();
    // no current session: one named "default" is provisioned on demand
    let ids = m
        .spawn_agents_in_current_window(
            3,
            AgentModel::Sonnet35,
            Some("proj".to_string()),
            vec!["urgent".to_string()],
            Some("do things".to_string()),
            vec!["editor".to_string()],
            0,
        )
        .unwrap();
    assert_eq!(ids.len(), 3);
    assert_eq!(m.sessions.len(), 1);
    assert_eq!(m.sessions[0].name, "default");
    for aid in &ids {
        let (_, _, agent) = m.find_agent(aid).unwrap();
        assert!(matches!(agent.state, AgentState::Stopped));
        assert_eq!(agent.project.as_deref(), Some("proj"));
        assert_eq!(agent.labels, vec!["urgent".to_string()]);
        assert_eq!(agent.task_description.as_deref(), Some("do things"));
        assert_eq!(agent.tools, vec!["editor".to_string()]);
    }
}

#[test]
fn test_project_crud() {
    let mut m = BunshinManager::new();
    let p = Project::new("x".to_string(), None, None, Vec::new(), 0);
    m.create_project(p).unwrap();
    // duplicate names are rejected
    let p2 = Project::new("x".to_string(), None, None, Vec::new(), 0);
    assert!(matches!(
        m.create_project(p2),
        Err(OrchestratorError::AlreadyExists(_))
    ));
    assert!(m.get_project("x").is_some());
    assert!(m.get_project("y").is_none());
    m.delete_project("x").unwrap();
    assert!(matches!(
        m.delete_project("x"),
        Err(OrchestratorError::NotFound(_))
    ));
}

#[test]
fn test_update_project_labels_no_duplicates() {
    let mut m = BunshinManager::new();
    let p = Project::new("x".to_string(), None, None, Vec::new(), 0);
    m.create_project(p).unwrap();
    m.update_project(
        "x",
        None,
        None,
        vec!["a".to_string(), "b".to_string()],
        Vec::new(),
    )
    .unwrap();
    m.update_project("x", None, None, vec!["a".to_string()], Vec::new())
        .unwrap();
    let proj = m.get_project("x").unwrap();
    assert_eq!(proj.labels, vec!["a".to_string(), "b".to_string()]);

    // removing is a set difference
    m.update_project("x", None, None, Vec::new(), vec!["a".to_string()])
        .unwrap();
    let proj = m.get_project("x").unwrap();
    assert_eq!(proj.labels, vec!["b".to_string()]);
}

#[test]
fn test_broadcast_to_labels_no_match_is_error() {
    let mut m = BunshinManager::new();
    let r = m.broadcast_to_labels(&vec!["urgent".to_string()], "msg", 0);
    assert!(matches!(r, Err(OrchestratorError::NoMatch(_))));
}

#[test]
fn test_broadcast_to_labels_matches() {
    let mut m = BunshinManager::new();
    let ids = m
        .spawn_agents_in_current_window(
            2,
            AgentModel::AssistantCli,
            None,
            vec!["urgent".to_string()],
            None,
            Vec::new(),
            0,
        )
        .unwrap();
    let hit = m
        .broadcast_to_labels(&vec!["urgent".to_string()], "msg", 9)
        .unwrap();
    assert_eq!(hit, ids);
    let (_, _, agent) = m.find_agent(&ids[0]).unwrap();
    assert_eq!(agent.last_activity, 9);
}

#[test]
fn test_broadcast_to_project_filters_by_name() {
    let mut m = BunshinManager::new();
    let tagged = m
        .spawn_agents_in_current_window(
            1,
            AgentModel::AssistantCli,
            Some("alpha".to_string()),
            Vec::new(),
            None,
            Vec::new(),
            0,
        )
        .unwrap();
    m.spawn_agents_in_current_window(
        1,
        AgentModel::AssistantCli,
        Some("beta".to_string()),
        Vec::new(),
        None,
        Vec::new(),
        0,
    )
    .unwrap();
    let hit = m.broadcast_to_project("alpha", "msg", 3).unwrap();
    assert_eq!(hit, tagged);
    assert!(matches!(
        m.broadcast_to_project("gamma", "msg", 3),
        Err(OrchestratorError::NoMatch(_))
    ));
}

#[test]
fn test_remove_session_clears_context() {
    let mut m = BunshinManager::new();
    let sid = m.create_session("gone".to_string(), "/tmp".to_string(), 0);
    assert_eq!(m.current_session_id.as_deref(), Some(sid.as_str()));
    let removed = m.remove_session(&sid).unwrap();
    assert_eq!(removed.id, sid);
    assert_eq!(m.current_session_id, None);
    assert_eq!(m.current_window_id, None);
    assert!(m.remove_session(&sid).is_none());
}

#[test]
fn test_create_window_requires_session() {
    let mut m = BunshinManager::new();
    assert!(matches!(
        m.create_window("s-none", "w".to_string(), 0),
        Err(OrchestratorError::NotFound(_))
    ));
    let sid = m.create_session("here".to_string(), "/tmp".to_string(), 0);
    let wid = m.create_window(&sid, "second".to_string(), 0).unwrap();
    assert!(wid.starts_with("w-"));
    assert_eq!(m.sessions[0].windows.len(), 2);
}

#[test]
fn test_session_ids_are_prefixed() {
    let mut m = BunshinManager::new();
    let sid = m.create_session("p".to_string(), "/tmp".to_string(), 0);
    assert!(sid.starts_with("s-"));
    assert!(sid.len() >= 10);
}

#[test]
fn test_spawn_agents_requires_a_live_context() {
    let mut m = BunshinManager::new();
    let sid = m.create_session("ctx".to_string(), "/tmp".to_string(), 0);
    m.remove_session(&sid);
    // the context was cleared with the session, so a fresh default appears
    let ids = m
        .spawn_agents_in_current_window(
            1,
            AgentModel::AssistantCli,
            None,
            Vec::new(),
            None,
            Vec::new(),
            0,
        )
        .unwrap();
    assert_eq!(ids.len(), 1);

    // a stale context, on the other hand, is a hard error
    let mut m2 = BunshinManager::new();
    let sid2 = m2.create_session("stale".to_string(), "/tmp".to_string(), 0);
    let wid2 = m2.current_window_id.clone();
    m2.remove_session(&sid2);
    m2.set_current_context(Some(sid2.clone()), wid2);
    let before = m2.clone();
    let r = m2.spawn_agents_in_current_window(
        1,
        AgentModel::AssistantCli,
        None,
        Vec::new(),
        None,
        Vec::new(),
        0,
    );
    assert!(matches!(r, Err(OrchestratorError::NotFound(_))));
    assert_eq!(m2, before);
}

#[test]
fn test_get_agent_addresses_exactly() {
    let mut m = BunshinManager::new();
    let sid = m.create_session("addr".to_string(), "/tmp".to_string(), 0);
    let wid = m.sessions[0].windows[0].id.clone();
    let aid = m
        .spawn_agent(&sid, &wid, "a".to_string(), AgentModel::AssistantCli, 0)
        .unwrap();
    assert!(m.get_agent(&sid, &wid, &aid).is_some());
    assert!(m.get_agent(&sid, &wid, "a-none").is_none());
    assert!(m.get_agent(&sid, "w-none", &aid).is_none());
    assert!(m.get_agent("s-none", &wid, &aid).is_none());
}

#[test]
fn test_record_worktree_sets_artifacts_path() {
    let mut m = BunshinManager::new();
    let ids = m
        .spawn_agents_in_current_window(
            1,
            AgentModel::AssistantCli,
            None,
            Vec::new(),
            None,
            Vec::new(),
            0,
        )
        .unwrap();
    m.record_worktree(&ids[0], "/worktrees/x".to_string()).unwrap();
    let (_, _, agent) = m.find_agent(&ids[0]).unwrap();
    assert_eq!(agent.artifacts_path.as_deref(), Some("/worktrees/x"));
    assert!(matches!(
        m.record_worktree("a-none", "/p".to_string()),
        Err(OrchestratorError::NotFound(_))
    ));
}

#[test]
fn test_check_wf_accepts_built_registries() {
    let mut m = BunshinManager::new();
    assert!(m.check_wf());
    m.create_session("one".to_string(), "/tmp".to_string(), 0);
    m.spawn_agents_in_current_window(
        2,
        AgentModel::AssistantCli,
        None,
        Vec::new(),
        None,
        Vec::new(),
        0,
    )
    .unwrap();
    assert!(m.check_wf());
    // a hand-corrupted registry is detected
    let dup = m.sessions[0].clone();
    m.sessions.push(dup);
    assert!(!m.check_wf());
}
