use bunshin::codec::{decode_json, encode_json, Json};
use bunshin::entities::{AgentModel, Project};
use bunshin::errors::OrchestratorError;
use bunshin::persist::{load_registry, load_store, save_registry, save_store};
use bunshin::store::{Session, SessionManager};
use bunshin::registry::BunshinManager;

#[test]
fn test_json_round_trip_scalars() {
    let doc = Json::Arr(vec![
        Json::Null,
        Json::Bool(true),
        Json::Bool(false),
        Json::Num { neg: false, mag: 18446744073709551615 },
        Json::Num { neg: true, mag: 1 },
        Json::Str("plain".to_string()),
    ]);
    let text = encode_json(&doc);
    assert_eq!(
        text,
        "[null,true,false,18446744073709551615,-1,\"plain\"]"
    );
    let back = decode_json(&text).unwrap();
    assert_eq!(back, doc);
}

#[test]
fn test_json_round_trip_escapes() {
    let doc = Json::Str("a\"b\\c\nd\te".to_string());
    let text = encode_json(&doc);
    assert_eq!(text, "\"a\\\"b\\\\c\\u000ad\\u0009e\"");
    let back = decode_json(&text).unwrap();
    assert_eq!(back, doc);
}

#[test]
fn test_json_rejects_trailing_garbage() {
    assert!(decode_json("nullx").is_none());
    assert!(decode_json("").is_none());
    assert!(decode_json("{").is_none());
    assert!(decode_json("-0").is_none());
}

#[test]
fn test_registry_round_trip() {
    // serializing a populated registry and loading it back reproduces every
    // field, nested collections included
    let mut m = BunshinManager::new();
    m.create_session("demo".to_string(), "/tmp".to_string(), 11);
    m.spawn_agents_in_current_window(
        2,
        AgentModel::Custom("cmd:echo hi".to_string()),
        Some("proj".to_string()),
        vec!["l1".to_string(), "l2".to_string()],
        Some("task".to_string()),
        vec!["tool".to_string()],
        12,
    )
    .unwrap();
    let aid = m.sessions[0].windows[0].agents[0].id.clone();
    let (i, j, k) = m.find_agent_loc(&aid).unwrap();
    m.sessions[i].windows[j].agents[k].set_running(555, 13);
    m.sessions[i].windows[j].agents[k].add_tokens(1234, 14);
    m.create_project(Project::new(
        "proj".to_string(),
        Some("a project".to_string()),
        Some("https://example.invalid/repo".to_string()),
        vec!["tag".to_string()],
        15,
    ))
    .unwrap();

    let text = save_registry(&m);
    let loaded = load_registry(Some(text.as_str())).unwrap();
    assert_eq!(loaded.sessions, m.sessions);
    assert_eq!(loaded.projects, m.projects);
    // the transient context is not persisted
    assert_eq!(loaded.current_session_id, None);
    assert_eq!(loaded.current_window_id, None);
}

#[test]
fn test_load_absent_state_yields_empty_registry() {
    // an absent persistence file is not an error: the registry starts empty
    let m = load_registry(None).unwrap();
    assert_eq!(m.sessions.len(), 0);
    assert_eq!(m.projects.len(), 0);
    let text = save_registry(&m);
    assert_eq!(text, "{\"sessions\":{},\"projects\":{}}");
}

#[test]
fn test_load_rejects_corrupt_state() {
    assert!(matches!(
        load_registry(Some("{\"sessions\":{}")),
        Err(OrchestratorError::IoError(_))
    ));
    assert!(matches!(
        load_registry(Some("[1,2,3]")),
        Err(OrchestratorError::IoError(_))
    ));
    assert!(matches!(
        load_registry(Some("{\"sessions\":{},\"projects\":3}")),
        Err(OrchestratorError::IoError(_))
    ));
}

#[test]
fn test_error_messages_carry_context() {
    let e = OrchestratorError::NotFound("a-1".to_string());
    assert_eq!(e.message(), "not found: a-1");
    let e = OrchestratorError::NoMatch("labels".to_string());
    assert_eq!(e.message(), "no match: labels");
}

#[test]
fn test_load_rejects_duplicate_identifiers() {
    // a hand-crafted state file that repeats a session is rejected loudly
    let mut m = BunshinManager::new();
    m.create_session("dup".to_string(), "/tmp".to_string(), 0);
    let copy = m.sessions[0].clone();
    m.sessions.push(copy);
    let text = save_registry(&m);
    assert!(matches!(
        load_registry(Some(text.as_str())),
        Err(OrchestratorError::IoError(_))
    ));
}

#[test]
fn test_session_store_round_trip() {
    let mut m = SessionManager::new();
    let mut s = Session::new(
        "one".to_string(),
        "/tmp/wt".to_string(),
        "main".to_string(),
        "/tmp/repo".to_string(),
        33,
    );
    s.assistant_pid = Some(4242);
    m.add_session(s);
    let text = save_store(&m);
    let back = load_store(Some(text.as_str())).unwrap();
    assert_eq!(back, m);
    // an absent file yields an empty collection, and corrupt text is refused
    assert_eq!(load_store(None).unwrap().sessions.len(), 0);
    assert!(load_store(Some("[7]")).is_err());
}
