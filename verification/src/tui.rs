//! The plain data behind the terminal user interface: the overlay's state,
//! the screen the session browser is on, and the session-creation form.
//! Rendering and key handling live outside this crate and read these values.

use vstd::prelude::*;

verus! {

/// What the in-terminal overlay shows about the active session.
#[derive(Debug, Clone, PartialEq)]
pub struct OverlayState {
    pub session_name: String,
    pub worktree_path: String,
    pub branch_name: String,
    pub agent_count: usize,
    pub active: bool,
}

impl OverlayState {
    /// A fresh overlay for the given session: no agents counted yet, not
    /// active.
    pub fn new(session_name: String, worktree_path: String, branch_name: String) -> (s:
        OverlayState)
        ensures
            s == (OverlayState { session_name, worktree_path, branch_name, agent_count: 0, active: false }),
    {
        OverlayState { session_name, worktree_path, branch_name, agent_count: 0, active: false }
    }
}

/// Which screen the session browser is on.
#[derive(Debug, Clone, PartialEq)]
pub enum AppState {
    SessionList,
    CreateSession,
    SessionDetails,
}

/// The in-progress input of the session-creation dialog.
#[derive(Debug, Clone, PartialEq)]
pub struct CreateSessionForm {
    pub name: String,
    pub repo_path: String,
    pub branch: String,
    pub current_field: usize,
    pub available_branches: Vec<String>,
}

impl CreateSessionForm {
    /// An empty form with the first field selected.
    pub fn new() -> (f: CreateSessionForm)
        ensures
            f.name@ == Seq::<char>::empty(),
            f.repo_path@ == Seq::<char>::empty(),
            f.branch@ == Seq::<char>::empty(),
            f.current_field == 0,
            f.available_branches@ == Seq::<String>::empty(),
    {
        let f = CreateSessionForm {
            name: String::new(),
            repo_path: String::new(),
            branch: String::new(),
            current_field: 0,
            available_branches: Vec::new(),
        };
        proof {
            assert(f.available_branches@ =~= Seq::<String>::empty());
        }
        f
    }
}

} // verus!
