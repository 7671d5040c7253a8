//! A detachable terminal session and the paths its socket and log live at;
//! launching the multiplexer itself happens outside this crate.

use vstd::prelude::*;
use vstd::string::StringExecFns;
use crate::tui::OverlayState;

verus! {

/// One detachable session: its worktree, its multiplexer socket and its log
/// file, plus the overlay shown over it.
#[derive(Debug, Clone, PartialEq)]
pub struct AbducoSession {
    pub session_name: String,
    pub worktree_path: String,
    pub branch_name: String,
    pub socket_path: String,
    pub log_path: String,
    pub overlay_state: OverlayState,
}

impl AbducoSession {
    /// A session rooted under `base_dir`: its socket at
    /// `<base>/sessions/<name>.sock` and its log at `<base>/logs/<name>.log`.
    pub fn new(
        session_name: String,
        worktree_path: String,
        branch_name: String,
        base_dir: String,
    ) -> (s: AbducoSession)
        ensures
            s.session_name == session_name,
            s.worktree_path == worktree_path,
            s.branch_name == branch_name,
            s.socket_path@ == base_dir@ + "/sessions/"@ + session_name@ + ".sock"@,
            s.log_path@ == base_dir@ + "/logs/"@ + session_name@ + ".log"@,
            s.overlay_state.session_name == session_name,
            s.overlay_state.worktree_path == worktree_path,
            s.overlay_state.branch_name == branch_name,
            s.overlay_state.agent_count == 0,
            !s.overlay_state.active,
    {
        let socket_path = base_dir.clone().concat("/sessions/").concat(
            session_name.as_str(),
        ).concat(".sock");
        let log_path = base_dir.concat("/logs/").concat(session_name.as_str()).concat(".log");
        let overlay_state = OverlayState::new(
            session_name.clone(),
            worktree_path.clone(),
            branch_name.clone(),
        );
        AbducoSession {
            session_name,
            worktree_path,
            branch_name,
            socket_path,
            log_path,
            overlay_state,
        }
    }
}

} // verus!
