//! Deciding about git repositories from caller-probed facts: the shell-outs
//! themselves (running git, probing the filesystem) happen outside this
//! crate.

use vstd::prelude::*;
use vstd::string::StringExecFns;
use crate::ident::spec_contains_string;

verus! {

/// Operations around git worktrees.
pub struct GitWorktree;

impl GitWorktree {
    /// Whether `path` is a git repository: its `.git` entry is among the
    /// paths the caller found to exist on disk.
    pub fn is_git_repo(path: &str, existing: &Vec<String>) -> (r: bool)
        ensures
            r == spec_contains_string(existing@, path@ + "/.git"@),
    {
        let git_dir = path.to_owned().concat("/.git");
        crate::ident::contains_string(existing, git_dir.as_str())
    }

    /// Where provisioned worktrees live: `<home>/.bunshin/worktrees`.
    pub fn worktree_base_path(home: &str) -> (r: String)
        ensures
            r@ == home@ + "/.bunshin/worktrees"@,
    {
        home.to_owned().concat("/.bunshin/worktrees")
    }

    /// The branch name a worktree provisioned for `agent_id` uses:
    /// `agent-<id>-<stamp>`, where the caller renders the timestamp.
    pub fn agent_worktree_branch(agent_id: &str, stamp: &str) -> (r: String)
        ensures
            r@ == "agent-"@ + agent_id@ + "-"@ + stamp@,
    {
        String::from_str("agent-").concat(agent_id).concat("-").concat(stamp)
    }
}

} // verus!
