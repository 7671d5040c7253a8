//! The command-line surface as plain data: what each subcommand carries once
//! arguments are parsed. The argument parser itself lives outside this crate
//! and converts into these values.

use vstd::prelude::*;

verus! {

/// A parsed invocation.
#[derive(Debug, Clone, PartialEq)]
pub struct Cli {
    pub command: Option<Commands>,
}

/// One subcommand with its arguments.
#[derive(Debug, Clone, PartialEq)]
pub enum Commands {
    Ls { all: bool, project: Option<String>, format: String },
    Ps { session: Option<String>, all: bool, format: String },
    Spawn {
        model: String,
        count: u32,
        project: Option<String>,
        labels: Vec<String>,
        window: Option<String>,
        task: Option<String>,
        tools: Vec<String>,
    },
    Clone { agent_id: String, count: u32, project: Option<String> },
    Attach { target: String },
    Shell { agent_id: String },
    Worktree { agent_id: String },
    Kill { targets: Vec<String>, all: bool, force: bool },
    Broadcast {
        scope: Option<String>,
        project: Option<String>,
        window: Option<String>,
        labels: Vec<String>,
        message: String,
    },
    New { entity: NewEntity },
    Info { target: String },
    Project { action: ProjectAction },
    Logs { agent_id: String, lines: u32, follow: bool },
    Export { session_id: String, output: Option<String>, format: String },
    Import { input: String, merge: bool },
}

/// What `new` creates.
#[derive(Debug, Clone, PartialEq)]
pub enum NewEntity {
    Session { name: String, repo: Option<String>, branch: Option<String>, project: Option<String> },
    Window { name: String, session: Option<String> },
}

/// One project subcommand.
#[derive(Debug, Clone, PartialEq)]
pub enum ProjectAction {
    Create { name: String, description: Option<String>, repository: Option<String> },
    List,
    Update {
        name: String,
        description: Option<String>,
        repository: Option<String>,
        add_labels: Vec<String>,
        remove_labels: Vec<String>,
    },
    Delete { name: String },
}

} // verus!
