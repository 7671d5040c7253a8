//! Error taxonomy shared by the orchestration manager and the process
//! supervisor.

use vstd::prelude::*;
use vstd::string::StringExecFns;

verus! {

/// Why an orchestrator operation failed.
#[derive(Debug, Clone, PartialEq, Eq)]
pub enum OrchestratorError {
    /// A session, window, agent or project with the given identifier is absent.
    NotFound(String),
    /// A project with the given name already exists.
    AlreadyExists(String),
    /// A command could not be resolved for spawning.
    SpawnError(String),
    /// Killing or waiting on a process failed.
    ProcessError(String),
    /// The stream serving the agent's stdin is gone.
    ChannelClosed,
    /// A broadcast filter matched no agent.
    NoMatch(String),
    /// Reading or writing persistent state failed.
    IoError(String),
    /// A name or other input was rejected.
    ValidationError(String),
}

impl OrchestratorError {
    /// A human-readable description of the error.
    pub fn message(&self) -> (r: String)
        ensures
            r@ == self.spec_message(),
    {
        match self {
            OrchestratorError::NotFound(what) => String::from_str("not found: ").concat(
                what.as_str(),
            ),
            OrchestratorError::AlreadyExists(what) => String::from_str("already exists: ").concat(
                what.as_str(),
            ),
            OrchestratorError::SpawnError(what) => String::from_str("spawn error: ").concat(
                what.as_str(),
            ),
            OrchestratorError::ProcessError(what) => String::from_str("process error: ").concat(
                what.as_str(),
            ),
            OrchestratorError::ChannelClosed => String::from_str("channel closed"),
            OrchestratorError::NoMatch(what) => String::from_str("no match: ").concat(
                what.as_str(),
            ),
            OrchestratorError::IoError(what) => String::from_str("io error: ").concat(
                what.as_str(),
            ),
            OrchestratorError::ValidationError(what) => String::from_str(
                "validation error: ",
            ).concat(what.as_str()),
        }
    }

    /// What `message` returns, as a sequence of characters.
    pub open spec fn spec_message(&self) -> Seq<char> {
        match self {
            OrchestratorError::NotFound(what) => "not found: "@ + what@,
            OrchestratorError::AlreadyExists(what) => "already exists: "@ + what@,
            OrchestratorError::SpawnError(what) => "spawn error: "@ + what@,
            OrchestratorError::ProcessError(what) => "process error: "@ + what@,
            OrchestratorError::ChannelClosed => "channel closed"@,
            OrchestratorError::NoMatch(what) => "no match: "@ + what@,
            OrchestratorError::IoError(what) => "io error: "@ + what@,
            OrchestratorError::ValidationError(what) => "validation error: "@ + what@,
        }
    }
}

} // verus!
